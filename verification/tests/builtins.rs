use o_shell::builtins::cd::{cd_failure_message, cd_target, previous_dir, record_change};
use o_shell::builtins::pwd::working_dir_text;
use o_shell::builtins::echo::{echo_words, glob_entries, join_words, EchoWord};
use o_shell::builtins::errors::{
    cat_file_error, cat_stdin_error, clean_error_text, mkdir_check, mkdir_failure_message,
    text_before,
};
use o_shell::builtins::exit::{exit_plan, parse_i32};
use o_shell::builtins::rm::{rm_failure_message, rm_plan};
use o_shell::builtins::transfer::{
    check_target, cp_plan, destination_for, mv_plan, omitting_directory_message,
};

fn strs(v: &[&str]) -> Vec<String> {
    v.iter().map(|s| s.to_string()).collect()
}

fn home() -> Option<String> {
    Some("/home/u".to_string())
}

#[test]
fn cd_targets() {
    let p = cd_target(&strs(&[]), home(), None).unwrap();
    assert_eq!(p.target, "/home/u");
    assert!(!p.print_target);
    assert_eq!(cd_target(&strs(&[]), None, None).unwrap_err(), "cd: HOME not set");
    let p = cd_target(&strs(&["-"]), home(), Some("/old".into())).unwrap();
    assert_eq!(p.target, "/old");
    assert!(p.print_target);
    assert_eq!(cd_target(&strs(&["-"]), home(), None).unwrap_err(), "cd: OLDPWD not set");
    assert_eq!(cd_target(&strs(&["~/x"]), home(), None).unwrap().target, "/home/u/x");
    assert_eq!(cd_target(&strs(&["~"]), home(), None).unwrap().target, "/home/u");
    assert_eq!(cd_target(&strs(&["~/x"]), None, None).unwrap_err(), "cd: HOME not set");
    assert_eq!(cd_target(&strs(&["/tmp"]), None, None).unwrap().target, "/tmp");
    assert_eq!(cd_target(&strs(&["a", "b"]), home(), None).unwrap_err(), "cd: too many arguments");
    assert_eq!(cd_failure_message("x", "No such file"), "cd: x: No such file");
}

#[test]
fn cp_plans() {
    assert_eq!(cp_plan(&strs(&["a"]), home()).unwrap_err(), "cp: missing file operand");
    let p = cp_plan(&strs(&["a", "b", "~docs"]), home()).unwrap();
    assert_eq!(p.target, "/home/u/docs");
    assert_eq!(p.sources, strs(&["a", "b"]));
    assert_eq!(cp_plan(&strs(&["a", "~"]), None).unwrap_err(), "cd: HOME not set");
    assert_eq!(cp_plan(&strs(&["~a", "b"]), None).unwrap().sources, strs(&["~a"]));
}

#[test]
fn mv_plans() {
    assert_eq!(mv_plan(&strs(&[]), home()).unwrap_err(), "mv: missing file operand");
    assert_eq!(
        mv_plan(&strs(&["a"]), home()).unwrap_err(),
        "mv: missing destination file operand after 'a'"
    );
    let p = mv_plan(&strs(&["~a", "b", "~/t"]), home()).unwrap();
    assert_eq!(p.target, "/home/u/t");
    assert_eq!(p.sources, strs(&["/home/ua", "b"]));
    assert_eq!(mv_plan(&strs(&["a", "~t"]), None).unwrap_err(), "mv: HOME not set");
    let p = mv_plan(&strs(&["~a", "t"]), None).unwrap();
    assert_eq!(p.sources, strs(&["~a"]));
}

#[test]
fn targets_and_destinations() {
    assert!(check_target("cp", 1, "t", false).is_ok());
    assert!(check_target("cp", 2, "t", true).is_ok());
    assert_eq!(check_target("cp", 2, "t", false).unwrap_err(), "cp: target 't' is not a directory");
    assert_eq!(check_target("mv", 3, "x", false).unwrap_err(), "mv: target 'x' is not a directory");
    assert_eq!(destination_for("dir", true, "a/b.txt"), Some("dir/b.txt".to_string()));
    assert_eq!(destination_for("dir/", true, "b.txt"), Some("dir/b.txt".to_string()));
    assert_eq!(destination_for("dir", true, "a/.."), None);
    assert_eq!(destination_for("/", true, "a/b"), Some("/b".to_string()));
    assert_eq!(destination_for("", true, "a/b"), Some("b".to_string()));
    assert_eq!(destination_for("new", false, "a/b.txt"), Some("new".to_string()));
    assert_eq!(omitting_directory_message("cp", ".."), "cp: omitting directory '..'");
}

#[test]
fn exit_codes() {
    let p = exit_plan(&strs(&[]));
    assert_eq!((p.code, p.message), (0, None));
    let p = exit_plan(&strs(&["3"]));
    assert_eq!((p.code, p.message), (3, None));
    let p = exit_plan(&strs(&["-1", "x"]));
    assert_eq!((p.code, p.message), (-1, None));
    let p = exit_plan(&strs(&["abc"]));
    assert_eq!(p.code, 2);
    assert_eq!(p.message.unwrap(), "0-shell: exit: abc: numeric argument required");
}

#[test]
fn i32_parsing_matches_std() {
    let cases = [
        "0", "7", "+7", "-7", "-", "+", "", "12a", "2147483647", "2147483648", "-2147483648",
        "-2147483649", "99999999999999999999", "0000000000012", "-0", " 1", "1 ", "+-1", "٣",
        "99999999999a",
    ];
    for c in cases {
        assert_eq!(parse_i32(c), c.parse::<i32>().ok(), "{:?}", c);
    }
}

#[test]
fn echo_arguments() {
    let w = echo_words(&strs(&["*", "$HOME", "$", "a$b", "x"]));
    assert!(matches!(w[0], EchoWord::DirectoryEntries));
    assert!(matches!(&w[1], EchoWord::Variable(n) if n == "HOME"));
    assert!(matches!(&w[2], EchoWord::Literal(n) if n == "$"));
    assert!(matches!(&w[3], EchoWord::Literal(n) if n == "a$b"));
    assert!(matches!(&w[4], EchoWord::Literal(n) if n == "x"));
    assert_eq!(glob_entries(strs(&["b", ".h", "B", "a"])), strs(&["B", "a", "b"]));
    assert_eq!(join_words(&strs(&["a", "b c", "d"])), "a b c d");
    assert_eq!(join_words(&strs(&[])), "");
}

#[test]
fn rm_arguments() {
    assert_eq!(rm_plan(&strs(&[])).unwrap_err(), "rm: missing operand");
    let p = rm_plan(&strs(&["a", "-r", "b"])).unwrap();
    assert!(p.recursive);
    assert_eq!(p.paths, strs(&["a", "b"]));
    let p = rm_plan(&strs(&["a"])).unwrap();
    assert!(!p.recursive);
    assert_eq!(rm_failure_message("a", "denied"), "rm: cannot remove a: denied");
}

#[test]
fn error_texts() {
    assert_eq!(text_before("abcXYdef", "XY"), "abc");
    assert_eq!(text_before("abc", "XY"), "abc");
    assert_eq!(text_before("XY", "XY"), "");
    assert_eq!(clean_error_text("No such file or directory (os error 2)"), "No such file or directory (os error 2)");
    assert_eq!(clean_error_text("boom (os error) tail"), "boom");
    assert_eq!(cat_file_error("f", "bad (os error)"), "cat: f: bad");
    assert_eq!(cat_stdin_error("bad"), "cat: error reading stdin: bad");
    assert!(mkdir_check(&strs(&["d"])).is_ok());
    assert_eq!(mkdir_check(&strs(&[])).unwrap_err(), "mkdir: missing operand");
    assert_eq!(mkdir_failure_message("d", "File exists (os error 17)"), "mkdir: cannot create directory 'd': File exists (os error 17)");
}

#[test]
fn cd_records_directories() {
    assert_eq!(previous_dir(Some("/p".into()), Some("/c".into())), "/p");
    assert_eq!(previous_dir(None, Some("/c".into())), "/c");
    assert_eq!(previous_dir(None, None), "");
    assert_eq!(record_change("/a".into(), Some("/b".into())), (Some("/a".to_string()), Some("/b".to_string())));
    assert_eq!(record_change(String::new(), None), (None, None));
}

#[test]
fn cd_dash_round_trip() {
    let d0 = "/start".to_string();
    let plan = cd_target(&strs(&["/elsewhere"]), home(), None).unwrap();
    let (oldpwd, pwd) = record_change(previous_dir(Some(d0.clone()), None), Some(plan.target.clone()));
    let back = cd_target(&strs(&["-"]), home(), oldpwd.clone()).unwrap();
    assert_eq!(back.target, d0);
    assert!(back.print_target);
    let (oldpwd2, _) = record_change(previous_dir(pwd, None), Some(back.target.clone()));
    assert_eq!(oldpwd2, Some("/elsewhere".to_string()));
}

#[test]
fn pwd_text() {
    assert_eq!(working_dir_text(Some("/p".into()), Ok("/c".into())), Ok("/p".to_string()));
    assert_eq!(working_dir_text(None, Ok("/c".into())), Ok("/c".to_string()));
    assert_eq!(
        working_dir_text(None, Err("gone".into())),
        Err("Failed to get current directory gone".to_string())
    );
}
