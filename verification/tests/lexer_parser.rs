use o_shell::executor::{
    builtin_for, execution_steps, not_found_message, redirect_setup, Builtin, RunAction, SequenceRun,
};
use o_shell::lexer::tokenize;
use o_shell::parser::{parse, AstNode, Direction};
use o_shell::text::is_whitespace_char;

fn strs(v: &[&str]) -> Vec<String> {
    v.iter().map(|s| s.to_string()).collect()
}

fn cmd(name: &str, args: &[&str]) -> AstNode {
    AstNode::SimpleCommand { name: name.to_string(), args: strs(args) }
}

#[test]
fn tokenize_splits_on_whitespace() {
    assert_eq!(tokenize("ls -la  /tmp"), strs(&["ls", "-la", "/tmp"]));
    assert_eq!(tokenize("  \t echo   hi \n"), strs(&["echo", "hi"]));
    assert_eq!(tokenize(""), Vec::<String>::new());
    assert_eq!(tokenize("   "), Vec::<String>::new());
}

#[test]
fn tokenize_quotes_group_words() {
    assert_eq!(tokenize("echo \"hello world\""), strs(&["echo", "hello world"]));
    assert_eq!(tokenize("echo a\"b c\"d"), strs(&["echo", "ab cd"]));
    assert_eq!(tokenize("echo \"\""), strs(&["echo"]));
    assert_eq!(tokenize("echo \"a;b|c\""), strs(&["echo", "a;b|c"]));
}

#[test]
fn tokenize_escapes() {
    assert_eq!(tokenize("echo a\\ b"), strs(&["echo", "a b"]));
    assert_eq!(tokenize("echo \\\"x\\\""), strs(&["echo", "\"x\""]));
    assert_eq!(tokenize("echo \\;"), strs(&["echo", ";"]));
    assert_eq!(tokenize("echo \"a\\\"b\""), strs(&["echo", "a\"b"]));
    assert_eq!(tokenize("x\\"), strs(&["x"]));
}

#[test]
fn tokenize_operators_are_tokens() {
    assert_eq!(
        tokenize("mkdir test;cd test ; pwd"),
        strs(&["mkdir", "test", ";", "cd", "test", ";", "pwd"])
    );
    assert_eq!(tokenize("a|b>c<d"), strs(&["a", "|", "b", ">", "c", "<", "d"]));
    assert_eq!(tokenize(";;"), strs(&[";", ";"]));
}

#[test]
fn tokenize_unicode_whitespace() {
    assert_eq!(tokenize("a\u{a0}b\u{3000}c"), strs(&["a", "b", "c"]));
    assert_eq!(tokenize("é ü"), strs(&["é", "ü"]));
}

#[test]
fn whitespace_matches_std() {
    for code in 0u32..=0x10FFFF {
        if let Some(c) = char::from_u32(code) {
            assert_eq!(is_whitespace_char(c), c.is_whitespace(), "{:x}", code);
        }
    }
}

#[test]
fn tokens_are_never_empty() {
    for line in ["\"\" \"\" x", "a ; ; b", "  \"  \"  ", "\\ "] {
        for t in tokenize(line) {
            assert!(!t.is_empty(), "{:?}", line);
        }
    }
}

#[test]
fn parse_simple_command() {
    assert_eq!(parse(strs(&["ls", "-l", "x"])), Ok(cmd("ls", &["-l", "x"])));
    assert_eq!(parse(strs(&["pwd"])), Ok(cmd("pwd", &[])));
}

#[test]
fn parse_sequence() {
    let t = parse(tokenize("mkdir test ; cd test ; pwd")).unwrap();
    let expected = AstNode::Sequence {
        left: Box::new(cmd("mkdir", &["test"])),
        right: Box::new(AstNode::Sequence {
            left: Box::new(cmd("cd", &["test"])),
            right: Box::new(cmd("pwd", &[])),
        }),
    };
    assert_eq!(t, expected);
}

#[test]
fn parse_pipe_and_redirect_tokens_are_arguments() {
    assert_eq!(parse(tokenize("ls | cat > f")), Ok(cmd("ls", &["|", "cat", ">", "f"])));
}

#[test]
fn parse_refuses_empty_segments() {
    let msg = "bash: syntax error near unexpected token".to_string();
    assert_eq!(parse(vec![]), Err(msg.clone()));
    assert_eq!(parse(strs(&[";"])), Err(msg.clone()));
    assert_eq!(parse(strs(&["ls", ";"])), Err(msg.clone()));
    assert_eq!(parse(strs(&[";", "ls"])), Err(msg.clone()));
    assert_eq!(parse(strs(&["a", ";", ";", "b"])), Err(msg.clone()));
    assert!(parse(strs(&["a", ";", "b", ";", "c"])).is_ok());
}

#[test]
fn steps_follow_sequence_order() {
    let t = parse(tokenize("a 1 ; b ; c 2 3")).unwrap();
    let steps = execution_steps(t);
    assert_eq!(steps, vec![cmd("a", &["1"]), cmd("b", &[]), cmd("c", &["2", "3"])]);
    let pipe = AstNode::Pipe { left: Box::new(cmd("a", &[])), right: Box::new(cmd("b", &[])) };
    assert_eq!(execution_steps(pipe.clone_tree()), vec![pipe]);
}

trait CloneTree {
    fn clone_tree(&self) -> AstNode;
}

impl CloneTree for AstNode {
    fn clone_tree(&self) -> AstNode {
        match self {
            AstNode::SimpleCommand { name, args } => {
                AstNode::SimpleCommand { name: name.clone(), args: args.clone() }
            }
            AstNode::Sequence { left, right } => AstNode::Sequence {
                left: Box::new(left.clone_tree()),
                right: Box::new(right.clone_tree()),
            },
            AstNode::Pipe { left, right } => AstNode::Pipe {
                left: Box::new(left.clone_tree()),
                right: Box::new(right.clone_tree()),
            },
            AstNode::Redirect { command, file, direction } => AstNode::Redirect {
                command: Box::new(command.clone_tree()),
                file: file.clone(),
                direction: *direction,
            },
        }
    }
}

#[test]
fn builtin_names() {
    assert_eq!(builtin_for("cat"), Some(Builtin::Cat));
    assert_eq!(builtin_for("cd"), Some(Builtin::Cd));
    assert_eq!(builtin_for("cp"), Some(Builtin::Cp));
    assert_eq!(builtin_for("echo"), Some(Builtin::Echo));
    assert_eq!(builtin_for("exit"), Some(Builtin::Exit));
    assert_eq!(builtin_for("ls"), Some(Builtin::Ls));
    assert_eq!(builtin_for("mkdir"), Some(Builtin::Mkdir));
    assert_eq!(builtin_for("mv"), Some(Builtin::Mv));
    assert_eq!(builtin_for("pwd"), Some(Builtin::Pwd));
    assert_eq!(builtin_for("rm"), Some(Builtin::Rm));
    assert_eq!(builtin_for("grep"), None);
    assert_eq!(builtin_for("LS"), None);
    assert_eq!(not_found_message("grep"), "grep: command not found");
    assert_eq!(not_found_message("foo"), "foo: command not found");
}

#[test]
fn redirect_descriptors() {
    assert_eq!(redirect_setup(Direction::In), (0, false));
    assert_eq!(redirect_setup(Direction::Out), (1, true));
}

#[test]
fn sequence_run_stops_at_first_failure() {
    let mut run = SequenceRun::start(parse(tokenize("a ; b ; c")).unwrap());
    match run.next(None) {
        RunAction::Run(step) => assert_eq!(step, cmd("a", &[])),
        other => panic!("{:?}", other),
    }
    match run.next(Some(Ok(()))) {
        RunAction::Run(step) => assert_eq!(step, cmd("b", &[])),
        other => panic!("{:?}", other),
    }
    match run.next(Some(Err("boom".to_string()))) {
        RunAction::Finish(r) => assert_eq!(r, Err("boom".to_string())),
        other => panic!("{:?}", other),
    }
    let mut run = SequenceRun::start(parse(tokenize("a ; b")).unwrap());
    assert!(matches!(run.next(None), RunAction::Run(_)));
    assert!(matches!(run.next(Some(Ok(()))), RunAction::Run(_)));
    match run.next(Some(Ok(()))) {
        RunAction::Finish(r) => assert_eq!(r, Ok(())),
        other => panic!("{:?}", other),
    }
}
