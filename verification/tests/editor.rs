use o_shell::editor::{
    accept_line, choose_prompt, has_unclosed_double_quote, trim_str, EditorAction, KeyState,
    LineEditor, LineOutcome, BACK_SPACE, CTRL_D, DELETE, ESCAPE, TAB,
};
use o_shell::parser::AstNode;

fn feed(e: &mut LineEditor, history: &Vec<String>, bytes: &[u8]) -> Vec<EditorAction> {
    bytes.iter().map(|b| e.step(history, *b)).collect()
}

fn printed(a: &EditorAction) -> Option<String> {
    match a {
        EditorAction::Print(s) => Some(s.clone()),
        _ => None,
    }
}

fn input(e: &LineEditor) -> String {
    e.input.iter().collect()
}

#[test]
fn unclosed_quote_detection() {
    assert!(has_unclosed_double_quote("echo \"abc"));
    assert!(!has_unclosed_double_quote("echo \"abc\""));
    assert!(!has_unclosed_double_quote("echo \\\"abc"));
    assert!(has_unclosed_double_quote("\"a\\\"b"));
    assert!(!has_unclosed_double_quote(""));
}

#[test]
fn typing_echoes_and_submits() {
    let h: Vec<String> = vec![];
    let mut e = LineEditor::new("/home $ ", 0);
    let acts = feed(&mut e, &h, b"ls");
    assert_eq!(printed(&acts[0]).as_deref(), Some("l"));
    assert_eq!(printed(&acts[1]).as_deref(), Some("s"));
    match e.step(&h, b'\r') {
        EditorAction::Submit(s) => assert_eq!(s, "ls"),
        other => panic!("{:?}", other),
    }
}

#[test]
fn high_bytes_are_latin1_chars() {
    let h: Vec<String> = vec![];
    let mut e = LineEditor::new("$ ", 0);
    let a = e.step(&h, 0xe9);
    assert_eq!(printed(&a).as_deref(), Some("é"));
    assert_eq!(input(&e), "é");
}

#[test]
fn backspace_and_control_bytes() {
    let h: Vec<String> = vec![];
    let mut e = LineEditor::new("$ ", 0);
    feed(&mut e, &h, b"ab");
    let a = e.step(&h, BACK_SPACE);
    assert_eq!(printed(&a).as_deref(), Some("\x08 \x08"));
    assert_eq!(input(&e), "a");
    e.step(&h, DELETE);
    assert_eq!(input(&e), "");
    assert!(matches!(e.step(&h, BACK_SPACE), EditorAction::Nothing));
    assert!(matches!(e.step(&h, TAB), EditorAction::Nothing));
    assert!(matches!(e.step(&h, 1), EditorAction::Nothing));
    assert_eq!(input(&e), "");
}

#[test]
fn ctrl_d_exits_only_on_empty_line() {
    let h: Vec<String> = vec![];
    let mut e = LineEditor::new("$ ", 0);
    assert!(matches!(e.step(&h, CTRL_D), EditorAction::Exit));
    feed(&mut e, &h, b"x");
    assert!(matches!(e.step(&h, CTRL_D), EditorAction::Nothing));
    assert_eq!(input(&e), "x");
}

#[test]
fn backslash_continues_line() {
    let h: Vec<String> = vec![];
    let mut e = LineEditor::new("$ ", 0);
    feed(&mut e, &h, b"echo a\\  ");
    let a = e.step(&h, b'\n');
    assert_eq!(printed(&a).as_deref(), Some("\r\n> "));
    assert_eq!(e.prompt, "> ");
    assert_eq!(input(&e), "echo a");
    feed(&mut e, &h, b" b");
    match e.step(&h, b'\r') {
        EditorAction::Submit(s) => assert_eq!(s, "echo a b"),
        other => panic!("{:?}", other),
    }
}

#[test]
fn open_quote_continues_with_newline() {
    let h: Vec<String> = vec![];
    let mut e = LineEditor::new("$ ", 0);
    feed(&mut e, &h, b"echo \"a");
    let a = e.step(&h, b'\r');
    assert_eq!(printed(&a).as_deref(), Some("\r\ndquote> "));
    assert_eq!(e.prompt, "dquote> ");
    feed(&mut e, &h, b"b\"");
    match e.step(&h, b'\r') {
        EditorAction::Submit(s) => assert_eq!(s, "echo \"a\nb\""),
        other => panic!("{:?}", other),
    }
}

#[test]
fn history_navigation() {
    let h: Vec<String> = vec!["ls".to_string(), "pwd".to_string()];
    let mut e = LineEditor::new("$ ", h.len());
    let acts = feed(&mut e, &h, &[ESCAPE, b'[', b'A']);
    assert_eq!(printed(&acts[2]).as_deref(), Some("\x1b[2K\r$ pwd"));
    assert_eq!(e.history_index, 1);
    feed(&mut e, &h, &[ESCAPE, b'[', b'A']);
    assert_eq!(input(&e), "ls");
    let acts = feed(&mut e, &h, &[ESCAPE, b'[', b'A']);
    assert!(matches!(acts[2], EditorAction::Nothing));
    assert_eq!(e.history_index, 0);
    feed(&mut e, &h, &[ESCAPE, b'[', b'B']);
    assert_eq!(input(&e), "pwd");
    let acts = feed(&mut e, &h, &[ESCAPE, b'[', b'B']);
    assert_eq!(printed(&acts[2]).as_deref(), Some("\x1b[2K\r$ "));
    assert_eq!(input(&e), "");
    assert_eq!(e.history_index, 2);
    let acts = feed(&mut e, &h, &[ESCAPE, b'[', b'B']);
    assert!(matches!(acts[2], EditorAction::Nothing));
    assert_eq!(e.keys, KeyState::Plain);
}

#[test]
fn unknown_escape_sequences_are_swallowed() {
    let h: Vec<String> = vec!["ls".to_string()];
    let mut e = LineEditor::new("$ ", 1);
    feed(&mut e, &h, &[ESCAPE, b'x', b'y']);
    assert_eq!(input(&e), "y");
    feed(&mut e, &h, &[ESCAPE, b'[', b'C', b'z']);
    assert_eq!(input(&e), "yz");
    assert_eq!(e.history_index, 1);
}

#[test]
fn trimming() {
    assert_eq!(trim_str("  ls -l \t\n"), "ls -l");
    assert_eq!(trim_str("\u{a0}x\u{2003}"), "x");
    assert_eq!(trim_str("   "), "");
}

#[test]
fn accepting_lines() {
    let mut h: Vec<String> = vec![];
    assert!(matches!(accept_line(&mut h, "   "), LineOutcome::Empty));
    assert!(h.is_empty());
    match accept_line(&mut h, "  echo hi ") {
        LineOutcome::Run(t) => assert_eq!(
            t,
            AstNode::SimpleCommand { name: "echo".to_string(), args: vec!["hi".to_string()] }
        ),
        other => panic!("{:?}", other),
    }
    assert_eq!(h, vec!["echo hi".to_string()]);
    accept_line(&mut h, "echo hi");
    assert_eq!(h, vec!["echo hi".to_string()]);
    match accept_line(&mut h, "ls ;") {
        LineOutcome::Invalid(m) => assert_eq!(m, "bash: syntax error near unexpected token"),
        other => panic!("{:?}", other),
    }
    assert!(matches!(accept_line(&mut h, " exit "), LineOutcome::Exit));
    assert_eq!(h, vec!["echo hi".to_string(), "ls ;".to_string(), "exit".to_string()]);
    accept_line(&mut h, "echo hi");
    assert_eq!(h.len(), 4);
}

#[test]
fn prompts() {
    assert_eq!(choose_prompt(Some("/tmp".into()), Some("/x".into())), Ok("/tmp $ ".to_string()));
    assert_eq!(choose_prompt(None, Some("/x".into())), Ok("/x $ ".to_string()));
    assert_eq!(
        choose_prompt(None, None),
        Err("cannot get the current working directory".to_string())
    );
}
