//! The interactive line editor: a state machine that takes the terminal's
//! bytes one at a time and says what to print and when a line is complete,
//! and the handling of a completed line.

use vstd::prelude::*;

use crate::lexer::{lex, lex_state, tokenize};
use crate::parser::{parse, parse_spec, syntax_error_text, Ast, AstNode};
use crate::text::{chars_of, is_white_space, is_whitespace_char, push_char, string_from_chars, views};

verus! {

/// Backspace as sent by some terminals.
pub const DELETE: u8 = 8;
/// Backspace as sent by most terminals.
pub const BACK_SPACE: u8 = 127;
/// The first byte of an escape sequence.
pub const ESCAPE: u8 = 27;
/// `[`, the second byte of an arrow key's escape sequence.
pub const BRACKET: u8 = 91;
/// The last byte of the up arrow's escape sequence.
pub const UP: u8 = 65;
/// The last byte of the down arrow's escape sequence.
pub const DOWN: u8 = 66;
/// The tab key.
pub const TAB: u8 = 9;
/// Ctrl+D.
pub const CTRL_D: u8 = 4;

/// Whether the line `s`, read from the start, ends inside double quotes and
/// whether it ends after an unconsumed backslash; a backslash takes the
/// next character literally, so an escaped `"` does not count.
pub open spec fn quote_scan(s: Seq<char>) -> (bool, bool)
    decreases s.len(),
{
    if s.len() == 0 {
        (false, false)
    } else {
        let (q, e) = quote_scan(s.drop_last());
        let c = s.last();
        if e {
            (q, false)
        } else if c == '\\' {
            (q, true)
        } else if c == '"' {
            (!q, false)
        } else {
            (q, false)
        }
    }
}

/// The line has an unclosed double quote.
pub open spec fn has_open_quote(s: Seq<char>) -> bool {
    quote_scan(s).0
}

fn open_quote_in(cs: &Vec<char>) -> (b: bool)
    ensures
        b == has_open_quote(cs@),
{
    let mut in_quote = false;
    let mut escaped = false;
    let mut i: usize = 0;
    while i < cs.len()
        invariant
            i <= cs.len(),
            (in_quote, escaped) == quote_scan(cs@.take(i as int)),
        decreases cs.len() - i,
    {
        assert(cs@.take(i + 1).drop_last() =~= cs@.take(i as int));
        let c = cs[i];
        if escaped {
            escaped = false;
        } else if c == '\\' {
            escaped = true;
        } else if c == '"' {
            in_quote = !in_quote;
        }
        i = i + 1;
    }
    assert(cs@.take(cs.len() as int) =~= cs@);
    in_quote
}

/// Whether `input` ends inside an unclosed pair of double quotes.
pub fn has_unclosed_double_quote(input: &str) -> (b: bool)
    ensures
        b == has_open_quote(input@),
{
    let cs = chars_of(input);
    open_quote_in(&cs)
}

/// The editor and the lexer agree on quoting: a line has an unclosed
/// double quote exactly when the lexer ends it inside quotes.
pub proof fn lemma_open_quote_agrees_with_lexer(s: Seq<char>)
    ensures
        has_open_quote(s) == lex_state(s).in_quote,
        quote_scan(s).1 == lex_state(s).escaped,
    decreases s.len(),
{
    if s.len() > 0 {
        lemma_open_quote_agrees_with_lexer(s.drop_last());
    }
}

/// `s` without its trailing white space.
pub open spec fn trim_end(s: Seq<char>) -> Seq<char>
    decreases s.len(),
{
    if s.len() > 0 && is_white_space(s.last()) {
        trim_end(s.drop_last())
    } else {
        s
    }
}

/// `s` without its leading white space.
pub open spec fn trim_start(s: Seq<char>) -> Seq<char>
    decreases s.len(),
{
    if s.len() > 0 && is_white_space(s[0]) {
        trim_start(s.drop_first())
    } else {
        s
    }
}

/// `s` without leading and trailing white space.
pub open spec fn trim(s: Seq<char>) -> Seq<char> {
    trim_start(trim_end(s))
}

/// The length of `trim_end(cs)`.
fn trim_end_len(cs: &Vec<char>) -> (n: usize)
    ensures
        n <= cs.len(),
        trim_end(cs@) == cs@.take(n as int),
{
    let mut n = cs.len();
    assert(cs@.take(n as int) =~= cs@);
    while n > 0 && is_whitespace_char(cs[n - 1])
        invariant
            n <= cs.len(),
            trim_end(cs@) == trim_end(cs@.take(n as int)),
        decreases n,
    {
        assert(cs@.take(n as int).drop_last() =~= cs@.take(n - 1));
        n = n - 1;
    }
    n
}

/// The length of the leading white space of `cs[..end]`.
fn trim_start_len(cs: &Vec<char>, end: usize) -> (n: usize)
    requires
        end <= cs.len(),
    ensures
        n <= end,
        trim_start(cs@.take(end as int)) == cs@.subrange(n as int, end as int),
{
    let mut n: usize = 0;
    assert(cs@.subrange(0, end as int) =~= cs@.take(end as int));
    while n < end && is_whitespace_char(cs[n])
        invariant
            n <= end <= cs.len(),
            trim_start(cs@.take(end as int)) == trim_start(cs@.subrange(n as int, end as int)),
        decreases end - n,
    {
        assert(cs@.subrange(n as int, end as int).drop_first() =~= cs@.subrange(n + 1, end as int));
        n = n + 1;
    }
    n
}

/// `s` without leading and trailing white space (`str::trim`).
pub fn trim_str(s: &str) -> (r: String)
    ensures
        r@ == trim(s@),
{
    let cs = chars_of(s);
    let end = trim_end_len(&cs);
    let start = trim_start_len(&cs, end);
    let mut out: Vec<char> = Vec::new();
    let mut i = start;
    while i < end
        invariant
            start <= i <= end <= cs.len(),
            out@ == cs@.subrange(start as int, i as int),
        decreases end - i,
    {
        out.push(cs[i]);
        assert(out@ =~= cs@.subrange(start as int, i + 1));
        i = i + 1;
    }
    string_from_chars(&out)
}

/// Where the editor stands within an escape sequence.
#[derive(Debug, Clone, Copy, PartialEq, Eq, Structural)]
pub enum KeyState {
    /// Not inside an escape sequence.
    Plain,
    /// After `ESC`.
    Escape,
    /// After `ESC [`.
    Bracket,
}

/// The state of the line being edited.
pub struct LineEditor {
    /// The text typed so far.
    pub input: Vec<char>,
    /// The prompt shown on the current line.
    pub prompt: String,
    /// The history entry shown; the history's length stands for the fresh line.
    pub history_index: usize,
    /// Progress through an escape sequence.
    pub keys: KeyState,
}

/// The mathematical form of a `LineEditor`.
pub struct EditorView {
    pub input: Seq<char>,
    pub prompt: Seq<char>,
    pub history_index: int,
    pub keys: KeyState,
}

impl View for LineEditor {
    type V = EditorView;

    open spec fn view(&self) -> EditorView {
        EditorView {
            input: self.input@,
            prompt: self.prompt@,
            history_index: self.history_index as int,
            keys: self.keys,
        }
    }
}

/// What the terminal loop does after a byte.
#[derive(Debug)]
pub enum EditorAction {
    /// Nothing to show.
    Nothing,
    /// Print the text and flush.
    Print(String),
    /// Print a line break: the line is complete.
    Submit(String),
    /// Print `exit` and a line break: the input has ended.
    Exit,
}

/// The mathematical form of an `EditorAction`.
pub enum Reply {
    Nothing,
    Print(Seq<char>),
    Submit(Seq<char>),
    Exit,
}

impl View for EditorAction {
    type V = Reply;

    open spec fn view(&self) -> Reply {
        match self {
            EditorAction::Nothing => Reply::Nothing,
            EditorAction::Print(s) => Reply::Print(s@),
            EditorAction::Submit(s) => Reply::Submit(s@),
            EditorAction::Exit => Reply::Exit,
        }
    }
}

/// The text that replaces the current line by `prompt` and `input`.
pub open spec fn redraw(prompt: Seq<char>, input: Seq<char>) -> Seq<char> {
    "\x1b[2K\r"@ + prompt + input
}

/// The character that a typed byte stands for.
pub open spec fn byte_char(b: u8) -> char {
    b as char
}

/// Line end: a line whose text, without trailing white space, ends in a
/// backslash continues on the next line without that backslash; a line
/// with an unclosed double quote continues with a line break; any other
/// line is complete.
pub open spec fn on_enter(st: EditorView) -> (EditorView, Reply) {
    let t = trim_end(st.input);
    if t.len() > 0 && t.last() == '\\' {
        (EditorView { input: t.drop_last(), prompt: "> "@, ..st }, Reply::Print("\r\n> "@))
    } else if has_open_quote(st.input) {
        (
            EditorView { input: st.input.push('\n'), prompt: "dquote> "@, ..st },
            Reply::Print("\r\ndquote> "@),
        )
    } else {
        (st, Reply::Submit(st.input))
    }
}

/// The arrow keys: up shows the previous history entry, down the next one
/// or, past the last, an empty line; at either end nothing happens.
pub open spec fn on_arrow(st: EditorView, history: Seq<Seq<char>>, b: u8) -> (EditorView, Reply) {
    let st0 = EditorView { keys: KeyState::Plain, ..st };
    if b == UP && st.history_index > 0 {
        let i = st.history_index - 1;
        (
            EditorView { input: history[i], history_index: i, ..st0 },
            Reply::Print(redraw(st.prompt, history[i])),
        )
    } else if b == DOWN && st.history_index < history.len() {
        let i = st.history_index + 1;
        let line = if i == history.len() {
            seq![]
        } else {
            history[i]
        };
        (EditorView { input: line, history_index: i, ..st0 }, Reply::Print(redraw(st.prompt, line)))
    } else {
        (st0, Reply::Nothing)
    }
}

/// One byte typed at the terminal.
pub open spec fn editor_step(st: EditorView, history: Seq<Seq<char>>, b: u8) -> (
    EditorView,
    Reply,
) {
    match st.keys {
        KeyState::Escape => if b == BRACKET {
            (EditorView { keys: KeyState::Bracket, ..st }, Reply::Nothing)
        } else {
            (EditorView { keys: KeyState::Plain, ..st }, Reply::Nothing)
        },
        KeyState::Bracket => on_arrow(st, history, b),
        KeyState::Plain => if b == 13 || b == 10 {
            on_enter(st)
        } else if b == CTRL_D {
            if st.input.len() == 0 {
                (st, Reply::Exit)
            } else {
                (st, Reply::Nothing)
            }
        } else if b == DELETE || b == BACK_SPACE {
            if st.input.len() > 0 {
                (EditorView { input: st.input.drop_last(), ..st }, Reply::Print("\x08 \x08"@))
            } else {
                (st, Reply::Nothing)
            }
        } else if b == ESCAPE {
            (EditorView { keys: KeyState::Escape, ..st }, Reply::Nothing)
        } else if b >= 32 {
            (
                EditorView { input: st.input.push(byte_char(b)), ..st },
                Reply::Print(seq![byte_char(b)]),
            )
        } else {
            (st, Reply::Nothing)
        },
    }
}

impl LineEditor {
    /// An empty line under `prompt`, positioned after the last history entry.
    pub fn new(prompt: &str, history_len: usize) -> (e: LineEditor)
        ensures
            e@.input == Seq::<char>::empty(),
            e@.prompt == prompt@,
            e@.history_index == history_len,
            e@.keys == KeyState::Plain,
    {
        LineEditor {
            input: Vec::new(),
            prompt: String::from_str(prompt),
            history_index: history_len,
            keys: KeyState::Plain,
        }
    }

    /// Takes one byte typed at the terminal (see `editor_step`).
    pub fn step(&mut self, history: &Vec<String>, byte: u8) -> (a: EditorAction)
        requires
            old(self).history_index <= history.len(),
        ensures
            (final(self)@, a@) == editor_step(old(self)@, views(history@), byte),
            final(self).history_index <= history.len(),
    {
        match self.keys {
            KeyState::Escape => {
                if byte == BRACKET {
                    self.keys = KeyState::Bracket;
                } else {
                    self.keys = KeyState::Plain;
                }
                EditorAction::Nothing
            },
            KeyState::Bracket => {
                self.keys = KeyState::Plain;
                if byte == UP && self.history_index > 0 {
                    self.history_index = self.history_index - 1;
                    self.input = chars_of(history[self.history_index].as_str());
                    EditorAction::Print(self.redraw())
                } else if byte == DOWN && self.history_index < history.len() {
                    self.history_index = self.history_index + 1;
                    if self.history_index == history.len() {
                        self.input = Vec::new();
                    } else {
                        self.input = chars_of(history[self.history_index].as_str());
                    }
                    EditorAction::Print(self.redraw())
                } else {
                    EditorAction::Nothing
                }
            },
            KeyState::Plain => {
                if byte == 13 || byte == 10 {
                    self.enter()
                } else if byte == CTRL_D {
                    if self.input.len() == 0 {
                        EditorAction::Exit
                    } else {
                        EditorAction::Nothing
                    }
                } else if byte == DELETE || byte == BACK_SPACE {
                    if self.input.len() > 0 {
                        self.input.pop();
                        EditorAction::Print(String::from_str("\x08 \x08"))
                    } else {
                        EditorAction::Nothing
                    }
                } else if byte == ESCAPE {
                    self.keys = KeyState::Escape;
                    EditorAction::Nothing
                } else if byte >= 32 {
                    let c = byte as char;
                    self.input.push(c);
                    let mut shown = String::new();
                    push_char(&mut shown, c);
                    assert(shown@ =~= seq![byte_char(byte)]);
                    EditorAction::Print(shown)
                } else {
                    EditorAction::Nothing
                }
            },
        }
    }

    /// The text that replaces the current line by the prompt and the input.
    fn redraw(&self) -> (s: String)
        ensures
            s@ == redraw(self.prompt@, self.input@),
    {
        let mut s = String::from_str("\x1b[2K\r");
        s.append(self.prompt.as_str());
        let line = string_from_chars(&self.input);
        s.append(line.as_str());
        s
    }

    /// Line end (see `on_enter`).
    fn enter(&mut self) -> (a: EditorAction)
        requires
            old(self).keys == KeyState::Plain,
        ensures
            (final(self)@, a@) == on_enter(old(self)@),
            final(self).history_index == old(self).history_index,
    {
        let n = trim_end_len(&self.input);
        if n > 0 && self.input[n - 1] == '\\' {
            self.input.truncate(n - 1);
            assert(self.input@ =~= trim_end(old(self).input@).drop_last());
            self.prompt = String::from_str("> ");
            EditorAction::Print(String::from_str("\r\n> "))
        } else if open_quote_in(&self.input) {
            self.input.push('\n');
            self.prompt = String::from_str("dquote> ");
            EditorAction::Print(String::from_str("\r\ndquote> "))
        } else {
            EditorAction::Submit(string_from_chars(&self.input))
        }
    }
}

/// The state after typing the bytes `bytes` in order.
pub open spec fn editor_run(st: EditorView, history: Seq<Seq<char>>, bytes: Seq<u8>) -> EditorView
    decreases bytes.len(),
{
    if bytes.len() == 0 {
        st
    } else {
        editor_run(editor_step(st, history, bytes[0]).0, history, bytes.drop_first())
    }
}

/// The line shown for history position `i`: the entry, or an empty line
/// past the last entry.
pub open spec fn history_line(history: Seq<Seq<char>>, i: int) -> Seq<char> {
    if i == history.len() {
        seq![]
    } else {
        history[i]
    }
}

/// Backspace takes back the character just typed.
pub proof fn lemma_backspace_undoes_typing(st: EditorView, history: Seq<Seq<char>>, b: u8)
    requires
        st.keys == KeyState::Plain,
        b >= 32,
        b != BACK_SPACE,
    ensures
        editor_step(editor_step(st, history, b).0, history, BACK_SPACE).0 == st,
{
    assert(st.input.push(byte_char(b)).drop_last() =~= st.input);
}

/// Up then down returns to the same history position and shows its line.
pub proof fn lemma_up_then_down(st: EditorView, history: Seq<Seq<char>>)
    requires
        st.keys == KeyState::Plain,
        0 < st.history_index <= history.len(),
    ensures
        ({
            let end = editor_run(st, history, seq![ESCAPE, BRACKET, UP, ESCAPE, BRACKET, DOWN]);
            &&& end.history_index == st.history_index
            &&& end.input == history_line(history, st.history_index)
            &&& end.prompt == st.prompt
            &&& end.keys == KeyState::Plain
        }),
{
    let bytes = seq![ESCAPE, BRACKET, UP, ESCAPE, BRACKET, DOWN];
    reveal_with_fuel(editor_run, 7);
    assert(bytes.drop_first() =~= seq![BRACKET, UP, ESCAPE, BRACKET, DOWN]);
    assert(bytes.drop_first().drop_first() =~= seq![UP, ESCAPE, BRACKET, DOWN]);
    assert(bytes.drop_first().drop_first().drop_first() =~= seq![ESCAPE, BRACKET, DOWN]);
    assert(bytes.drop_first().drop_first().drop_first().drop_first() =~= seq![BRACKET, DOWN]);
    assert(bytes.drop_first().drop_first().drop_first().drop_first().drop_first() =~= seq![DOWN]);
    assert(seq![DOWN].drop_first() =~= Seq::<u8>::empty());
}

/// A completed line never has an unclosed double quote nor ends, before
/// trailing white space, in a backslash.
pub proof fn lemma_submitted_line_is_complete(st: EditorView, history: Seq<Seq<char>>, b: u8)
    requires
        editor_step(st, history, b).1 is Submit,
    ensures
        ({
            let line = editor_step(st, history, b).1->Submit_0;
            &&& !has_open_quote(line)
            &&& !(trim_end(line).len() > 0 && trim_end(line).last() == '\\')
        }),
{
}

/// The history after a non-empty line `t`: `t` is added unless it repeats
/// the last entry.
pub open spec fn remember(history: Seq<Seq<char>>, t: Seq<char>) -> Seq<Seq<char>> {
    if history.len() > 0 && history.last() == t {
        history
    } else {
        history.push(t)
    }
}

/// No entry of the history repeats the one before it.
pub open spec fn no_repeats(history: Seq<Seq<char>>) -> bool {
    forall|i: int| 0 <= i < history.len() - 1 ==> #[trigger] history[i] != history[i + 1]
}

/// Remembering a line never puts two equal entries next to each other.
pub proof fn lemma_remember_keeps_no_repeats(history: Seq<Seq<char>>, t: Seq<char>)
    requires
        no_repeats(history),
    ensures
        no_repeats(remember(history, t)),
{
    let h2 = remember(history, t);
    assert forall|i: int| 0 <= i < h2.len() - 1 implies #[trigger] h2[i] != h2[i + 1] by {
        if i < history.len() - 1 {
            assert(h2[i] == history[i] && h2[i + 1] == history[i + 1]);
        }
    }
}

/// What the shell does with a completed line.
#[derive(Debug)]
pub enum LineOutcome {
    /// A blank line: nothing to do.
    Empty,
    /// `exit`: leave the shell.
    Exit,
    /// A line that does not parse, with the message to show.
    Invalid(String),
    /// A line to execute.
    Run(AstNode),
}

/// The mathematical form of a `LineOutcome`.
pub enum Outcome {
    Empty,
    Exit,
    Invalid(Seq<char>),
    Run(Ast),
}

impl View for LineOutcome {
    type V = Outcome;

    open spec fn view(&self) -> Outcome {
        match self {
            LineOutcome::Empty => Outcome::Empty,
            LineOutcome::Exit => Outcome::Exit,
            LineOutcome::Invalid(e) => Outcome::Invalid(e@),
            LineOutcome::Run(a) => Outcome::Run(a@),
        }
    }
}

/// What a completed line gives: its text without surrounding white space
/// is ignored when empty, else remembered, and then leaves the shell when
/// it is `exit` and otherwise is tokenized and parsed.
pub open spec fn line_outcome(line: Seq<char>) -> Outcome {
    let t = trim(line);
    if t.len() == 0 {
        Outcome::Empty
    } else if t == "exit"@ {
        Outcome::Exit
    } else {
        match parse_spec(lex(t)) {
            Some(a) => Outcome::Run(a),
            None => Outcome::Invalid(syntax_error_text()),
        }
    }
}

/// Handles a completed line (see `line_outcome` and `remember`).
pub fn accept_line(history: &mut Vec<String>, line: &str) -> (r: LineOutcome)
    ensures
        r@ == line_outcome(line@),
        trim(line@).len() == 0 ==> final(history)@ == old(history)@,
        trim(line@).len() > 0 ==> views(final(history)@) == remember(views(old(history)@), trim(line@)),
{
    let trimmed = trim_str(line);
    if trimmed.as_str().is_empty() {
        return LineOutcome::Empty;
    }
    let n = history.len();
    let repeated = n > 0 && history[n - 1] == trimmed;
    if !repeated {
        history.push(trimmed.clone());
        assert(views(history@) =~= views(old(history)@).push(trimmed@));
    }
    let exit_word = String::from_str("exit");
    if trimmed == exit_word {
        return LineOutcome::Exit;
    }
    let tokens = tokenize(trimmed.as_str());
    match parse(tokens) {
        Ok(tree) => LineOutcome::Run(tree),
        Err(e) => LineOutcome::Invalid(e),
    }
}

/// The prompt: the working directory, or else the value of `PWD`, followed
/// by ` $ `; an error when neither is known.
pub fn choose_prompt(cwd: Option<String>, pwd_var: Option<String>) -> (r: Result<String, String>)
    ensures
        match r {
            Ok(p) => {
                &&& cwd is Some ==> p@ == cwd->0@ + " $ "@
                &&& cwd is None ==> pwd_var is Some && p@ == pwd_var->0@ + " $ "@
            },
            Err(e) => cwd is None && pwd_var is None && e@ == "cannot get the current working directory"@,
        },
{
    let dir = match cwd {
        Some(d) => d,
        None => match pwd_var {
            Some(p) => p,
            None => return Err(String::from_str("cannot get the current working directory")),
        },
    };
    Ok(dir.concat(" $ "))
}

} // verus!
