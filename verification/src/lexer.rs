//! Splits a command line into tokens, honouring double quotes, backslash
//! escapes and the one-character operators `|`, `>`, `<` and `;`.

use vstd::prelude::*;

use crate::text::{chars_of, is_white_space, is_whitespace_char, string_from_chars, views};

verus! {

/// The state of the lexer after reading a prefix of the line.
pub struct LexState {
    /// Tokens completed so far.
    pub tokens: Seq<Seq<char>>,
    /// The token being built.
    pub token: Seq<char>,
    /// Inside an unclosed pair of double quotes.
    pub in_quote: bool,
    /// The previous character was an unconsumed backslash.
    pub escaped: bool,
}

/// The characters that form a token of their own outside quotes.
pub open spec fn is_operator(c: char) -> bool {
    c == '|' || c == '>' || c == '<' || c == ';'
}

/// The lexer's state before any character.
pub open spec fn lex_start() -> LexState {
    LexState { tokens: seq![], token: seq![], in_quote: false, escaped: false }
}

/// `st.tokens` with the pending token appended when it is not empty.
pub open spec fn flush(st: LexState) -> Seq<Seq<char>> {
    if st.token.len() > 0 {
        st.tokens.push(st.token)
    } else {
        st.tokens
    }
}

/// How one character moves the lexer: an escaped character is taken
/// literally, a backslash escapes the next one, a double quote toggles
/// quoting, white space outside quotes ends a token, an operator outside
/// quotes ends a token and forms one of its own.
pub open spec fn lex_step(st: LexState, c: char) -> LexState {
    if st.escaped {
        LexState { token: st.token.push(c), escaped: false, ..st }
    } else if c == '\\' {
        LexState { escaped: true, ..st }
    } else if c == '"' {
        LexState { in_quote: !st.in_quote, ..st }
    } else if st.in_quote {
        LexState { token: st.token.push(c), ..st }
    } else if is_white_space(c) {
        LexState { tokens: flush(st), token: seq![], ..st }
    } else if is_operator(c) {
        LexState { tokens: flush(st).push(seq![c]), token: seq![], ..st }
    } else {
        LexState { token: st.token.push(c), ..st }
    }
}

/// The lexer's state after reading all of `s`.
pub open spec fn lex_state(s: Seq<char>) -> LexState
    decreases s.len(),
{
    if s.len() == 0 {
        lex_start()
    } else {
        lex_step(lex_state(s.drop_last()), s.last())
    }
}

/// The tokens of the line `s`.
pub open spec fn lex(s: Seq<char>) -> Seq<Seq<char>> {
    flush(lex_state(s))
}

/// Splits `command` into its tokens (see `lex`).
pub fn tokenize(command: &str) -> (tokens_vec: Vec<String>)
    ensures
        views(tokens_vec@) == lex(command@),
{
    let cs = chars_of(command);
    let mut tokens_vec: Vec<String> = Vec::new();
    let mut token: Vec<char> = Vec::new();
    let mut is_inside_quote = false;
    let mut is_escaped = false;
    let mut i: usize = 0;
    while i < cs.len()
        invariant
            i <= cs.len(),
            cs@ == command@,
            ({
                let st = lex_state(cs@.take(i as int));
                &&& views(tokens_vec@) == st.tokens
                &&& token@ == st.token
                &&& is_inside_quote == st.in_quote
                &&& is_escaped == st.escaped
            }),
        decreases cs.len() - i,
    {
        let c = cs[i];
        proof {
            assert(cs@.take(i + 1).drop_last() =~= cs@.take(i as int));
        }
        if is_escaped {
            token.push(c);
            is_escaped = false;
        } else if c == '\\' {
            is_escaped = true;
        } else if c == '"' {
            is_inside_quote = !is_inside_quote;
        } else if is_inside_quote {
            token.push(c);
        } else if is_whitespace_char(c) {
            if token.len() > 0 {
                let t = string_from_chars(&token);
                tokens_vec.push(t);
                token = Vec::new();
            }
        } else if c == '|' || c == '>' || c == '<' || c == ';' {
            if token.len() > 0 {
                let t = string_from_chars(&token);
                tokens_vec.push(t);
                token = Vec::new();
            }
            let mut op: Vec<char> = Vec::new();
            op.push(c);
            let t = string_from_chars(&op);
            tokens_vec.push(t);
        } else {
            token.push(c);
        }
        proof {
            assert(views(tokens_vec@) =~= lex_state(cs@.take(i + 1)).tokens);
            assert(token@ =~= lex_state(cs@.take(i + 1)).token);
        }
        i = i + 1;
    }
    if token.len() > 0 {
        let t = string_from_chars(&token);
        tokens_vec.push(t);
    }
    proof {
        assert(cs@.take(cs.len() as int) =~= cs@);
        assert(views(tokens_vec@) =~= lex(command@));
    }
    tokens_vec
}

/// Every token in `lex_state(s)` so far is non-empty.
proof fn lemma_state_tokens_nonempty(s: Seq<char>)
    ensures
        forall|i: int| 0 <= i < lex_state(s).tokens.len() ==> #[trigger] lex_state(s).tokens[i].len() > 0,
    decreases s.len(),
{
    if s.len() > 0 {
        let prev = lex_state(s.drop_last());
        lemma_state_tokens_nonempty(s.drop_last());
        assert(forall|i: int| 0 <= i < flush(prev).len() ==> #[trigger] flush(prev)[i].len() > 0);
        assert(forall|i: int|
            0 <= i < flush(prev).push(seq![s.last()]).len() ==> #[trigger] flush(prev).push(
                seq![s.last()],
            )[i].len() > 0);
    }
}

/// No token produced by the lexer is empty: an empty pair of quotes or a run
/// of white space yields no token at all.
pub proof fn lemma_tokens_nonempty(s: Seq<char>)
    ensures
        forall|i: int| 0 <= i < lex(s).len() ==> #[trigger] lex(s)[i].len() > 0,
{
    lemma_state_tokens_nonempty(s);
}

/// White space typed after a line that is neither inside quotes nor after a
/// backslash does not change its tokens.
pub proof fn lemma_trailing_whitespace(s: Seq<char>, c: char)
    requires
        is_white_space(c),
        !lex_state(s).in_quote,
        !lex_state(s).escaped,
    ensures
        lex(s.push(c)) == lex(s),
{
    assert(s.push(c).drop_last() =~= s);
}

/// Inside quotes, characters other than `"` and `\` only extend the token.
proof fn lemma_quoted_run(p: Seq<char>, w: Seq<char>)
    requires
        lex_state(p).in_quote,
        !lex_state(p).escaped,
        forall|i: int| 0 <= i < w.len() ==> #[trigger] w[i] != '"' && w[i] != '\\',
    ensures
        lex_state(p + w) == (LexState { token: lex_state(p).token + w, ..lex_state(p) }),
    decreases w.len(),
{
    if w.len() == 0 {
        assert(p + w =~= p);
        assert(lex_state(p).token + w =~= lex_state(p).token);
    } else {
        assert forall|i: int| 0 <= i < w.drop_last().len() implies #[trigger] w.drop_last()[i] != '"'
            && w.drop_last()[i] != '\\' by {
            assert(w.drop_last()[i] == w[i]);
        }
        lemma_quoted_run(p, w.drop_last());
        assert(w[w.len() - 1] != '"' && w[w.len() - 1] != '\\');
        assert((p + w).drop_last() =~= p + w.drop_last());
        assert((p + w).last() == w.last());
        let prev = lex_state(p + w.drop_last());
        assert(lex_state(p + w) == lex_step(prev, w.last()));
        assert((lex_state(p).token + w.drop_last()).push(w.last()) =~= lex_state(p).token + w);
    }
}

/// Double quotes group their contents into one token, white space and
/// operators included.
pub proof fn lemma_quotes_group(w: Seq<char>)
    requires
        w.len() > 0,
        forall|i: int| 0 <= i < w.len() ==> #[trigger] w[i] != '"' && w[i] != '\\',
    ensures
        lex(seq!['"'] + w + seq!['"']) == seq![w],
{
    let open = seq!['"'];
    assert(open.drop_last() =~= Seq::<char>::empty());
    assert(lex_state(Seq::<char>::empty()) == lex_start());
    assert(lex_state(open) == lex_step(lex_state(open.drop_last()), open.last()));
    assert(lex_state(open).in_quote);
    lemma_quoted_run(open, w);
    let all = open + w + seq!['"'];
    assert(all.drop_last() =~= open + w);
    assert(all.last() == '"');
    assert(lex_state(all) == lex_step(lex_state(all.drop_last()), all.last()));
    assert(Seq::<char>::empty() + w =~= w);
    assert(lex_state(all).token == w);
    assert(lex_state(all).tokens == Seq::<Seq<char>>::empty());
    assert(lex(all) =~= seq![w]);
}

/// A backslash makes the next character an ordinary one: `\c` is the
/// one-character token `c`, even for `"`, `\`, white space or an operator.
pub proof fn lemma_backslash_escapes(c: char)
    ensures
        lex(seq!['\\', c]) == seq![seq![c]],
{
    let s = seq!['\\', c];
    let s1 = seq!['\\'];
    assert(s.drop_last() =~= s1);
    assert(s1.drop_last() =~= Seq::<char>::empty());
    assert(lex_state(Seq::<char>::empty()) == lex_start());
    assert(lex_state(s1) == lex_step(lex_state(s1.drop_last()), s1.last()));
    assert(lex_state(s1).escaped);
    assert(lex_state(s) == lex_step(lex_state(s.drop_last()), s.last()));
    assert(Seq::<char>::empty().push(c) =~= seq![c]);
    assert(lex_state(s).token == seq![c]);
    assert(lex(s) =~= seq![seq![c]]);
}

} // verus!
