//! Builds a syntax tree from the lexer's tokens: a single command, or
//! commands joined by `;`.

use vstd::prelude::*;

use crate::text::views;

verus! {

/// The direction of a redirection.
#[derive(Debug, Clone, Copy, PartialEq, Eq, Structural)]
pub enum Direction {
    /// `<`
    In,
    /// `>`
    Out,
}

/// A command line's syntax tree.
#[derive(Debug, PartialEq, Eq)]
pub enum AstNode {
    /// A command name with its arguments.
    SimpleCommand { name: String, args: Vec<String> },
    /// `left ; right`
    Sequence { left: Box<AstNode>, right: Box<AstNode> },
    /// `left | right`
    Pipe { left: Box<AstNode>, right: Box<AstNode> },
    /// `command > file` or `command < file`
    Redirect { command: Box<AstNode>, file: String, direction: Direction },
}

/// The mathematical form of an `AstNode`: strings as character sequences.
pub enum Ast {
    SimpleCommand { name: Seq<char>, args: Seq<Seq<char>> },
    Sequence { left: Box<Ast>, right: Box<Ast> },
    Pipe { left: Box<Ast>, right: Box<Ast> },
    Redirect { command: Box<Ast>, file: Seq<char>, direction: Direction },
}

/// The view of a syntax tree.
pub open spec fn ast_view(n: AstNode) -> Ast
    decreases n,
{
    match n {
        AstNode::SimpleCommand { name, args } => Ast::SimpleCommand {
            name: name@,
            args: views(args@),
        },
        AstNode::Sequence { left, right } => Ast::Sequence {
            left: Box::new(ast_view(*left)),
            right: Box::new(ast_view(*right)),
        },
        AstNode::Pipe { left, right } => Ast::Pipe {
            left: Box::new(ast_view(*left)),
            right: Box::new(ast_view(*right)),
        },
        AstNode::Redirect { command, file, direction } => Ast::Redirect {
            command: Box::new(ast_view(*command)),
            file: file@,
            direction,
        },
    }
}

impl View for AstNode {
    type V = Ast;

    open spec fn view(&self) -> Ast {
        ast_view(*self)
    }
}

/// The message with which an ill-formed command line is refused.
pub open spec fn syntax_error_text() -> Seq<char> {
    "bash: syntax error near unexpected token"@
}

/// Whether a token is the command separator `;`.
pub open spec fn is_separator(t: Seq<char>) -> bool {
    t == seq![';']
}

/// The index of the first separator in `t`, or `t.len()` when there is none.
pub open spec fn sep_pos(t: Seq<Seq<char>>) -> int
    decreases t.len(),
{
    if t.len() == 0 {
        0
    } else if is_separator(t[0]) {
        0
    } else {
        1 + sep_pos(t.drop_first())
    }
}

/// `sep_pos` is the first separator's index, or the length.
pub proof fn lemma_sep_pos(t: Seq<Seq<char>>)
    ensures
        0 <= sep_pos(t) <= t.len(),
        forall|j: int| 0 <= j < sep_pos(t) ==> !is_separator(#[trigger] t[j]),
        sep_pos(t) < t.len() ==> is_separator(t[sep_pos(t)]),
    decreases t.len(),
{
    if t.len() > 0 && !is_separator(t[0]) {
        lemma_sep_pos(t.drop_first());
        assert forall|j: int| 0 <= j < sep_pos(t) implies !is_separator(#[trigger] t[j]) by {
            if j > 0 {
                assert(t[j] == t.drop_first()[j - 1]);
            }
        }
    }
}

/// The tree of the token list `t`, or `None` when it is refused: an empty
/// list is refused; otherwise the list is split at its first `;`, both
/// sides must parse, and a list without `;` is a command whose name is its
/// first token.
pub open spec fn parse_spec(t: Seq<Seq<char>>) -> Option<Ast>
    decreases t.len(),
{
    if t.len() == 0 {
        None
    } else {
        let p = sep_pos(t);
        proof {
            lemma_sep_pos(t);
        }
        if p < t.len() {
            match (parse_spec(t.take(p)), parse_spec(t.skip(p + 1))) {
                (Some(l), Some(r)) => Some(Ast::Sequence { left: Box::new(l), right: Box::new(r) }),
                _ => None,
            }
        } else {
            Some(Ast::SimpleCommand { name: t[0], args: t.skip(1) })
        }
    }
}

/// Whether a string is the token `;`.
fn is_semicolon(t: &String) -> (b: bool)
    ensures
        b == is_separator(t@),
{
    let s = t.as_str();
    if s.unicode_len() != 1 {
        return false;
    }
    let c = s.get_char(0);
    proof {
        if c == ';' {
            assert(t@ =~= seq![';']);
        }
    }
    c == ';'
}

/// Parses a token list (see `parse_spec`); a refused list gives the error
/// message `syntax_error_text()`.
pub fn parse(tokens: Vec<String>) -> (r: Result<AstNode, String>)
    ensures
        match r {
            Ok(a) => parse_spec(views(tokens@)) == Some(a@),
            Err(e) => parse_spec(views(tokens@)) is None && e@ == syntax_error_text(),
        },
    decreases tokens.len(),
{
    let ghost t = views(tokens@);
    if tokens.len() == 0 {
        return Err(String::from_str("bash: syntax error near unexpected token"));
    }
    proof {
        lemma_sep_pos(t);
    }
    let mut pos: usize = 0;
    while pos < tokens.len() && !is_semicolon(&tokens[pos])
        invariant
            pos <= tokens.len(),
            t == views(tokens@),
            forall|j: int| 0 <= j < pos ==> !is_separator(#[trigger] t[j]),
        decreases tokens.len() - pos,
    {
        pos = pos + 1;
    }
    assert(pos == sep_pos(t)) by {
        if pos < sep_pos(t) {
            assert(!is_separator(t[pos as int]));
        }
        if pos > sep_pos(t) {
            assert(!is_separator(t[sep_pos(t)]));
        }
    }
    let mut tokens = tokens;
    if pos < tokens.len() {
        let right_tokens = tokens.split_off(pos + 1);
        tokens.truncate(pos);
        assert(views(tokens@) =~= t.take(pos as int));
        assert(views(right_tokens@) =~= t.skip(pos + 1));
        let left = match parse(tokens) {
            Ok(l) => l,
            Err(e) => return Err(e),
        };
        let right = match parse(right_tokens) {
            Ok(r) => r,
            Err(e) => return Err(e),
        };
        Ok(AstNode::Sequence { left: Box::new(left), right: Box::new(right) })
    } else {
        let args = tokens.split_off(1);
        assert(views(args@) =~= t.skip(1));
        let name = tokens.pop().unwrap();
        Ok(AstNode::SimpleCommand { name, args })
    }
}

/// A token list in which `;` separates non-empty commands: it is not empty,
/// does not begin or end with `;`, and holds no two `;` in a row.
pub open spec fn well_separated(t: Seq<Seq<char>>) -> bool {
    &&& t.len() > 0
    &&& !is_separator(t[0])
    &&& !is_separator(t.last())
    &&& forall|i: int| 0 <= i < t.len() - 1 ==> !(is_separator(#[trigger] t[i]) && is_separator(t[i + 1]))
}

/// The token of a redirection's direction.
pub open spec fn direction_token(d: Direction) -> Seq<char> {
    match d {
        Direction::In => seq!['<'],
        Direction::Out => seq!['>'],
    }
}

/// The token list that a tree stands for: the commands' tokens joined by
/// their operators.
pub open spec fn unparse(a: Ast) -> Seq<Seq<char>>
    decreases a,
{
    match a {
        Ast::SimpleCommand { name, args } => seq![name] + args,
        Ast::Sequence { left, right } => unparse(*left) + seq![seq![';']] + unparse(*right),
        Ast::Pipe { left, right } => unparse(*left) + seq![seq!['|']] + unparse(*right),
        Ast::Redirect { command, file, direction } => unparse(*command) + seq![
            direction_token(direction),
            file,
        ],
    }
}

/// A tree made only of commands joined by `;`, whose commands hold no `;`.
pub open spec fn is_command_list(a: Ast) -> bool
    decreases a,
{
    match a {
        Ast::SimpleCommand { name, args } => !(seq![name] + args).contains(seq![';']),
        Ast::Sequence { left, right } => is_command_list(*left) && is_command_list(*right),
        _ => false,
    }
}

/// A command line parses exactly when `;` separates non-empty commands in it.
pub proof fn lemma_parse_ok_iff_well_separated(t: Seq<Seq<char>>)
    ensures
        parse_spec(t) is Some <==> well_separated(t),
    decreases t.len(),
{
    if t.len() > 0 {
        lemma_sep_pos(t);
        let p = sep_pos(t);
        if p < t.len() {
            let l = t.take(p);
            let r = t.skip(p + 1);
            lemma_parse_ok_iff_well_separated(l);
            lemma_parse_ok_iff_well_separated(r);
            if well_separated(t) {
                assert(p > 0);
                assert(l.last() == t[p - 1]);
                assert(r.len() > 0) by {
                    if r.len() == 0 {
                        assert(t.last() == t[p]);
                    }
                }
                assert(r[0] == t[p + 1]);
                assert(r.last() == t.last());
                assert forall|i: int| 0 <= i < l.len() - 1 implies !(is_separator(#[trigger] l[i])
                    && is_separator(l[i + 1])) by {
                    assert(l[i] == t[i]);
                }
                assert forall|i: int| 0 <= i < r.len() - 1 implies !(is_separator(#[trigger] r[i])
                    && is_separator(r[i + 1])) by {
                    assert(r[i] == t[i + p + 1]);
                    assert(r[i + 1] == t[i + p + 2]);
                }
            }
            if well_separated(l) && well_separated(r) {
                assert(t[0] == l[0]);
                assert(t.last() == r.last());
                assert forall|i: int| 0 <= i < t.len() - 1 implies !(is_separator(#[trigger] t[i])
                    && is_separator(t[i + 1])) by {
                    if i < p - 1 {
                        assert(l[i] == t[i]);
                    } else if i == p - 1 {
                        assert(l.last() == t[i]);
                    } else if i == p {
                        assert(r[0] == t[i + 1]);
                    } else {
                        assert(r[i - p - 1] == t[i]);
                        assert(r[i - p] == t[i + 1]);
                    }
                }
            }
        } else {
            assert(!is_separator(t.last()));
        }
    }
}

/// Parsing undoes joining: the tree of a command line lists the same tokens
/// in the same order, and consists of `;`-free commands joined by `;`.
pub proof fn lemma_parse_unparse(t: Seq<Seq<char>>)
    requires
        parse_spec(t) is Some,
    ensures
        unparse(parse_spec(t)->0) == t,
        is_command_list(parse_spec(t)->0),
    decreases t.len(),
{
    lemma_sep_pos(t);
    let p = sep_pos(t);
    if p < t.len() {
        lemma_parse_unparse(t.take(p));
        lemma_parse_unparse(t.skip(p + 1));
        assert(t[p] =~= seq![';']);
        assert(t.take(p) + seq![seq![';']] + t.skip(p + 1) =~= t);
    } else {
        assert(seq![t[0]] + t.skip(1) =~= t);
        assert(!t.contains(seq![';'])) by {
            if t.contains(seq![';']) {
                let j = choose|j: int| 0 <= j < t.len() && t[j] == seq![';'];
                assert(!is_separator(t[j]));
            }
        }
    }
}

} // verus!
