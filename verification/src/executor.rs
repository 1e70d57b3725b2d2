//! The decisions of execution: which built-in a command names, the order
//! in which a tree's commands run, and how a redirection is set up.

use vstd::prelude::*;

use crate::parser::{is_command_list, parse_spec, unparse, Ast, AstNode, Direction};
use crate::text::str_eq;

verus! {

/// The built-in commands.
#[derive(Debug, Clone, Copy, PartialEq, Eq, Structural)]
pub enum Builtin {
    Cat,
    Cd,
    Cp,
    Echo,
    Exit,
    Ls,
    Mkdir,
    Mv,
    Pwd,
    Rm,
}

/// The built-in a command name stands for.
pub open spec fn builtin_named(name: Seq<char>) -> Option<Builtin> {
    if name == "cat"@ {
        Some(Builtin::Cat)
    } else if name == "cd"@ {
        Some(Builtin::Cd)
    } else if name == "cp"@ {
        Some(Builtin::Cp)
    } else if name == "echo"@ {
        Some(Builtin::Echo)
    } else if name == "exit"@ {
        Some(Builtin::Exit)
    } else if name == "ls"@ {
        Some(Builtin::Ls)
    } else if name == "mkdir"@ {
        Some(Builtin::Mkdir)
    } else if name == "mv"@ {
        Some(Builtin::Mv)
    } else if name == "pwd"@ {
        Some(Builtin::Pwd)
    } else if name == "rm"@ {
        Some(Builtin::Rm)
    } else {
        None
    }
}

/// The built-in a command name stands for (see `builtin_named`).
pub fn builtin_for(name: &str) -> (b: Option<Builtin>)
    ensures
        b == builtin_named(name@),
{
    if str_eq(name, "cat") {
        Some(Builtin::Cat)
    } else if str_eq(name, "cd") {
        Some(Builtin::Cd)
    } else if str_eq(name, "cp") {
        Some(Builtin::Cp)
    } else if str_eq(name, "echo") {
        Some(Builtin::Echo)
    } else if str_eq(name, "exit") {
        Some(Builtin::Exit)
    } else if str_eq(name, "ls") {
        Some(Builtin::Ls)
    } else if str_eq(name, "mkdir") {
        Some(Builtin::Mkdir)
    } else if str_eq(name, "mv") {
        Some(Builtin::Mv)
    } else if str_eq(name, "pwd") {
        Some(Builtin::Pwd)
    } else if str_eq(name, "rm") {
        Some(Builtin::Rm)
    } else {
        None
    }
}

/// The message for a name that is not a built-in.
pub fn not_found_message(name: &str) -> (m: String)
    ensures
        m@ == name@ + ": command not found"@,
{
    let mut m = String::from_str(name);
    m.append(": command not found");
    m
}

/// The parts of a tree run one after the other: a sequence's left parts,
/// then its right parts; any other node is one part.
pub open spec fn steps_of(a: Ast) -> Seq<Ast>
    decreases a,
{
    match a {
        Ast::Sequence { left, right } => steps_of(*left) + steps_of(*right),
        _ => seq![a],
    }
}

fn steps_into(node: AstNode, out: &mut Vec<AstNode>)
    ensures
        final(out)@.map_values(|n: AstNode| n@) == old(out)@.map_values(|n: AstNode| n@) + steps_of(
            node@,
        ),
    decreases node,
{
    match node {
        AstNode::Sequence { left, right } => {
            steps_into(*left, out);
            steps_into(*right, out);
            assert(out@.map_values(|n: AstNode| n@) =~= old(out)@.map_values(|n: AstNode| n@)
                + steps_of(node@));
        },
        other => {
            let ghost v = other@;
            out.push(other);
            assert(out@.map_values(|n: AstNode| n@) =~= old(out)@.map_values(|n: AstNode| n@)
                + seq![v]);
        },
    }
}

/// The parts of a tree in the order they run (see `steps_of`); the shell
/// runs them one by one and stops at the first that fails.
pub fn execution_steps(node: AstNode) -> (r: Vec<AstNode>)
    ensures
        r@.map_values(|n: AstNode| n@) == steps_of(node@),
{
    let mut out: Vec<AstNode> = Vec::new();
    steps_into(node, &mut out);
    assert(out@.map_values(|n: AstNode| n@) =~= steps_of(node@));
    out
}

/// A command's tokens joined by `;`.
pub open spec fn join_commands(steps: Seq<Ast>) -> Seq<Seq<char>>
    decreases steps.len(),
{
    if steps.len() == 0 {
        seq![]
    } else if steps.len() == 1 {
        unparse(steps[0])
    } else {
        join_commands(steps.drop_last()) + seq![seq![';']] + unparse(steps.last())
    }
}

proof fn lemma_join_commands_append(a: Seq<Ast>, b: Seq<Ast>)
    requires
        a.len() > 0,
        b.len() > 0,
    ensures
        join_commands(a + b) == join_commands(a) + seq![seq![';']] + join_commands(b),
    decreases b.len(),
{
    if b.len() == 1 {
        assert((a + b).drop_last() =~= a);
    } else {
        lemma_join_commands_append(a, b.drop_last());
        assert((a + b).drop_last() =~= a + b.drop_last());
    }
}

proof fn lemma_steps_of_command_list(a: Ast)
    requires
        is_command_list(a),
    ensures
        steps_of(a).len() > 0,
        join_commands(steps_of(a)) == unparse(a),
        forall|i: int| 0 <= i < steps_of(a).len() ==> (#[trigger] steps_of(a)[i] is SimpleCommand
            && is_command_list(steps_of(a)[i])),
    decreases a,
{
    match a {
        Ast::Sequence { left, right } => {
            lemma_steps_of_command_list(*left);
            lemma_steps_of_command_list(*right);
            lemma_join_commands_append(steps_of(*left), steps_of(*right));
            let l = steps_of(*left);
            let r = steps_of(*right);
            assert forall|i: int| 0 <= i < (l + r).len() implies (#[trigger] (l + r)[i] is SimpleCommand
                && is_command_list((l + r)[i])) by {
                if i < l.len() {
                    assert((l + r)[i] == l[i]);
                } else {
                    assert((l + r)[i] == r[i - l.len()]);
                }
            }
        },
        _ => {
            assert(seq![a].len() == 1);
        },
    }
}

/// The commands that a parsed line runs, in order, are simple commands,
/// none holding `;`, and joined by `;` they give back the line's tokens.
pub proof fn lemma_steps_of_parsed_line(t: Seq<Seq<char>>)
    requires
        parse_spec(t) is Some,
    ensures
        ({
            let steps = steps_of(parse_spec(t)->0);
            &&& join_commands(steps) == t
            &&& forall|i: int|
                0 <= i < steps.len() ==> (#[trigger] steps[i] is SimpleCommand && is_command_list(steps[i]))
        }),
{
    crate::parser::lemma_parse_unparse(t);
    lemma_steps_of_command_list(parse_spec(t)->0);
}

/// How a redirection rewires the command: the descriptor replaced by the
/// file (0, standard input, for `<`; 1, standard output, for `>`) and
/// whether the file is opened for writing (created or truncated).
pub fn redirect_setup(d: Direction) -> (r: (i32, bool))
    ensures
        r == match d {
            Direction::In => (0i32, false),
            Direction::Out => (1i32, true),
        },
{
    match d {
        Direction::In => (0, false),
        Direction::Out => (1, true),
    }
}

/// The outcome of running one part, with the error as text.
pub type Outcome = Result<(), Seq<char>>;

/// The mathematical form of a part's outcome.
pub open spec fn outcome_view(r: Result<(), String>) -> Outcome {
    match r {
        Ok(()) => Ok(()),
        Err(e) => Err(e@),
    }
}

/// What the shell does next while running a tree's parts.
#[derive(Debug)]
pub enum RunAction {
    /// Run this part, then report its outcome.
    Run(AstNode),
    /// Execution is over, with this result.
    Finish(Result<(), String>),
}

/// The mathematical form of a `RunAction`.
pub enum RunStep {
    Run(Ast),
    Finish(Outcome),
}

impl View for RunAction {
    type V = RunStep;

    open spec fn view(&self) -> RunStep {
        match self {
            RunAction::Run(n) => RunStep::Run(n@),
            RunAction::Finish(r) => RunStep::Finish(outcome_view(*r)),
        }
    }
}

/// The parts of a tree still to run, in order.
pub struct SequenceRun {
    pub pending: Vec<AstNode>,
}

impl View for SequenceRun {
    type V = Seq<Ast>;

    open spec fn view(&self) -> Seq<Ast> {
        self.pending@.map_values(|n: AstNode| n@)
    }
}

/// One decision: after a failed part, finish with its error; otherwise run
/// the next part, or finish successfully when none is left.
pub open spec fn run_next(pending: Seq<Ast>, last: Option<Outcome>) -> (Seq<Ast>, RunStep) {
    match last {
        Some(Err(e)) => (pending, RunStep::Finish(Err(e))),
        _ => if pending.len() == 0 {
            (pending, RunStep::Finish(Ok(())))
        } else {
            (pending.drop_first(), RunStep::Run(pending[0]))
        },
    }
}

impl SequenceRun {
    /// The run of a tree: its parts in the order of `steps_of`.
    pub fn start(node: AstNode) -> (r: SequenceRun)
        ensures
            r@ == steps_of(node@),
    {
        SequenceRun { pending: execution_steps(node) }
    }

    /// The next action, given the outcome of the part run last (`None` at
    /// the start); see `run_next`.
    pub fn next(&mut self, last: Option<Result<(), String>>) -> (a: RunAction)
        ensures
            (final(self)@, a@) == run_next(
                old(self)@,
                match last {
                    Some(r) => Some(outcome_view(r)),
                    None => None,
                },
            ),
    {
        match last {
            Some(Err(e)) => RunAction::Finish(Err(e)),
            _ => {
                if self.pending.len() == 0 {
                    RunAction::Finish(Ok(()))
                } else {
                    let ghost before = self@;
                    let first = self.pending.remove(0);
                    assert(self@ =~= before.drop_first());
                    RunAction::Run(first)
                }
            },
        }
    }
}

/// Driving the run: the parts that run and the result, when the parts
/// would have the outcomes `outcomes` (one per part, in order) and the
/// part before had the outcome `last`.
pub open spec fn drive(pending: Seq<Ast>, outcomes: Seq<Outcome>, last: Option<Outcome>) -> (
    Seq<Ast>,
    Outcome,
)
    decreases pending.len(),
{
    let (rest, step) = run_next(pending, last);
    match step {
        RunStep::Finish(r) => (seq![], r),
        RunStep::Run(part) => if outcomes.len() == 0 {
            (seq![part], Ok(()))
        } else {
            let (ran, r) = drive(rest, outcomes.drop_first(), Some(outcomes[0]));
            (seq![part] + ran, r)
        },
    }
}

proof fn lemma_drive_after_success(p: Seq<Ast>, o: Seq<Outcome>)
    ensures
        drive(p, o, Some(Ok(()))) == drive(p, o, None),
{
}

proof fn lemma_drive_concat(a: Seq<Ast>, b: Seq<Ast>, oa: Seq<Outcome>, ob: Seq<Outcome>)
    requires
        oa.len() == a.len(),
    ensures
        drive(a, oa, None).1 is Ok ==> drive(a, oa, None).0 == a,
        drive(a + b, oa + ob, None) == if drive(a, oa, None).1 is Err {
            drive(a, oa, None)
        } else {
            (a + drive(b, ob, None).0, drive(b, ob, None).1)
        },
    decreases a.len(),
{
    if a.len() == 0 {
        assert(a + b =~= b);
        assert(oa + ob =~= ob);
        assert(a + drive(b, ob, None).0 =~= drive(b, ob, None).0);
    } else {
        let rest = a.drop_first();
        let orest = oa.drop_first();
        assert((a + b).drop_first() =~= rest + b);
        assert((oa + ob).drop_first() =~= orest + ob);
        assert((a + b)[0] == a[0]);
        assert((oa + ob)[0] == oa[0]);
        lemma_drive_concat(rest, b, orest, ob);
        lemma_drive_after_success(rest + b, orest + ob);
        lemma_drive_after_success(rest, orest);
        assert(drive(a, oa, None) == (seq![a[0]] + drive(rest, orest, Some(oa[0])).0, drive(
            rest,
            orest,
            Some(oa[0]),
        ).1));
        assert(drive(a + b, oa + ob, None) == (seq![a[0]] + drive(rest + b, orest + ob, Some(oa[0])).0,
        drive(rest + b, orest + ob, Some(oa[0])).1));
        if oa[0] is Ok {
            let unit: () = oa[0]->Ok_0;
            assert(oa[0] == Ok::<(), Seq<char>>(unit));
            assert(seq![a[0]] + rest =~= a);
            assert(seq![a[0]] + (rest + drive(b, ob, None).0) =~= a + drive(b, ob, None).0);
        } else {
            assert(drive(rest, orest, Some(oa[0])) == (Seq::<Ast>::empty(), oa[0]));
            assert(drive(rest + b, orest + ob, Some(oa[0])) == (Seq::<Ast>::empty(), oa[0]));
        }
    }
}

/// Running `left ; right` runs `left`'s parts first; when one of them fails
/// the result is its error and no part of `right` runs; otherwise `right`'s
/// parts run after all of `left`'s, and the result is `right`'s.
pub proof fn lemma_sequence_stops_at_first_failure(
    left: Ast,
    right: Ast,
    left_outcomes: Seq<Outcome>,
    right_outcomes: Seq<Outcome>,
)
    requires
        left_outcomes.len() == steps_of(left).len(),
    ensures
        ({
            let whole = drive(
                steps_of(Ast::Sequence { left: Box::new(left), right: Box::new(right) }),
                left_outcomes + right_outcomes,
                None,
            );
            let l = drive(steps_of(left), left_outcomes, None);
            let r = drive(steps_of(right), right_outcomes, None);
            if l.1 is Err {
                whole == l
            } else {
                whole == (steps_of(left) + r.0, r.1)
            }
        }),
{
    lemma_drive_concat(steps_of(left), steps_of(right), left_outcomes, right_outcomes);
}

} // verus!
