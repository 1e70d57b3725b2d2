//! The pure part of `rm`: reading its arguments.

use vstd::prelude::*;

use crate::text::{str_eq, views};

verus! {

/// What `rm` was asked to remove.
#[derive(Debug)]
pub struct RmPlan {
    /// `-r` was given: remove directories with their contents.
    pub recursive: bool,
    /// The paths to remove, in order.
    pub paths: Vec<String>,
}

/// The arguments other than `-r`, in order.
pub open spec fn rm_paths(args: Seq<Seq<char>>) -> Seq<Seq<char>>
    decreases args.len(),
{
    if args.len() == 0 {
        seq![]
    } else if args.last() == "-r"@ {
        rm_paths(args.drop_last())
    } else {
        rm_paths(args.drop_last()).push(args.last())
    }
}

/// Reads `rm`'s arguments: without any it is refused; `-r` anywhere asks
/// for recursive removal, every other argument is a path.
pub fn rm_plan(args: &Vec<String>) -> (r: Result<RmPlan, String>)
    ensures
        args.len() == 0 <==> r is Err,
        r matches Err(e) ==> e@ == "rm: missing operand"@,
        r matches Ok(p) ==> p.recursive == views(args@).contains("-r"@) && views(p.paths@) == rm_paths(
            views(args@),
        ),
        r matches Ok(p) ==> views(p.paths@) == views(args@).filter(not_the_flag()) && forall|i: int|
            0 <= i < p.paths.len() ==> #[trigger] p.paths@[i]@ != "-r"@,
{
    if args.len() == 0 {
        return Err(String::from_str("rm: missing operand"));
    }
    let ghost a = views(args@);
    let mut recursive = false;
    let mut paths: Vec<String> = Vec::new();
    let mut i: usize = 0;
    while i < args.len()
        invariant
            i <= args.len(),
            a == views(args@),
            recursive == a.take(i as int).contains("-r"@),
            views(paths@) == rm_paths(a.take(i as int)),
        decreases args.len() - i,
    {
        assert(a.take(i + 1).drop_last() =~= a.take(i as int));
        let is_flag = str_eq(args[i].as_str(), "-r");
        proof {
            let p = a.take(i as int);
            let q = a.take(i + 1);
            assert(q =~= p.push(a[i as int]));
            assert(q.contains("-r"@) == (p.contains("-r"@) || a[i as int] == "-r"@)) by {
                if q.contains("-r"@) {
                    let k = choose|k: int| 0 <= k < q.len() && q[k] == "-r"@;
                    if k < p.len() {
                        assert(p[k] == q[k]);
                    }
                }
                if p.contains("-r"@) {
                    let k = choose|k: int| 0 <= k < p.len() && p[k] == "-r"@;
                    assert(q[k] == p[k]);
                }
                if a[i as int] == "-r"@ {
                    assert(q[i as int] == a[i as int]);
                }
            }
        }
        if is_flag {
            recursive = true;
        } else {
            let ghost before = paths@;
            let item = args[i].clone();
            paths.push(item);
            assert(views(paths@) =~= views(before).push(item@));
        }
        i = i + 1;
    }
    assert(a.take(args.len() as int) =~= a);
    proof {
        lemma_rm_paths_drop_flag(a);
        assert forall|k: int| 0 <= k < paths.len() implies #[trigger] paths@[k]@ != "-r"@ by {
            assert(views(paths@)[k] == paths@[k]@);
        }
    }
    Ok(RmPlan { recursive, paths })
}

/// An argument other than `-r`.
pub open spec fn not_the_flag() -> spec_fn(Seq<char>) -> bool {
    |x: Seq<char>| x != "-r"@
}

/// `rm` removes every argument except `-r`, wherever `-r` stands (the
/// first argument included), in order, and no path it removes is `-r`.
pub proof fn lemma_rm_paths_drop_flag(args: Seq<Seq<char>>)
    ensures
        rm_paths(args) == args.filter(not_the_flag()),
        forall|i: int| 0 <= i < rm_paths(args).len() ==> #[trigger] rm_paths(args)[i] != "-r"@,
    decreases args.len(),
{
    if args.len() > 0 {
        lemma_rm_paths_drop_flag(args.drop_last());
        reveal(Seq::filter);
        let prev = rm_paths(args.drop_last());
        assert forall|i: int| 0 <= i < rm_paths(args).len() implies #[trigger] rm_paths(args)[i] != "-r"@ by {
            if i < prev.len() {
                assert(rm_paths(args)[i] == prev[i]);
            }
        }
    }
}

/// The message when removing `path` fails for `reason`.
pub fn rm_failure_message(path: &str, reason: &str) -> (m: String)
    ensures
        m@ == "rm: cannot remove "@ + path@ + ": "@ + reason@,
{
    let mut m = String::from_str("rm: cannot remove ");
    m.append(path);
    m.append(": ");
    m.append(reason);
    m
}

} // verus!
