//! The pure parts of `cp` and `mv`: operand checks, `~` expansion, and
//! where each source goes.

use vstd::prelude::*;

use crate::text::{skip_chars, starts_with_char, views};

verus! {

/// What `Path::file_name` returns for the path `p`: its last component,
/// or `None` when the path ends in `..` or has no component.
pub uninterp spec fn path_file_name(p: Seq<char>) -> Option<Seq<char>>;

/// What `Path::join` returns on Unix: an absolute `name` (one beginning
/// with `/`) replaces `base`; otherwise `name` is appended to `base`, after
/// a `/` when `base` is not empty and does not already end in one.
pub open spec fn path_join(base: Seq<char>, name: Seq<char>) -> Seq<char> {
    if name.len() > 0 && name[0] == '/' {
        name
    } else if base.len() > 0 && base.last() != '/' {
        base + seq!['/'] + name
    } else {
        base + name
    }
}

/// `Path::file_name` on a path given as text; the result is named
/// `path_file_name`, a function of the path alone.
#[verifier::external_body]
fn file_name_of(p: &str) -> (r: Option<String>)
    ensures
        match r {
            Some(n) => path_file_name(p@) == Some(n@),
            None => path_file_name(p@) is None,
        },
{
    match std::path::Path::new(p).file_name() {
        Some(n) => Some(n.to_string_lossy().into_owned()),
        None => None,
    }
}

/// `Path::join` on paths given as text: on Unix the joined path is
/// `path_join(base, name)` (std documents that an absolute path replaces
/// the base and that a separator is added where needed).
#[verifier::external_body]
fn join_path(base: &str, name: &str) -> (r: String)
    ensures
        r@ == path_join(base@, name@),
{
    std::path::Path::new(base).join(name).to_string_lossy().into_owned()
}

/// The sources and the target of a `cp` or `mv`.
#[derive(Debug)]
pub struct TransferPlan {
    pub target: String,
    pub sources: Vec<String>,
}

/// `cp`'s target: the last operand, with a leading `~` replaced by the home
/// directory and a `/`.
pub open spec fn cp_target(t: Seq<char>, home: Option<Seq<char>>) -> Result<Seq<char>, Seq<char>> {
    if t.len() > 0 && t[0] == '~' {
        match home {
            Some(h) => Ok(h + "/"@ + t.drop_first()),
            None => Err("cd: HOME not set"@),
        }
    } else {
        Ok(t)
    }
}

/// Reads `cp`'s operands: at least two are needed; the last is the target,
/// the others the sources.
pub fn cp_plan(args: &Vec<String>, home: Option<String>) -> (r: Result<TransferPlan, String>)
    ensures
        args.len() < 2 ==> (r matches Err(e) && e@ == "cp: missing file operand"@),
        args.len() >= 2 ==> {
            let h = match home {
                Some(x) => Some(x@),
                None => None,
            };
            match (r, cp_target(args@.last()@, h)) {
                (Ok(p), Ok(t)) => p.target@ == t && views(p.sources@) == views(args@).drop_last(),
                (Err(e), Err(m)) => e@ == m,
                _ => false,
            }
        },
{
    if args.len() < 2 {
        return Err(String::from_str("cp: missing file operand"));
    }
    let last = &args[args.len() - 1];
    let target = if starts_with_char(last.as_str(), '~') {
        match &home {
            Some(h) => {
                let mut t = h.clone();
                t.append("/");
                let rest = skip_chars(last.as_str(), 1);
                t.append(rest.as_str());
                t
            },
            None => return Err(String::from_str("cd: HOME not set")),
        }
    } else {
        last.clone()
    };
    let mut sources: Vec<String> = Vec::new();
    let mut i: usize = 0;
    while i < args.len() - 1
        invariant
            args.len() >= 2,
            i <= args.len() - 1,
            views(sources@) == views(args@).take(i as int),
        decreases args.len() - 1 - i,
    {
        let ghost before = sources@;
        let item = args[i].clone();
        sources.push(item);
        assert(views(sources@) =~= views(before).push(item@));
        assert(views(sources@) =~= views(args@).take(i + 1));
        i = i + 1;
    }
    assert(views(args@).take(args.len() - 1) =~= views(args@).drop_last());
    Ok(TransferPlan { target, sources })
}

/// A leading `~` replaced by the home directory when it is known.
pub open spec fn mv_source(s: Seq<char>, home: Option<Seq<char>>) -> Seq<char> {
    if s.len() > 0 && s[0] == '~' && home is Some {
        home->0 + s.drop_first()
    } else {
        s
    }
}

fn expand_source(s: &String, home: &Option<String>) -> (r: String)
    ensures
        r@ == mv_source(
            s@,
            match home {
                Some(x) => Some(x@),
                None => None,
            },
        ),
{
    if starts_with_char(s.as_str(), '~') {
        match home {
            Some(h) => {
                let mut t = h.clone();
                let rest = skip_chars(s.as_str(), 1);
                t.append(rest.as_str());
                return t;
            },
            None => {},
        }
    }
    s.clone()
}

/// Reads `mv`'s operands: at least two are needed; the last is the target,
/// whose leading `~` must be expandable; the others are the sources, a
/// leading `~` expanded where the home directory is known.
pub fn mv_plan(args: &Vec<String>, home: Option<String>) -> (r: Result<TransferPlan, String>)
    ensures
        ({
            let h = match home {
                Some(x) => Some(x@),
                None => None,
            };
            &&& args.len() == 0 ==> (r matches Err(e) && e@ == "mv: missing file operand"@)
            &&& args.len() == 1 ==> (r matches Err(e) && e@ == "mv: missing destination file operand after '"@
                + args@[0]@ + "'"@)
            &&& args.len() >= 2 ==> {
                let t = args@.last()@;
                if t.len() > 0 && t[0] == '~' && h is None {
                    (r matches Err(e) && e@ == "mv: HOME not set"@)
                } else {
                    (r matches Ok(p) && p.target@ == mv_source(t, h) && p.sources.len() == args.len()
                        - 1 && forall|i: int|
                        0 <= i < args.len() - 1 ==> #[trigger] p.sources@[i]@ == mv_source(
                            args@[i]@,
                            h,
                        ))
                }
            }
        }),
{
    if args.len() == 0 {
        return Err(String::from_str("mv: missing file operand"));
    } else if args.len() == 1 {
        let mut m = String::from_str("mv: missing destination file operand after '");
        m.append(args[0].as_str());
        m.append("'");
        return Err(m);
    }
    let last = &args[args.len() - 1];
    if starts_with_char(last.as_str(), '~') && home.is_none() {
        return Err(String::from_str("mv: HOME not set"));
    }
    let target = expand_source(last, &home);
    let mut sources: Vec<String> = Vec::new();
    let mut i: usize = 0;
    while i < args.len() - 1
        invariant
            args.len() >= 2,
            i <= args.len() - 1,
            sources.len() == i,
            forall|j: int|
                0 <= j < i ==> #[trigger] sources@[j]@ == mv_source(
                    args@[j]@,
                    match home {
                        Some(x) => Some(x@),
                        None => None,
                    },
                ),
        decreases args.len() - 1 - i,
    {
        let s = expand_source(&args[i], &home);
        sources.push(s);
        i = i + 1;
    }
    Ok(TransferPlan { target, sources })
}

/// Several sources need a directory as target.
pub fn check_target(
    command: &str,
    source_count: usize,
    target: &str,
    target_is_dir: bool,
) -> (r: Result<(), String>)
    ensures
        r is Ok <==> !(source_count > 1 && !target_is_dir),
        r matches Err(e) ==> e@ == command@ + ": target '"@ + target@ + "' is not a directory"@,
{
    if source_count > 1 && !target_is_dir {
        let mut m = String::from_str(command);
        m.append(": target '");
        m.append(target);
        m.append("' is not a directory");
        return Err(m);
    }
    Ok(())
}

/// Where a source goes: into a target directory under its own file name
/// (nowhere when it has none), else to the target itself.
pub fn destination_for(target: &str, target_is_dir: bool, source: &str) -> (r: Option<String>)
    ensures
        target_is_dir ==> match path_file_name(source@) {
            Some(n) => (r matches Some(d) && d@ == path_join(target@, n)),
            None => r is None,
        },
        !target_is_dir ==> (r matches Some(d) && d@ == target@),
{
    if target_is_dir {
        match file_name_of(source) {
            Some(n) => Some(join_path(target, n.as_str())),
            None => None,
        }
    } else {
        Some(String::from_str(target))
    }
}

/// The warning for a source without a file name.
pub fn omitting_directory_message(command: &str, source: &str) -> (m: String)
    ensures
        m@ == command@ + ": omitting directory '"@ + source@ + "'"@,
{
    let mut m = String::from_str(command);
    m.append(": omitting directory '");
    m.append(source);
    m.append("'");
    m
}

/// `cp`'s message when copying into `target` fails for `reason`.
pub fn copy_failure_message(target: &str, reason: &str) -> (m: String)
    ensures
        m@ == "cp: cannot create regular file '"@ + target@ + "': "@ + reason@,
{
    let mut m = String::from_str("cp: cannot create regular file '");
    m.append(target);
    m.append("': ");
    m.append(reason);
    m
}

/// `mv`'s message when moving `source` fails, whatever the reason.
pub fn move_failure_message(source: &str) -> (m: String)
    ensures
        m@ == "mv: cannot stat '"@ + source@ + "': No such file or directory"@,
{
    let mut m = String::from_str("mv: cannot stat '");
    m.append(source);
    m.append("': No such file or directory");
    m
}

} // verus!
