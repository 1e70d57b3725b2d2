//! The pure part of `cd`: which directory to change to.

use vstd::prelude::*;

use crate::text::{skip_chars, starts_with_char, str_eq, views};

verus! {

/// Where `cd` goes, and whether it prints the directory (for `cd -`).
#[derive(Debug)]
pub struct CdPlan {
    pub target: String,
    pub print_target: bool,
}

/// A leading `~` replaced by the home directory; an error when it is needed
/// and unknown.
pub open spec fn expand_home(t: Seq<char>, home: Option<Seq<char>>) -> Result<Seq<char>, Seq<char>> {
    if t.len() > 0 && t[0] == '~' {
        match home {
            Some(h) => Ok(h + t.drop_first()),
            None => Err("cd: HOME not set"@),
        }
    } else {
        Ok(t)
    }
}

/// `cd`'s target: with no argument the home directory, with `-` the
/// previous directory, else the argument; then a leading `~` expanded.
/// More than one argument is refused, as is a missing `HOME` or `OLDPWD`.
pub open spec fn cd_target_spec(
    args: Seq<Seq<char>>,
    home: Option<Seq<char>>,
    oldpwd: Option<Seq<char>>,
) -> Result<Seq<char>, Seq<char>> {
    if args.len() > 1 {
        Err("cd: too many arguments"@)
    } else {
        let base = if args.len() == 0 {
            match home {
                Some(h) => Ok(h),
                None => Err("cd: HOME not set"@),
            }
        } else if args[0] == seq!['-'] {
            match oldpwd {
                Some(o) => Ok(o),
                None => Err("cd: OLDPWD not set"@),
            }
        } else {
            Ok(args[0])
        };
        match base {
            Ok(b) => expand_home(b, home),
            Err(e) => Err(e),
        }
    }
}

/// Decides where `cd` goes (see `cd_target_spec`), given the values of
/// `HOME` and `OLDPWD`; the directory is printed after `cd -`.
pub fn cd_target(args: &Vec<String>, home: Option<String>, oldpwd: Option<String>) -> (r: Result<
    CdPlan,
    String,
>)
    ensures
        ({
            let home_v = match home {
                Some(h) => Some(h@),
                None => None,
            };
            let old_v = match oldpwd {
                Some(o) => Some(o@),
                None => None,
            };
            match (r, cd_target_spec(views(args@), home_v, old_v)) {
                (Ok(p), Ok(t)) => p.target@ == t && p.print_target == (args.len() == 1
                    && args@[0]@ == seq!['-']),
                (Err(e), Err(m)) => e@ == m,
                _ => false,
            }
        }),
        args.len() == 1 && args@[0]@ != seq!['-'] && !(args@[0]@.len() > 0 && args@[0]@[0] == '~')
            ==> (r matches Ok(p) && p.target@ == args@[0]@ && !p.print_target),
        args.len() == 1 && args@[0]@.len() > 0 && args@[0]@[0] == '~' && home is Some ==> (r matches Ok(p)
            && p.target@ == home->0@ + args@[0]@.drop_first()),
        args.len() > 1 ==> (r matches Err(e) && e@ == "cd: too many arguments"@),
        args.len() == 0 && home is Some && !(home->0@.len() > 0 && home->0@[0] == '~') ==> (r matches Ok(p)
            && p.target@ == home->0@ && !p.print_target),
        args.len() == 1 && args@[0]@ == seq!['-'] && oldpwd is Some && !(oldpwd->0@.len() > 0
            && oldpwd->0@[0] == '~') ==> (r matches Ok(p) && p.target@ == oldpwd->0@ && p.print_target),
{
    proof {
        lemma_cd_home_and_dash(
            views(args@),
            match &home {
                Some(h) => Some(h@),
                None => None,
            },
            match &oldpwd {
                Some(o) => Some(o@),
                None => None,
            },
        );
        if args.len() == 1 {
            assert(views(args@) =~= seq![args@[0]@]);
        }
        if args.len() == 0 {
            assert(views(args@) =~= Seq::<Seq<char>>::empty());
        }
        if args.len() == 1 && args@[0]@ != seq!['-'] {
            assert(views(args@) =~= seq![args@[0]@]);
            lemma_cd_argument_target(
                args@[0]@,
                match &home {
                    Some(h) => Some(h@),
                    None => None,
                },
                match &oldpwd {
                    Some(o) => Some(o@),
                    None => None,
                },
            );
        }
    }
    if args.len() > 1 {
        return Err(String::from_str("cd: too many arguments"));
    }
    let ghost a = views(args@);
    let dash = args.len() == 1 && str_eq(args[0].as_str(), "-");
    proof {
        reveal_strlit("-");
        assert("-"@ =~= seq!['-']);
        if args.len() >= 1 {
            assert(a[0] == args@[0]@);
        }
    }
    let base = if args.len() == 0 {
        match &home {
            Some(h) => h.clone(),
            None => return Err(String::from_str("cd: HOME not set")),
        }
    } else if dash {
        match oldpwd {
            Some(o) => o,
            None => return Err(String::from_str("cd: OLDPWD not set")),
        }
    } else {
        args[0].clone()
    };
    let target = if starts_with_char(base.as_str(), '~') {
        match &home {
            Some(h) => {
                let mut t = h.clone();
                let rest = skip_chars(base.as_str(), 1);
                t.append(rest.as_str());
                t
            },
            None => return Err(String::from_str("cd: HOME not set")),
        }
    } else {
        base
    };
    Ok(CdPlan { target, print_target: dash })
}

/// Without arguments `cd` goes to the home directory, `cd -` to the
/// previous one (each as it is when it does not begin with `~`), and more
/// than one argument is refused.
pub proof fn lemma_cd_home_and_dash(
    args: Seq<Seq<char>>,
    home: Option<Seq<char>>,
    oldpwd: Option<Seq<char>>,
)
    ensures
        args.len() > 1 ==> cd_target_spec(args, home, oldpwd) == Err::<Seq<char>, Seq<char>>(
            "cd: too many arguments"@,
        ),
        args.len() == 0 && home is None ==> cd_target_spec(args, home, oldpwd) is Err,
        args.len() == 0 && home is Some && !(home->0.len() > 0 && home->0[0] == '~') ==> cd_target_spec(
            args,
            home,
            oldpwd,
        ) == Ok::<Seq<char>, Seq<char>>(home->0),
        args == seq![seq!['-']] && oldpwd is None ==> cd_target_spec(args, home, oldpwd) is Err,
        args == seq![seq!['-']] && oldpwd is Some && !(oldpwd->0.len() > 0 && oldpwd->0[0] == '~')
            ==> cd_target_spec(args, home, oldpwd) == Ok::<Seq<char>, Seq<char>>(oldpwd->0),
{
}

/// With one argument other than `-`, `cd` goes to that argument as it is
/// (relative to the working directory) unless it begins with `~`, which
/// stands for the home directory; `HOME` matters only then.
pub proof fn lemma_cd_argument_target(p: Seq<char>, home: Option<Seq<char>>, oldpwd: Option<Seq<char>>)
    requires
        p != seq!['-'],
    ensures
        !(p.len() > 0 && p[0] == '~') ==> cd_target_spec(seq![p], home, oldpwd) == Ok::<
            Seq<char>,
            Seq<char>,
        >(p),
        p.len() > 0 && p[0] == '~' && home is Some ==> cd_target_spec(seq![p], home, oldpwd) == Ok::<
            Seq<char>,
            Seq<char>,
        >(home->0 + p.drop_first()),
        p.len() > 0 && p[0] == '~' && home is None ==> cd_target_spec(seq![p], home, oldpwd) is Err,
{
    assert(seq![p][0] == p);
}

/// The message when changing to `target` fails for `reason`.
pub fn cd_failure_message(target: &str, reason: &str) -> (m: String)
    ensures
        m@ == "cd: "@ + target@ + ": "@ + reason@,
{
    let mut m = String::from_str("cd: ");
    m.append(target);
    m.append(": ");
    m.append(reason);
    m
}

/// The directory `cd` records as the previous one: the value of `PWD`, else
/// the working directory, else nothing (an empty text).
pub open spec fn previous_dir_spec(pwd_var: Option<Seq<char>>, cwd: Option<Seq<char>>) -> Seq<char> {
    match pwd_var {
        Some(p) => p,
        None => match cwd {
            Some(c) => c,
            None => seq![],
        },
    }
}

/// The directory to record as the previous one (see `previous_dir_spec`).
pub fn previous_dir(pwd_var: Option<String>, cwd: Option<String>) -> (r: String)
    ensures
        r@ == previous_dir_spec(
            match pwd_var {
                Some(p) => Some(p@),
                None => None,
            },
            match cwd {
                Some(c) => Some(c@),
                None => None,
            },
        ),
{
    match pwd_var {
        Some(p) => p,
        None => match cwd {
            Some(c) => c,
            None => String::new(),
        },
    }
}

/// After a successful change of directory: the new value of `OLDPWD` (the
/// previous directory, unless it is unknown) and of `PWD` (the working
/// directory, when it can be read); `None` leaves the variable as it is.
pub fn record_change(old_dir: String, new_cwd: Option<String>) -> (r: (Option<String>, Option<String>))
    ensures
        old_dir@.len() > 0 ==> (r.0 matches Some(o) && o@ == old_dir@),
        old_dir@.len() == 0 ==> r.0 is None,
        r.1 == new_cwd,
{
    let set_old = if old_dir.as_str().is_empty() {
        None
    } else {
        Some(old_dir)
    };
    (set_old, new_cwd)
}

/// The directories `cd` reads and changes.
pub struct DirState {
    /// The working directory.
    pub cwd: Seq<char>,
    /// `PWD`.
    pub pwd: Option<Seq<char>>,
    /// `OLDPWD`.
    pub oldpwd: Option<Seq<char>>,
    /// `HOME`.
    pub home: Option<Seq<char>>,
}

/// What `cd args` does to the directories and prints, when changing to its
/// target succeeds and leaves the working directory at `landed`:
/// `cd_target_spec` picks the target, `OLDPWD` becomes the previous
/// directory (when known), `PWD` the new working directory, and `cd -`
/// prints the target.
pub open spec fn cd_model(st: DirState, args: Seq<Seq<char>>, landed: Seq<char>) -> Result<
    (DirState, Seq<char>),
    Seq<char>,
> {
    match cd_target_spec(args, st.home, st.oldpwd) {
        Err(e) => Err(e),
        Ok(t) => {
            let old_dir = previous_dir_spec(st.pwd, Some(st.cwd));
            let printed = if args.len() == 1 && args[0] == seq!['-'] {
                t + seq!['\n']
            } else {
                seq![]
            };
            Ok(
                (
                    DirState {
                        cwd: landed,
                        pwd: Some(landed),
                        oldpwd: if old_dir.len() > 0 {
                            Some(old_dir)
                        } else {
                            st.oldpwd
                        },
                        home: st.home,
                    },
                    printed,
                ),
            )
        },
    }
}

/// `cd -` returns: after `cd p` (not `-`) from the absolute directory `d0`
/// that `PWD` names, landing in `d1`, `cd -` changes back to `d0`, prints
/// it, and leaves `PWD` at `d0` and `OLDPWD` at `d1` (when changing to `d0`
/// lands in `d0`, as it does for a path without symbolic links).
pub proof fn lemma_cd_dash_returns(st: DirState, p: Seq<char>, d1: Seq<char>)
    requires
        st.pwd == Some(st.cwd),
        st.cwd.len() > 0 && st.cwd[0] == '/',
        d1.len() > 0,
        p != seq!['-'],
        cd_model(st, seq![p], d1) is Ok,
    ensures
        ({
            let st1 = cd_model(st, seq![p], d1)->Ok_0.0;
            let back = cd_model(st1, seq![seq!['-']], st.cwd);
            &&& back is Ok
            &&& back->Ok_0.1 == st.cwd + seq!['\n']
            &&& back->Ok_0.0.cwd == st.cwd
            &&& back->Ok_0.0.pwd == Some(st.cwd)
            &&& back->Ok_0.0.oldpwd == Some(d1)
        }),
{
    let st1 = cd_model(st, seq![p], d1)->Ok_0.0;
    assert(st1.oldpwd == Some(st.cwd));
    assert(seq![seq!['-']][0] == seq!['-']);
    assert(cd_target_spec(seq![seq!['-']], st1.home, st1.oldpwd) == Ok::<Seq<char>, Seq<char>>(st.cwd));
}

} // verus!
