//! The pure part of `pwd`: which directory it prints.

use vstd::prelude::*;

verus! {

/// What `pwd` prints: the value of `PWD` when set, else the working
/// directory; when neither is known, an error with the reason the working
/// directory could not be read.
pub fn working_dir_text(pwd_var: Option<String>, cwd: Result<String, String>) -> (r: Result<
    String,
    String,
>)
    ensures
        pwd_var is Some ==> (r matches Ok(t) && t@ == pwd_var->0@),
        pwd_var is None && cwd is Ok ==> (r matches Ok(t) && t@ == cwd->Ok_0@),
        pwd_var is None && cwd is Err ==> (r matches Err(e) && e@ == "Failed to get current directory "@
            + cwd->Err_0@),
{
    match pwd_var {
        Some(p) => Ok(p),
        None => match cwd {
            Ok(c) => Ok(c),
            Err(reason) => {
                let mut m = String::from_str("Failed to get current directory ");
                m.append(reason.as_str());
                Err(m)
            },
        },
    }
}

} // verus!
