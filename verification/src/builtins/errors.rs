//! Error messages of `cat`, `mkdir` and `rm`.

use vstd::prelude::*;

use crate::text::{chars_of, string_from_chars};

verus! {

/// `m` occurs in `s` at index `i`.
pub open spec fn occurs_at(s: Seq<char>, m: Seq<char>, i: int) -> bool {
    0 <= i && i + m.len() <= s.len() && s.subrange(i, i + m.len()) == m
}

/// `s` up to the first occurrence of `m`, or all of `s` when `m` does not
/// occur (what `s.split(m).next()` gives).
pub open spec fn is_text_before(r: Seq<char>, s: Seq<char>, m: Seq<char>) -> bool {
    ||| exists|i: int|
        occurs_at(s, m, i) && (forall|j: int| 0 <= j < i ==> !occurs_at(s, m, j)) && r == s.take(i)
    ||| (forall|i: int| !occurs_at(s, m, i)) && r == s
}

/// The part of `s` before the first occurrence of `m` (see `is_text_before`).
pub fn text_before(s: &str, m: &str) -> (r: String)
    ensures
        is_text_before(r@, s@, m@),
{
    let cs = chars_of(s);
    let ms = chars_of(m);
    let mut i: usize = 0;
    while ms.len() <= cs.len() && i <= cs.len() - ms.len()
        invariant
            cs@ == s@,
            ms@ == m@,
            forall|j: int| 0 <= j < i ==> !occurs_at(s@, m@, j),
        decreases cs.len() - i,
    {
        let mut k: usize = 0;
        while k < ms.len() && cs[i + k] == ms[k]
            invariant
                cs@ == s@,
                ms@ == m@,
                i + ms.len() <= cs.len(),
                k <= ms.len(),
                forall|q: int| 0 <= q < k ==> cs@[i + q] == ms@[q],
            decreases ms.len() - k,
        {
            k = k + 1;
        }
        if k == ms.len() {
            assert(cs@.subrange(i as int, i + ms.len()) =~= ms@);
            let mut out: Vec<char> = Vec::new();
            let mut p: usize = 0;
            while p < i
                invariant
                    p <= i <= cs.len(),
                    out@ == cs@.take(p as int),
                decreases i - p,
            {
                out.push(cs[p]);
                assert(out@ =~= cs@.take(p + 1));
                p = p + 1;
            }
            return string_from_chars(&out);
        }
        assert(cs@.subrange(i as int, i + ms.len())[k as int] != ms@[k as int]);
        i = i + 1;
    }
    assert forall|j: int| !occurs_at(s@, m@, j) by {
        if 0 <= j && j + m@.len() <= s@.len() {
            assert(j < i);
        }
    }
    string_from_chars(&cs)
}

/// An I/O error's text cut before ` (os error)`.
pub fn clean_error_text(msg: &str) -> (r: String)
    ensures
        is_text_before(r@, msg@, " (os error)"@),
{
    text_before(msg, " (os error)")
}

/// `cat`'s message when reading or writing `filename` fails with `msg`.
pub fn cat_file_error(filename: &str, msg: &str) -> (r: String)
    ensures
        exists|c: Seq<char>| is_text_before(c, msg@, " (os error)"@) && r@ == "cat: "@ + filename@ + ": "@ + c,
{
    let c = clean_error_text(msg);
    let mut r = String::from_str("cat: ");
    r.append(filename);
    r.append(": ");
    r.append(c.as_str());
    r
}

/// `cat`'s message when copying standard input fails with `msg`.
pub fn cat_stdin_error(msg: &str) -> (r: String)
    ensures
        exists|c: Seq<char>| is_text_before(c, msg@, " (os error)"@) && r@ == "cat: error reading stdin: "@ + c,
{
    let c = clean_error_text(msg);
    let mut r = String::from_str("cat: error reading stdin: ");
    r.append(c.as_str());
    r
}

/// `mkdir` without operands is refused.
pub fn mkdir_check(args: &Vec<String>) -> (r: Result<(), String>)
    ensures
        r is Ok <==> args.len() > 0,
        r matches Err(e) ==> e@ == "mkdir: missing operand"@,
{
    if args.len() == 0 {
        return Err(String::from_str("mkdir: missing operand"));
    }
    Ok(())
}

/// `mkdir`'s message when creating `dir` fails with `msg`.
pub fn mkdir_failure_message(dir: &str, msg: &str) -> (r: String)
    ensures
        exists|c: Seq<char>|
            is_text_before(c, msg@, " (os error)"@) && r@ == "mkdir: cannot create directory '"@ + dir@
                + "': "@ + c,
{
    let c = clean_error_text(msg);
    let mut r = String::from_str("mkdir: cannot create directory '");
    r.append(dir);
    r.append("': ");
    r.append(c.as_str());
    r
}

} // verus!
