//! The pure part of `exit`: the status to exit with.

use vstd::prelude::*;

use crate::text::chars_of;

verus! {

/// An ASCII decimal digit.
pub open spec fn is_digit(c: char) -> bool {
    '0' <= c && c <= '9'
}

/// The value of a string of decimal digits.
pub open spec fn digits_value(ds: Seq<char>) -> int
    decreases ds.len(),
{
    if ds.len() == 0 {
        0
    } else {
        digits_value(ds.drop_last()) * 10 + (ds.last() as int - 48)
    }
}

/// `s` without a leading sign.
pub open spec fn unsigned_part(s: Seq<char>) -> Seq<char> {
    if s.len() > 0 && (s[0] == '-' || s[0] == '+') {
        s.drop_first()
    } else {
        s
    }
}

/// Every character of `ds` is a digit.
pub open spec fn all_digits(ds: Seq<char>) -> bool {
    forall|i: int| 0 <= i < ds.len() ==> is_digit(#[trigger] ds[i])
}

/// What `str::parse::<i32>` accepts: an optional `+` or `-`, then one or
/// more decimal digits, whose value fits in an `i32`.
pub open spec fn parse_i32_text(s: Seq<char>) -> Option<i32> {
    let negative = s.len() > 0 && s[0] == '-';
    let ds = unsigned_part(s);
    if ds.len() == 0 || !all_digits(ds) {
        None
    } else {
        let v = if negative {
            -digits_value(ds)
        } else {
            digits_value(ds)
        };
        if i32::MIN <= v <= i32::MAX {
            Some(v as i32)
        } else {
            None
        }
    }
}

proof fn lemma_digits_value_nonneg(ds: Seq<char>)
    requires
        forall|i: int| 0 <= i < ds.len() ==> is_digit(#[trigger] ds[i]),
    ensures
        digits_value(ds) >= 0,
    decreases ds.len(),
{
    if ds.len() > 0 {
        lemma_digits_value_nonneg(ds.drop_last());
    }
}

/// Parses a decimal `i32` (see `parse_i32_text`).
pub fn parse_i32(s: &str) -> (r: Option<i32>)
    ensures
        r == parse_i32_text(s@),
{
    let cs = chars_of(s);
    let signed = cs.len() > 0 && (cs[0] == '-' || cs[0] == '+');
    let negative = cs.len() > 0 && cs[0] == '-';
    let start: usize = if signed {
        1
    } else {
        0
    };
    let ghost ds = unsigned_part(s@);
    assert(ds =~= cs@.skip(start as int));
    if start == cs.len() {
        return None;
    }
    let mut acc: i64 = 0;
    let mut too_big = false;
    let mut k: usize = start;
    while k < cs.len()
        invariant
            start <= k <= cs.len(),
            cs@ == s@,
            signed == (s@.len() > 0 && (s@[0] == '-' || s@[0] == '+')),
            start == (if signed { 1usize } else { 0usize }),
            ds == unsigned_part(s@),
            ds == cs@.skip(start as int),
            forall|i: int| 0 <= i < k - start ==> is_digit(#[trigger] ds[i]),
            too_big ==> digits_value(ds.take(k - start)) > 2147483648,
            !too_big ==> acc == digits_value(ds.take(k - start)) && 0 <= acc <= 2147483648,
        decreases cs.len() - k,
    {
        let c = cs[k];
        assert(ds[k - start] == c);
        if !('0' <= c && c <= '9') {
            assert(!is_digit(ds[k - start]));
            assert(parse_i32_text(s@) is None);
            return None;
        }
        let ghost prefix = ds.take(k - start);
        assert(ds.take(k + 1 - start).drop_last() =~= prefix);
        proof {
            lemma_digits_value_nonneg(prefix);
        }
        if !too_big {
            let d = (c as u32 - 48) as i64;
            acc = acc * 10 + d;
            if acc > 2147483648 {
                too_big = true;
            }
        }
        k = k + 1;
    }
    assert(ds.take(ds.len() as int) =~= ds);
    if too_big {
        return None;
    }
    if negative {
        Some((-acc) as i32)
    } else if acc <= 2147483647 {
        Some(acc as i32)
    } else {
        None
    }
}

/// How `exit` ends the shell.
#[derive(Debug)]
pub struct ExitPlan {
    /// The status to exit with.
    pub code: i32,
    /// A message to print first.
    pub message: Option<String>,
}

/// `exit`'s status: 0 without arguments, the first argument when it is a
/// decimal `i32`, else 2 after a message.
pub fn exit_plan(args: &Vec<String>) -> (p: ExitPlan)
    ensures
        args.len() == 0 ==> p.code == 0 && p.message is None,
        args.len() > 0 ==> match parse_i32_text(args@[0]@) {
            Some(v) => p.code == v && p.message is None,
            None => p.code == 2 && (p.message matches Some(m) && m@ == "0-shell: exit: "@ + args@[0]@
                + ": numeric argument required"@),
        },
{
    if args.len() == 0 {
        return ExitPlan { code: 0, message: None };
    }
    match parse_i32(args[0].as_str()) {
        Some(code) => ExitPlan { code, message: None },
        None => {
            let mut m = String::from_str("0-shell: exit: ");
            m.append(args[0].as_str());
            m.append(": numeric argument required");
            ExitPlan { code: 2, message: Some(m) }
        },
    }
}

} // verus!
