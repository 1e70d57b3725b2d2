//! Number rendering and column padding for aligned output.

use vstd::prelude::*;

use crate::text::push_char;

verus! {

/// The decimal digit for `d < 10`.
pub open spec fn digit_char(d: nat) -> char {
    (d + 48) as char
}

/// The decimal rendering of `n`, without leading zeros.
pub open spec fn decimal(n: nat) -> Seq<char>
    decreases n,
{
    if n < 10 {
        seq![digit_char(n)]
    } else {
        decimal(n / 10).push(digit_char(n % 10))
    }
}

/// The lower-case hexadecimal digit for `d < 16`.
pub open spec fn hex_char(d: nat) -> char {
    if d < 10 {
        (d + 48) as char
    } else {
        (d + 87) as char
    }
}

/// A byte value as two lower-case hexadecimal digits.
pub open spec fn hex2(v: nat) -> Seq<char> {
    seq![hex_char(v / 16), hex_char(v % 16)]
}

/// `n` spaces.
pub open spec fn spaces(n: nat) -> Seq<char> {
    Seq::new(n, |i: int| ' ')
}

/// `s` preceded by spaces up to `width` characters.
pub open spec fn pad_left(s: Seq<char>, width: nat) -> Seq<char> {
    if s.len() < width {
        spaces((width - s.len()) as nat) + s
    } else {
        s
    }
}

/// `s` followed by spaces up to `width` characters.
pub open spec fn pad_right(s: Seq<char>, width: nat) -> Seq<char> {
    if s.len() < width {
        s + spaces((width - s.len()) as nat)
    } else {
        s
    }
}

/// The decimal digits of `n`.
pub fn decimal_chars(n: u64) -> (v: Vec<char>)
    ensures
        v@ == decimal(n as nat),
    decreases n,
{
    if n < 10 {
        let c = (48u8 + n as u8) as char;
        let mut v: Vec<char> = Vec::new();
        v.push(c);
        assert(v@ =~= seq![digit_char(n as nat)]);
        v
    } else {
        let mut v = decimal_chars(n / 10);
        let d = n % 10;
        v.push((48u8 + d as u8) as char);
        v
    }
}

/// The number of decimal digits of `n`.
pub fn decimal_width(n: u64) -> (w: usize)
    ensures
        w == decimal(n as nat).len(),
        1 <= w <= 20,
{
    proof {
        lemma_decimal_len_u64(n);
    }
    decimal_chars(n).len()
}

/// The two lower-case hexadecimal digits of `v < 256`.
pub fn hex2_chars(v: u32) -> (r: Vec<char>)
    requires
        v < 256,
    ensures
        r@ == hex2(v as nat),
{
    let hi = (v / 16) as u8;
    let lo = (v % 16) as u8;
    let h = if hi < 10 {
        (48 + hi) as char
    } else {
        (87 + hi) as char
    };
    let l = if lo < 10 {
        (48 + lo) as char
    } else {
        (87 + lo) as char
    };
    let mut r: Vec<char> = Vec::new();
    r.push(h);
    r.push(l);
    assert(r@ =~= hex2(v as nat));
    r
}

/// Appends `n` spaces to `s`.
pub fn push_spaces(s: &mut String, n: usize)
    ensures
        final(s)@ == old(s)@ + spaces(n as nat),
{
    let mut i: usize = 0;
    while i < n
        invariant
            i <= n,
            s@ == old(s)@ + spaces(i as nat),
        decreases n - i,
    {
        push_char(s, ' ');
        assert(old(s)@ + spaces(i as nat) + seq![' '] =~= old(s)@ + spaces((i + 1) as nat));
        i = i + 1;
    }
}

/// Appends `t` to `s`, right-aligned in `width` characters.
pub fn push_right_aligned(s: &mut String, t: &str, width: usize)
    ensures
        final(s)@ == old(s)@ + pad_left(t@, width as nat),
{
    let n = t.unicode_len();
    if n < width {
        push_spaces(s, width - n);
    }
    s.append(t);
    assert(s@ =~= old(s)@ + pad_left(t@, width as nat));
}

/// Appends `t` to `s`, left-aligned in `width` characters.
pub fn push_left_aligned(s: &mut String, t: &str, width: usize)
    ensures
        final(s)@ == old(s)@ + pad_right(t@, width as nat),
{
    let n = t.unicode_len();
    s.append(t);
    if n < width {
        push_spaces(s, width - n);
    }
    assert(s@ =~= old(s)@ + pad_right(t@, width as nat));
}

/// A `u64` has at most twenty decimal digits.
pub proof fn lemma_decimal_len_u64(n: u64)
    ensures
        1 <= decimal(n as nat).len() <= 20,
{
    assert(pow10(20) == 100000000000000000000) by {
        reveal_with_fuel(pow10, 21);
    }
    lemma_decimal_len(n as nat, 20);
}

proof fn lemma_decimal_len(n: nat, k: nat)
    requires
        k >= 1,
        n < pow10(k),
    ensures
        1 <= decimal(n).len() <= k,
    decreases k,
{
    if n >= 10 {
        if k == 1 {
            assert(pow10(1) == 10 * pow10(0));
        } else {
            assert(pow10(k) == 10 * pow10((k - 1) as nat));
            assert(n / 10 < pow10((k - 1) as nat));
            lemma_decimal_len(n / 10, (k - 1) as nat);
        }
    }
}

/// 10 to the power `k`.
pub open spec fn pow10(k: nat) -> nat
    decreases k,
{
    if k == 0 {
        1
    } else {
        10 * pow10((k - 1) as nat)
    }
}

} // verus!
