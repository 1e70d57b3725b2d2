//! The pure parts of `ls`: option parsing, entry selection and ordering,
//! name quoting, the permission and type columns, and the long listing.

use vstd::prelude::*;

use crate::columns::{
    hex_char, decimal, decimal_chars, decimal_width, hex2, hex2_chars, pad_left, pad_right, push_left_aligned,
    push_right_aligned,
};
use crate::order::{chars_le, is_stable_order, lemma_chars_le_is_code_point_order, stable_order};
use crate::text::{chars_of, push_char, string_from_chars, views};

verus! {

/// The type of a directory entry, as `ls` tells them apart.
#[derive(Debug, Clone, Copy, PartialEq, Eq, Structural)]
pub enum FileKind {
    Directory,
    Symlink,
    Fifo,
    BlockDevice,
    CharDevice,
    Socket,
    /// A regular file (any entry of none of the other kinds).
    Regular,
}

/// The device major number of a device id, in the classic Linux encoding.
pub fn major(dev: u64) -> (m: u64)
    ensures
        m == (dev >> 8u64) & 0xfff,
{
    (dev >> 8) & 0xfff
}

/// The device minor number of a device id, in the classic Linux encoding.
pub fn minor(dev: u64) -> (m: u64)
    ensures
        m == (dev & 0xff) | ((dev >> 12u64) & 0xfff00),
{
    (dev & 0xff) | ((dev >> 12) & 0xfff00)
}

/// The device id of a major and minor number (Linux's `new_encode_dev`).
pub open spec fn encode_dev(ma: u64, mi: u64) -> u64 {
    (mi & 0xff) | ((ma & 0xfff) << 8u64) | ((mi & 0xfff00) << 12u64)
}

/// `major` and `minor` take apart what `encode_dev` put together, for a
/// major number below 2^12 and a minor number below 2^20.
pub proof fn lemma_major_minor_decode(ma: u64, mi: u64)
    requires
        ma < 0x1000,
        mi < 0x100000,
    ensures
        (encode_dev(ma, mi) >> 8u64) & 0xfff == ma,
        (encode_dev(ma, mi) & 0xff) | ((encode_dev(ma, mi) >> 12u64) & 0xfff00) == mi,
{
    assert(((mi & 0xff) | ((ma & 0xfff) << 8u64) | ((mi & 0xfff00) << 12u64)) >> 8u64 & 0xfff == ma)
        by (bit_vector)
        requires
            ma < 0x1000,
            mi < 0x100000,
    ;
    assert(((((mi & 0xff) | ((ma & 0xfff) << 8u64) | ((mi & 0xfff00) << 12u64)) & 0xff) | ((((mi
        & 0xff) | ((ma & 0xfff) << 8u64) | ((mi & 0xfff00) << 12u64)) >> 12u64) & 0xfff00)) == mi)
        by (bit_vector)
        requires
            ma < 0x1000,
            mi < 0x100000,
    ;
}

/// The type letter of the long listing's first column.
pub open spec fn kind_letter(k: FileKind) -> char {
    match k {
        FileKind::Directory => 'd',
        FileKind::Symlink => 'l',
        FileKind::Fifo => 'p',
        FileKind::BlockDevice => 'b',
        FileKind::CharDevice => 'c',
        FileKind::Socket => 's',
        FileKind::Regular => '-',
    }
}

/// One `rwx` triple: read and write letters for the two bits, and the
/// execute letter, which becomes `lower` (executable) or `upper` (not)
/// when the special bit is set.
pub open spec fn rwx(
    mode: u32,
    r: u32,
    w: u32,
    x: u32,
    special: u32,
    lower: char,
    upper: char,
) -> Seq<char> {
    let exec = mode & x != 0;
    seq![
        if mode & r != 0 { 'r' } else { '-' },
        if mode & w != 0 { 'w' } else { '-' },
        if mode & special != 0 {
            if exec { lower } else { upper }
        } else {
            if exec { 'x' } else { '-' }
        },
    ]
}

/// The long listing's permission column: the type letter, the owner's,
/// group's and others' triples (set-user-id, set-group-id and sticky bits
/// shown as `s`/`S`, `s`/`S`, `t`/`T`), and `+` when the entry has
/// extended attributes.
pub open spec fn permission_text(kind: FileKind, mode: u32, has_xattr: bool) -> Seq<char> {
    seq![kind_letter(kind)] + rwx(mode, 0o400, 0o200, 0o100, 0o4000, 's', 'S') + rwx(
        mode,
        0o40,
        0o20,
        0o10,
        0o2000,
        's',
        'S',
    ) + rwx(mode, 0o4, 0o2, 0o1, 0o1000, 't', 'T') + if has_xattr {
        seq!['+']
    } else {
        seq![]
    }
}

fn push_rwx(
    s: &mut String,
    mode: u32,
    r: u32,
    w: u32,
    x: u32,
    special: u32,
    lower: char,
    upper: char,
)
    ensures
        final(s)@ == old(s)@ + rwx(mode, r, w, x, special, lower, upper),
{
    push_char(s, if mode & r != 0 { 'r' } else { '-' });
    push_char(s, if mode & w != 0 { 'w' } else { '-' });
    let exec = mode & x != 0;
    let c = if mode & special != 0 {
        if exec { lower } else { upper }
    } else {
        if exec { 'x' } else { '-' }
    };
    push_char(s, c);
    assert(s@ =~= old(s)@ + rwx(mode, r, w, x, special, lower, upper));
}

/// The permission column of an entry (see `permission_text`).
pub fn permission_string(kind: FileKind, mode: u32, has_xattr: bool) -> (s: String)
    ensures
        s@ == permission_text(kind, mode, has_xattr),
{
    let letter = match kind {
        FileKind::Directory => 'd',
        FileKind::Symlink => 'l',
        FileKind::Fifo => 'p',
        FileKind::BlockDevice => 'b',
        FileKind::CharDevice => 'c',
        FileKind::Socket => 's',
        FileKind::Regular => '-',
    };
    let mut s = String::new();
    push_char(&mut s, letter);
    push_rwx(&mut s, mode, 0o400, 0o200, 0o100, 0o4000, 's', 'S');
    push_rwx(&mut s, mode, 0o40, 0o20, 0o10, 0o2000, 's', 'S');
    push_rwx(&mut s, mode, 0o4, 0o2, 0o1, 0o1000, 't', 'T');
    if has_xattr {
        push_char(&mut s, '+');
    }
    assert(s@ =~= permission_text(kind, mode, has_xattr));
    s
}

/// The suffix that `-F` appends: `/` for a directory, `@` for a symbolic
/// link, `*` for an entry with an execute bit, `|` for a FIFO, `=` for a
/// socket, nothing otherwise.
pub open spec fn classifier_text(kind: FileKind, mode: u32) -> Seq<char> {
    if kind == FileKind::Directory {
        seq!['/']
    } else if kind == FileKind::Symlink {
        seq!['@']
    } else if mode & 0o111 != 0 {
        seq!['*']
    } else if kind == FileKind::Fifo {
        seq!['|']
    } else if kind == FileKind::Socket {
        seq!['=']
    } else {
        seq![]
    }
}

/// The `-F` suffix of an entry (see `classifier_text`).
pub fn get_classifier(kind: FileKind, mode: u32) -> (s: String)
    ensures
        s@ == classifier_text(kind, mode),
{
    let mut s = String::new();
    if kind == FileKind::Directory {
        push_char(&mut s, '/');
    } else if kind == FileKind::Symlink {
        push_char(&mut s, '@');
    } else if mode & 0o111 != 0 {
        push_char(&mut s, '*');
    } else if kind == FileKind::Fifo {
        push_char(&mut s, '|');
    } else if kind == FileKind::Socket {
        push_char(&mut s, '=');
    }
    assert(s@ =~= classifier_text(kind, mode));
    s
}

/// Unicode control characters (general category Cc), the set that
/// `char::is_control` tests for.
pub open spec fn is_control(c: char) -> bool {
    c <= '\u{1f}' || ('\u{7f}' <= c && c <= '\u{9f}')
}

/// Characters that make `ls` put a name in single quotes.
pub open spec fn is_shell_special(c: char) -> bool {
    c == ' ' || c == '\'' || c == '\\' || c == '$' || c == '*' || c == '?' || c == '&' || c == '|'
        || c == ';' || c == '(' || c == ')' || c == '<' || c == '>'
}

/// Characters written outside quotes when a name holds a control character.
pub open spec fn needs_ansi_escape(c: char) -> bool {
    c == '\t' || c == '\n' || c == '\'' || c == '\\' || is_control(c)
}

/// The escape written for such a character: `$'\t'`, `$'\n'`, `'\''`,
/// `$'\\'`, or `$'\xHH'` with the code in two hexadecimal digits.
pub open spec fn ansi_escape(c: char) -> Seq<char> {
    if c == '\t' {
        "$'\\t'"@
    } else if c == '\n' {
        "$'\\n'"@
    } else if c == '\'' {
        "'\\''"@
    } else if c == '\\' {
        "$'\\\\'"@
    } else {
        "$'\\x"@ + hex2(c as nat) + "'"@
    }
}

/// A run of ordinary characters in single quotes; nothing when empty.
pub open spec fn quote_run(run: Seq<char>) -> Seq<char> {
    if run.len() > 0 {
        seq!['\''] + run + seq!['\'']
    } else {
        seq![]
    }
}

/// Reading a name with control characters: the text written so far, and
/// the run of ordinary characters not yet written.
pub open spec fn ansi_scan(s: Seq<char>) -> (Seq<char>, Seq<char>)
    decreases s.len(),
{
    if s.len() == 0 {
        (seq![], seq![])
    } else {
        let (out, run) = ansi_scan(s.drop_last());
        let c = s.last();
        if needs_ansi_escape(c) {
            (out + quote_run(run) + ansi_escape(c), seq![])
        } else {
            (out, run.push(c))
        }
    }
}

/// A name with control characters, quoted as `ls` does: runs of ordinary
/// characters in single quotes, the others escaped.
pub open spec fn ansi_quote(s: Seq<char>) -> Seq<char> {
    ansi_scan(s).0 + quote_run(ansi_scan(s).1)
}

/// `s` with each `'` written as `'\''`.
pub open spec fn escape_quotes(s: Seq<char>) -> Seq<char>
    decreases s.len(),
{
    if s.len() == 0 {
        seq![]
    } else {
        escape_quotes(s.drop_last()) + if s.last() == '\'' {
            "'\\''"@
        } else {
            seq![s.last()]
        }
    }
}

/// How `ls` shows a name: with a control character, in the escaped form
/// of `ansi_quote`; else with a shell-special character, in single quotes
/// with each `'` written as `'\''`; else as it is.
pub open spec fn sanitized(s: Seq<char>) -> Seq<char> {
    if exists|i: int| 0 <= i < s.len() && is_control(#[trigger] s[i]) {
        ansi_quote(s)
    } else if exists|i: int| 0 <= i < s.len() && is_shell_special(#[trigger] s[i]) {
        seq!['\''] + escape_quotes(s) + seq!['\'']
    } else {
        s
    }
}

fn is_control_char(c: char) -> (b: bool)
    ensures
        b == is_control(c),
{
    c <= '\u{1f}' || ('\u{7f}' <= c && c <= '\u{9f}')
}

fn is_shell_special_char(c: char) -> (b: bool)
    ensures
        b == is_shell_special(c),
{
    c == ' ' || c == '\'' || c == '\\' || c == '$' || c == '*' || c == '?' || c == '&' || c == '|'
        || c == ';' || c == '(' || c == ')' || c == '<' || c == '>'
}

fn append_chars(s: &mut String, cs: &Vec<char>)
    ensures
        final(s)@ == old(s)@ + cs@,
{
    let t = string_from_chars(cs);
    s.append(t.as_str());
}

fn append_quote_run(s: &mut String, run: &Vec<char>)
    ensures
        final(s)@ == old(s)@ + quote_run(run@),
{
    if run.len() > 0 {
        push_char(s, '\'');
        append_chars(s, run);
        push_char(s, '\'');
        assert(s@ =~= old(s)@ + quote_run(run@));
    }
}

fn append_ansi_escape(s: &mut String, c: char)
    requires
        needs_ansi_escape(c),
    ensures
        final(s)@ == old(s)@ + ansi_escape(c),
{
    if c == '\t' {
        s.append("$'\\t'");
    } else if c == '\n' {
        s.append("$'\\n'");
    } else if c == '\'' {
        s.append("'\\''");
    } else if c == '\\' {
        s.append("$'\\\\'");
    } else {
        s.append("$'\\x");
        let h = hex2_chars(c as u32);
        append_chars(s, &h);
        s.append("'");
        assert(s@ =~= old(s)@ + ansi_escape(c));
    }
}

/// The name of a directory entry as `ls` shows it (see `sanitized`).
pub fn sanitize_filename(name: &str) -> (r: String)
    ensures
        r@ == sanitized(name@),
{
    let cs = chars_of(name);
    let mut has_control_chars = false;
    let mut needs_simple_quoting = false;
    let mut i: usize = 0;
    while i < cs.len()
        invariant
            i <= cs.len(),
            cs@ == name@,
            has_control_chars == exists|j: int| 0 <= j < i && is_control(#[trigger] cs@[j]),
            needs_simple_quoting == exists|j: int| 0 <= j < i && is_shell_special(#[trigger] cs@[j]),
        decreases cs.len() - i,
    {
        if is_control_char(cs[i]) {
            has_control_chars = true;
        }
        if is_shell_special_char(cs[i]) {
            needs_simple_quoting = true;
        }
        i = i + 1;
    }
    if has_control_chars {
        let mut result = String::new();
        let mut buf: Vec<char> = Vec::new();
        let mut k: usize = 0;
        while k < cs.len()
            invariant
                k <= cs.len(),
                cs@ == name@,
                (result@, buf@) == ansi_scan(cs@.take(k as int)),
            decreases cs.len() - k,
        {
            assert(cs@.take(k + 1).drop_last() =~= cs@.take(k as int));
            let c = cs[k];
            if c == '\t' || c == '\n' || c == '\'' || c == '\\' || is_control_char(c) {
                append_quote_run(&mut result, &buf);
                buf = Vec::new();
                append_ansi_escape(&mut result, c);
            } else {
                buf.push(c);
            }
            k = k + 1;
        }
        assert(cs@.take(cs.len() as int) =~= cs@);
        append_quote_run(&mut result, &buf);
        return result;
    }
    if needs_simple_quoting {
        let mut result = String::new();
        push_char(&mut result, '\'');
        let mut k: usize = 0;
        while k < cs.len()
            invariant
                k <= cs.len(),
                cs@ == name@,
                result@ == seq!['\''] + escape_quotes(cs@.take(k as int)),
            decreases cs.len() - k,
        {
            assert(cs@.take(k + 1).drop_last() =~= cs@.take(k as int));
            if cs[k] == '\'' {
                result.append("'\\''");
            } else {
                push_char(&mut result, cs[k]);
            }
            assert(result@ =~= seq!['\''] + escape_quotes(cs@.take(k + 1)));
            k = k + 1;
        }
        assert(cs@.take(cs.len() as int) =~= cs@);
        push_char(&mut result, '\'');
        return result;
    }
    string_from_chars(&cs)
}

/// What `str::to_lowercase` returns for `s`: its Unicode lower-case form.
pub uninterp spec fn lowercase(s: Seq<char>) -> Seq<char>;

/// `str::to_lowercase`: the lower-case form of `s`, a function of `s`
/// alone (the mapping is Unicode's, with no locale), named `lowercase`
/// here; what it maps each character to is not stated.
#[verifier::external_body]
fn to_lowercase(s: &str) -> (r: String)
    ensures
        r@ == lowercase(s@),
{
    s.to_lowercase()
}

/// `s` without its leading dots.
pub open spec fn strip_leading_dots(s: Seq<char>) -> Seq<char>
    decreases s.len(),
{
    if s.len() > 0 && s[0] == '.' {
        strip_leading_dots(s.drop_first())
    } else {
        s
    }
}

/// The key by which `ls` orders names: the name without leading dots, in
/// lower case.
pub open spec fn sort_key(name: Seq<char>) -> Seq<char> {
    lowercase(strip_leading_dots(name))
}

fn sort_key_of(name: &String) -> (k: Vec<char>)
    ensures
        k@ == sort_key(name@),
{
    let cs = chars_of(name.as_str());
    let mut n: usize = 0;
    assert(cs@.skip(0) =~= cs@);
    while n < cs.len() && cs[n] == '.'
        invariant
            n <= cs.len(),
            strip_leading_dots(cs@) == strip_leading_dots(cs@.skip(n as int)),
        decreases cs.len() - n,
    {
        assert(cs@.skip(n as int).drop_first() =~= cs@.skip(n + 1));
        n = n + 1;
    }
    let mut rest: Vec<char> = Vec::new();
    let mut i = n;
    while i < cs.len()
        invariant
            n <= i <= cs.len(),
            rest@ == cs@.subrange(n as int, i as int),
        decreases cs.len() - i,
    {
        rest.push(cs[i]);
        assert(rest@ =~= cs@.subrange(n as int, i + 1));
        i = i + 1;
    }
    assert(rest@ =~= cs@.skip(n as int));
    let stripped = string_from_chars(&rest);
    let lower = to_lowercase(stripped.as_str());
    chars_of(lower.as_str())
}

/// `v` after a stable sort by the keys `keys`: some stable order of the
/// keys lists the new positions' old indices.
pub open spec fn stably_sorted(old_v: Seq<Seq<char>>, new_v: Seq<Seq<char>>, keys: Seq<Seq<char>>) -> bool {
    exists|order: Seq<int>|
        #![trigger is_stable_order(keys, order)]
        is_stable_order(keys, order) && new_v.len() == old_v.len() && forall|k: int|
            0 <= k < new_v.len() ==> #[trigger] new_v[k] == old_v[order[k]]
}

/// Reorders `v` stably by `keys` (one key per entry).
pub fn sort_by_keys(v: &mut Vec<String>, keys: &Vec<Vec<char>>)
    requires
        keys.len() == old(v).len(),
    ensures
        stably_sorted(views(old(v)@), views(final(v)@), keys@.map_values(|k: Vec<char>| k@)),
{
    let order = stable_order(keys);
    let ghost o = order@.map_values(|i: usize| i as int);
    let mut out: Vec<String> = Vec::new();
    let mut k: usize = 0;
    while k < order.len()
        invariant
            k <= order.len(),
            order.len() == v.len(),
            o == order@.map_values(|i: usize| i as int),
            is_stable_order(keys@.map_values(|k: Vec<char>| k@), o),
            out.len() == k,
            forall|m: int| 0 <= m < k ==> #[trigger] views(out@)[m] == views(v@)[o[m]],
        decreases order.len() - k,
    {
        assert(0 <= o[k as int] < v.len());
        let ghost before = out@;
        let item = v[order[k]].clone();
        out.push(item);
        assert(views(out@) =~= views(before).push(item@));
        assert(order@[k as int] as int == o[k as int]);
        k = k + 1;
    }
    *v = out;
}

/// `name` begins with exactly `n` dots.
pub open spec fn leading_dots(name: Seq<char>, n: int) -> bool {
    &&& 0 <= n <= name.len()
    &&& forall|i: int| 0 <= i < n ==> #[trigger] name[i] == '.'
    &&& (n == name.len() || name[n] != '.')
}

/// Stripping the leading dots keeps every character after them.
pub proof fn lemma_strip_leading_dots(name: Seq<char>, n: int)
    requires
        leading_dots(name, n),
    ensures
        strip_leading_dots(name) == name.skip(n),
    decreases name.len(),
{
    if n == 0 {
        assert(name.skip(0) =~= name);
    } else {
        assert(name[0] == '.');
        let rest = name.drop_first();
        assert forall|i: int| 0 <= i < n - 1 implies #[trigger] rest[i] == '.' by {
            assert(rest[i] == name[i + 1]);
        }
        if n < name.len() {
            assert(rest[n - 1] == name[n]);
        }
        lemma_strip_leading_dots(rest, n - 1);
        assert(rest.skip(n - 1) =~= name.skip(n));
    }
}

/// The key of a name is the lower-case form of the whole name after its
/// leading dots: no character after them is dropped.
pub proof fn lemma_sort_key_whole_name(name: Seq<char>, n: int)
    requires
        leading_dots(name, n),
    ensures
        sort_key(name) == lowercase(name.skip(n)),
{
    lemma_strip_leading_dots(name, n);
}

/// Names sorted as `ls` sorts them are in order of their whole lower-case
/// forms after the leading dots: of two entries, the earlier one's form is
/// a prefix of the later one's, or is smaller in code points at the first
/// position where they differ.
pub proof fn lemma_sorted_by_whole_names(old_v: Seq<Seq<char>>, new_v: Seq<Seq<char>>)
    requires
        stably_sorted(old_v, new_v, old_v.map_values(|n: Seq<char>| sort_key(n))),
    ensures
        forall|k: int, l: int, nk: int, nl: int|
            0 <= k < l < new_v.len() && leading_dots(new_v[k], nk) && leading_dots(new_v[l], nl)
                ==> chars_le(
                #[trigger] lowercase(new_v[k].skip(nk)),
                #[trigger] lowercase(new_v[l].skip(nl)),
            ),
{
    let keys = old_v.map_values(|n: Seq<char>| sort_key(n));
    let order = choose|order: Seq<int>|
        #![trigger is_stable_order(keys, order)]
        is_stable_order(keys, order) && new_v.len() == old_v.len() && forall|k: int|
            0 <= k < new_v.len() ==> #[trigger] new_v[k] == old_v[order[k]];
    assert forall|k: int, l: int, nk: int, nl: int|
        0 <= k < l < new_v.len() && leading_dots(new_v[k], nk) && leading_dots(new_v[l], nl) implies chars_le(
        #[trigger] lowercase(new_v[k].skip(nk)),
        #[trigger] lowercase(new_v[l].skip(nl)),
    ) by {
        assert(chars_le(keys[order[k]], keys[order[l]]));
        assert(new_v[k] == old_v[order[k]] && new_v[l] == old_v[order[l]]);
        lemma_sort_key_whole_name(new_v[k], nk);
        lemma_sort_key_whole_name(new_v[l], nl);
    }
}

/// Orders directory entries as `ls` does: stably by `sort_key`, that is by
/// the whole lower-case name after its leading dots.
pub fn sort(files: &mut Vec<String>)
    ensures
        stably_sorted(views(old(files)@), views(final(files)@), views(old(files)@).map_values(|n: Seq<char>| sort_key(n))),
        forall|k: int, l: int, nk: int, nl: int|
            0 <= k < l < final(files).len() && leading_dots(final(files)@[k]@, nk) && leading_dots(
                final(files)@[l]@,
                nl,
            ) ==> chars_le(
                #[trigger] lowercase(final(files)@[k]@.skip(nk)),
                #[trigger] lowercase(final(files)@[l]@.skip(nl)),
            ),
{
    let mut keys: Vec<Vec<char>> = Vec::new();
    let mut i: usize = 0;
    while i < files.len()
        invariant
            i <= files.len(),
            keys.len() == i,
            forall|m: int| 0 <= m < i ==> #[trigger] keys@[m]@ == sort_key(files@[m]@),
        decreases files.len() - i,
    {
        keys.push(sort_key_of(&files[i]));
        i = i + 1;
    }
    assert(keys@.map_values(|k: Vec<char>| k@) =~= views(files@).map_values(|n: Seq<char>| sort_key(n)));
    let ghost before = views(files@);
    sort_by_keys(files, &keys);
    proof {
        let after = views(files@);
        lemma_sorted_by_whole_names(before, after);
        assert forall|k: int, l: int, nk: int, nl: int|
            0 <= k < l < files.len() && leading_dots(files@[k]@, nk) && leading_dots(files@[l]@, nl)
                implies chars_le(
            #[trigger] lowercase(files@[k]@.skip(nk)),
            #[trigger] lowercase(files@[l]@.skip(nl)),
        ) by {
            assert(after[k] == files@[k]@ && after[l] == files@[l]@);
            assert(chars_le(lowercase(after[k].skip(nk)), lowercase(after[l].skip(nl))));
        }
    }
}

/// What `ls` was asked for.
#[derive(Debug)]
pub struct LsOptions {
    /// `-a`: include names that begin with a dot, and `.` and `..`.
    pub show_hidden: bool,
    /// `-l`: the long listing.
    pub long: bool,
    /// `-F`: append the type suffix.
    pub classify: bool,
    /// The paths to list, in order.
    pub paths: Vec<String>,
}

/// An argument that holds option letters: one that begins with `-`.
pub open spec fn is_option_arg(a: Seq<char>) -> bool {
    a.len() > 0 && a[0] == '-'
}

/// The option letters of `args`, in order: each option argument without its `-`.
pub open spec fn option_letters(args: Seq<Seq<char>>) -> Seq<char>
    decreases args.len(),
{
    if args.len() == 0 {
        seq![]
    } else {
        option_letters(args.drop_last()) + if is_option_arg(args.last()) {
            args.last().drop_first()
        } else {
            seq![]
        }
    }
}

/// The arguments that are not options, in order.
pub open spec fn operands(args: Seq<Seq<char>>) -> Seq<Seq<char>>
    decreases args.len(),
{
    if args.len() == 0 {
        seq![]
    } else if is_option_arg(args.last()) {
        operands(args.drop_last())
    } else {
        operands(args.drop_last()).push(args.last())
    }
}

/// The option letters `ls` knows.
pub open spec fn known_option(c: char) -> bool {
    c == 'a' || c == 'l' || c == 'F'
}

/// The paths to list: the operands, or `.` when there is none.
pub open spec fn ls_paths(args: Seq<Seq<char>>) -> Seq<Seq<char>> {
    if operands(args).len() == 0 {
        seq![seq!['.']]
    } else {
        operands(args)
    }
}

/// Reads `ls`'s arguments. An unknown option letter is refused: the error
/// is the first such letter. Otherwise each flag is set when its letter
/// occurs, and the paths are `ls_paths`.
pub fn parse_ls_args(args: &Vec<String>) -> (r: Result<LsOptions, char>)
    ensures
        ({
            let letters = option_letters(views(args@));
            match r {
                Ok(o) => {
                    &&& forall|i: int| 0 <= i < letters.len() ==> known_option(#[trigger] letters[i])
                    &&& o.show_hidden == letters.contains('a')
                    &&& o.long == letters.contains('l')
                    &&& o.classify == letters.contains('F')
                    &&& views(o.paths@) == ls_paths(views(args@))
                    &&& o.show_hidden == given_option(views(args@), 'a')
                    &&& o.long == given_option(views(args@), 'l')
                    &&& o.classify == given_option(views(args@), 'F')
                    &&& views(o.paths@) == if views(args@).filter(not_an_option()).len() > 0 {
                        views(args@).filter(not_an_option())
                    } else {
                        seq![seq!['.']]
                    }
                },
                Err(c) => exists|i: int|
                    0 <= i < letters.len() && letters[i] == c && !known_option(c) && forall|j: int|
                        0 <= j < i ==> known_option(#[trigger] letters[j]),
            }
        }),
{
    let ghost a = views(args@);
    let mut show_hidden = false;
    let mut classify = false;
    let mut l_flag = false;
    let mut paths: Vec<String> = Vec::new();
    let mut i: usize = 0;
    while i < args.len()
        invariant
            i <= args.len(),
            a == views(args@),
            ({
                let letters = option_letters(a.take(i as int));
                &&& forall|k: int| 0 <= k < letters.len() ==> known_option(#[trigger] letters[k])
                &&& show_hidden == letters.contains('a')
                &&& l_flag == letters.contains('l')
                &&& classify == letters.contains('F')
                &&& views(paths@) == operands(a.take(i as int))
            }),
        decreases args.len() - i,
    {
        let ghost before = option_letters(a.take(i as int));
        assert(a.take(i + 1).drop_last() =~= a.take(i as int));
        let cs = chars_of(args[i].as_str());
        if cs.len() > 0 && cs[0] == '-' {
            let mut j: usize = 1;
            while j < cs.len()
                invariant
                    1 <= j <= cs.len(),
                    i < args.len(),
                    a == views(args@),
                    before == option_letters(a.take(i as int)),
                    a.take(i + 1).drop_last() == a.take(i as int),
                    cs@ == a[i as int],
                    cs@.len() > 0 && cs@[0] == '-',
                    ({
                        let letters = before + cs@.subrange(1, j as int);
                        &&& forall|k: int| 0 <= k < letters.len() ==> known_option(#[trigger] letters[k])
                        &&& show_hidden == letters.contains('a')
                        &&& l_flag == letters.contains('l')
                        &&& classify == letters.contains('F')
                    }),
                decreases cs.len() - j,
            {
                let c = cs[j];
                let ghost prev = before + cs@.subrange(1, j as int);
                let ghost next = before + cs@.subrange(1, j + 1);
                assert(next =~= prev.push(c));
                if c == 'a' {
                    show_hidden = true;
                } else if c == 'l' {
                    l_flag = true;
                } else if c == 'F' {
                    classify = true;
                } else {
                    proof {
                        let full = option_letters(a);
                        lemma_option_letters_prefix(a, i as int + 1);
                        assert(option_letters(a.take(i + 1)) =~= before + cs@.drop_first());
                        assert(full.take(next.len() as int) =~= next) by {
                            assert(next =~= option_letters(a.take(i + 1)).take(next.len() as int));
                        }
                        assert(next.len() <= option_letters(a.take(i + 1)).len());
                        assert(full.take(next.len() as int)[prev.len() as int] == full[prev.len() as int]);
                        assert(full[prev.len() as int] == c);
                        assert forall|k: int| 0 <= k < prev.len() implies known_option(#[trigger] full[k]) by {
                            assert(full[k] == next[k]);
                        }
                    }
                    return Err(c);
                }
                proof {
                    assert forall|k: int| 0 <= k < next.len() implies known_option(#[trigger] next[k]) by {
                        if k < prev.len() {
                            assert(next[k] == prev[k]);
                        }
                    }
                    lemma_contains_push(prev, c, 'a');
                    lemma_contains_push(prev, c, 'l');
                    lemma_contains_push(prev, c, 'F');
                }
                j = j + 1;
            }
            assert(cs@.subrange(1, cs.len() as int) =~= cs@.drop_first());
            assert(option_letters(a.take(i + 1)) =~= before + cs@.drop_first());
        } else {
            paths.push(args[i].clone());
            assert(option_letters(a.take(i + 1)) =~= before);
            assert(views(paths@) =~= operands(a.take(i + 1)));
        }
        i = i + 1;
    }
    assert(a.take(args.len() as int) =~= a);
    if paths.len() == 0 {
        paths.push(String::from_str("."));
        proof {
            reveal_strlit(".");
            assert(paths@[0]@ =~= seq!['.']);
            assert(views(paths@) =~= seq![seq!['.']]);
        }
    }
    proof {
        lemma_ls_paths_are_operands(a);
        lemma_option_letters_members(a, 'a');
        lemma_option_letters_members(a, 'l');
        lemma_option_letters_members(a, 'F');
    }
    Ok(LsOptions { show_hidden, long: l_flag, classify, paths })
}

/// Some argument that begins with `-` holds the letter `c` after the `-`.
pub open spec fn given_option(args: Seq<Seq<char>>, c: char) -> bool {
    exists|i: int| 0 <= i < args.len() && args[i].len() > 0 && args[i][0] == '-' && #[trigger] args[i].drop_first().contains(c)
}

/// A letter is among the option letters exactly when an argument that
/// begins with `-` holds it after the `-`.
pub proof fn lemma_option_letters_members(args: Seq<Seq<char>>, c: char)
    ensures
        option_letters(args).contains(c) <==> given_option(args, c),
    decreases args.len(),
{
    if args.len() > 0 {
        let init = args.drop_last();
        let last = args.last();
        lemma_option_letters_members(init, c);
        let prev = option_letters(init);
        let tail = if is_option_arg(last) {
            last.drop_first()
        } else {
            seq![]
        };
        assert(option_letters(args) == prev + tail);
        if (prev + tail).contains(c) {
            let k = choose|k: int| 0 <= k < (prev + tail).len() && (prev + tail)[k] == c;
            if k < prev.len() {
                assert(prev[k] == c);
                let i = choose|i: int|
                    0 <= i < init.len() && init[i].len() > 0 && init[i][0] == '-'
                        && #[trigger] init[i].drop_first().contains(c);
                assert(args[i] == init[i]);
            } else {
                assert(tail[k - prev.len()] == c);
                assert(args[args.len() - 1] == last);
                assert(last.drop_first().contains(c));
            }
        }
        if given_option(args, c) {
            let i = choose|i: int|
                0 <= i < args.len() && args[i].len() > 0 && args[i][0] == '-'
                    && #[trigger] args[i].drop_first().contains(c);
            let k = choose|k: int| 0 <= k < args[i].drop_first().len() && args[i].drop_first()[k] == c;
            if i < init.len() {
                assert(init[i] == args[i]);
                assert(given_option(init, c));
                let j = choose|j: int| 0 <= j < prev.len() && prev[j] == c;
                assert((prev + tail)[j] == c);
            } else {
                assert(tail[k] == c);
                assert((prev + tail)[prev.len() + k] == c);
            }
        }
    }
}

/// An argument that does not begin with `-`.
pub open spec fn not_an_option() -> spec_fn(Seq<char>) -> bool {
    |x: Seq<char>| !(x.len() > 0 && x[0] == '-')
}

/// The paths `ls` lists are exactly its arguments that do not begin with
/// `-`, in order, with none left out; `.` is listed only when there is no
/// such argument.
pub proof fn lemma_ls_paths_are_operands(args: Seq<Seq<char>>)
    ensures
        operands(args) == args.filter(not_an_option()),
        operands(args).len() > 0 ==> ls_paths(args) == operands(args),
        operands(args).len() == 0 ==> ls_paths(args) == seq![seq!['.']],
    decreases args.len(),
{
    if args.len() > 0 {
        lemma_ls_paths_are_operands(args.drop_last());
        reveal(Seq::filter);
    }
}

proof fn lemma_contains_push(s: Seq<char>, c: char, x: char)
    ensures
        s.push(c).contains(x) == (s.contains(x) || c == x),
{
    if s.push(c).contains(x) {
        let k = choose|k: int| 0 <= k < s.push(c).len() && s.push(c)[k] == x;
        if k < s.len() {
            assert(s[k] == x);
        }
    }
    if s.contains(x) {
        let k = choose|k: int| 0 <= k < s.len() && s[k] == x;
        assert(s.push(c)[k] == x);
    }
    if c == x {
        assert(s.push(c)[s.len() as int] == x);
    }
}

/// The option letters of a prefix of the arguments begin those of all of them.
proof fn lemma_option_letters_prefix(a: Seq<Seq<char>>, n: int)
    requires
        0 <= n <= a.len(),
    ensures
        option_letters(a).take(option_letters(a.take(n)).len() as int) == option_letters(a.take(n)),
        option_letters(a.take(n)).len() <= option_letters(a).len(),
    decreases a.len() - n,
{
    if n < a.len() {
        lemma_option_letters_prefix(a, n + 1);
        assert(a.take(n + 1).drop_last() =~= a.take(n));
        let p = option_letters(a.take(n));
        let q = option_letters(a.take(n + 1));
        assert(q.take(p.len() as int) =~= p);
        assert(option_letters(a).take(p.len() as int) =~= q.take(p.len() as int));
    } else {
        assert(a.take(n) =~= a);
        assert(option_letters(a).take(option_letters(a).len() as int) =~= option_letters(a));
    }
}

/// The message for an unknown option letter.
pub fn invalid_option_message(c: char) -> (m: String)
    ensures
        m@ == "ls: invalid option -- '"@ + seq![c] + "'"@,
{
    let mut m = String::from_str("ls: invalid option -- '");
    push_char(&mut m, c);
    m.append("'");
    m
}

/// A name that `ls` hides without `-a`: one that begins with a dot.
pub open spec fn is_hidden(name: Seq<char>) -> bool {
    name.len() > 0 && name[0] == '.'
}

/// The names without the hidden ones, in order.
pub open spec fn without_hidden(names: Seq<Seq<char>>) -> Seq<Seq<char>>
    decreases names.len(),
{
    if names.len() == 0 {
        seq![]
    } else if is_hidden(names.last()) {
        without_hidden(names.drop_last())
    } else {
        without_hidden(names.drop_last()).push(names.last())
    }
}

/// The entries `ls` shows from a directory's names, before sorting: with
/// `-a` all of them followed by `.` and `..`, else those not hidden.
pub open spec fn shown_entries(names: Seq<Seq<char>>, show_hidden: bool) -> Seq<Seq<char>> {
    if show_hidden {
        names + seq![seq!['.'], seq!['.', '.']]
    } else {
        without_hidden(names)
    }
}

fn starts_with_dot(s: &String) -> (b: bool)
    ensures
        b == is_hidden(s@),
{
    let t = s.as_str();
    t.unicode_len() > 0 && t.get_char(0) == '.'
}

/// The entries to show from a directory's names (see `shown_entries`).
pub fn visible_entries(names: Vec<String>, show_hidden: bool) -> (r: Vec<String>)
    ensures
        views(r@) == shown_entries(views(names@), show_hidden),
{
    let ghost n = views(names@);
    let mut files: Vec<String> = Vec::new();
    let mut i: usize = 0;
    while i < names.len()
        invariant
            i <= names.len(),
            n == views(names@),
            views(files@) == if show_hidden {
                n.take(i as int)
            } else {
                without_hidden(n.take(i as int))
            },
        decreases names.len() - i,
    {
        assert(n.take(i + 1).drop_last() =~= n.take(i as int));
        if show_hidden || !starts_with_dot(&names[i]) {
            files.push(names[i].clone());
        }
        proof {
            if show_hidden {
                assert(views(files@) =~= n.take(i + 1));
            } else {
                assert(views(files@) =~= without_hidden(n.take(i + 1)));
            }
        }
        i = i + 1;
    }
    assert(n.take(names.len() as int) =~= n);
    if show_hidden {
        let ghost before = files@;
        let dot = String::from_str(".");
        let dotdot = String::from_str("..");
        proof {
            reveal_strlit(".");
            reveal_strlit("..");
            assert(dot@ =~= seq!['.']);
            assert(dotdot@ =~= seq!['.', '.']);
        }
        files.push(dot);
        files.push(dotdot);
        proof {
            assert(views(files@) =~= views(before).push(seq!['.']).push(seq!['.', '.']));
            assert(views(files@) =~= n + seq![seq!['.'], seq!['.', '.']]);
        }
    }
    files
}

/// An entry of the short listing: the shown name, followed by its `-F`
/// suffix when one is asked for (with the entry's type and mode).
pub fn short_entry(name: &str, class: Option<(FileKind, u32)>) -> (r: String)
    ensures
        r@ == sanitized(name@) + match class {
            Some((k, m)) => classifier_text(k, m),
            None => seq![],
        },
{
    let mut r = sanitize_filename(name);
    match class {
        Some((k, m)) => {
            let c = get_classifier(k, m);
            r.append(c.as_str());
        },
        None => {},
    }
    r
}

/// The short listing's entries joined: each followed by two spaces.
pub open spec fn short_line(entries: Seq<Seq<char>>) -> Seq<char>
    decreases entries.len(),
{
    if entries.len() == 0 {
        seq![]
    } else {
        short_line(entries.drop_last()) + entries.last() + "  "@
    }
}

/// The line of the short listing (see `short_line`).
pub fn short_listing(entries: &Vec<String>) -> (r: String)
    ensures
        r@ == short_line(views(entries@)),
{
    let ghost e = views(entries@);
    let mut r = String::new();
    let mut i: usize = 0;
    while i < entries.len()
        invariant
            i <= entries.len(),
            e == views(entries@),
            r@ == short_line(e.take(i as int)),
        decreases entries.len() - i,
    {
        assert(e.take(i + 1).drop_last() =~= e.take(i as int));
        r.append(entries[i].as_str());
        r.append("  ");
        i = i + 1;
    }
    assert(e.take(entries.len() as int) =~= e);
    r
}

/// The target of a symbolic link, as the long listing shows it.
#[derive(Debug)]
pub struct LinkTarget {
    /// The link's contents.
    pub text: String,
    /// The target's type and mode, when `-F` is asked for and the target exists.
    pub class: Option<(FileKind, u32)>,
}

/// The name column of the long listing: the shown name; with `-F` the
/// suffix of any entry but a link; for a link whose target can be read,
/// ` -> ` and the target, with the target's suffix when known.
pub open spec fn long_name(
    name: Seq<char>,
    kind: FileKind,
    mode: u32,
    classify: bool,
    target: Option<(Seq<char>, Option<(FileKind, u32)>)>,
) -> Seq<char> {
    let base = sanitized(name) + if classify && kind != FileKind::Symlink {
        classifier_text(kind, mode)
    } else {
        seq![]
    };
    match target {
        Some((t, tc)) if kind == FileKind::Symlink => base + " -> "@ + t + match tc {
            Some((k, m)) => classifier_text(k, m),
            None => seq![],
        },
        _ => base,
    }
}

/// The name column of an entry (see `long_name`).
pub fn long_display_name(
    name: &str,
    kind: FileKind,
    mode: u32,
    classify: bool,
    target: Option<LinkTarget>,
) -> (r: String)
    ensures
        r@ == long_name(
            name@,
            kind,
            mode,
            classify,
            match target {
                Some(t) => Some((t.text@, t.class)),
                None => None,
            },
        ),
{
    let mut display_name = sanitize_filename(name);
    let is_symlink = kind == FileKind::Symlink;
    if classify && !is_symlink {
        let c = get_classifier(kind, mode);
        display_name.append(c.as_str());
    }
    if is_symlink {
        match target {
            Some(t) => {
                let mut target_display = t.text;
                match t.class {
                    Some((k, m)) => {
                        let c = get_classifier(k, m);
                        target_display.append(c.as_str());
                    },
                    None => {},
                }
                display_name.append(" -> ");
                display_name.append(target_display.as_str());
            },
            None => {},
        }
    }
    display_name
}

/// The size column's content: a size, or a device's major and minor numbers.
#[derive(Debug, Clone, Copy, PartialEq, Eq, Structural)]
pub enum SizeOrDevice {
    Size(u64),
    Device { major: u64, minor: u64 },
}

/// The size column of an entry: the device numbers of a character or block
/// device (from its device id `rdev`), else the length.
pub fn size_column(kind: FileKind, len: u64, rdev: u64) -> (r: SizeOrDevice)
    ensures
        r == if kind == FileKind::CharDevice || kind == FileKind::BlockDevice {
            SizeOrDevice::Device {
                major: (rdev >> 8u64) & 0xfff,
                minor: (rdev & 0xff) | ((rdev >> 12u64) & 0xfff00),
            }
        } else {
            SizeOrDevice::Size(len)
        },
{
    if kind == FileKind::CharDevice || kind == FileKind::BlockDevice {
        SizeOrDevice::Device { major: major(rdev), minor: minor(rdev) }
    } else {
        SizeOrDevice::Size(len)
    }
}

/// One entry of the long listing.
#[derive(Debug)]
pub struct FileInfo {
    pub permissions: String,
    pub nlinks: u64,
    pub user_name: String,
    pub group_name: String,
    pub size_or_device: SizeOrDevice,
    pub mod_time: String,
    pub display_name: String,
    /// The 512-byte blocks the entry occupies.
    pub blocks: u64,
}

/// The mathematical form of a `FileInfo`.
pub struct InfoView {
    pub permissions: Seq<char>,
    pub nlinks: u64,
    pub user: Seq<char>,
    pub group: Seq<char>,
    pub size: SizeOrDevice,
    pub mod_time: Seq<char>,
    pub display: Seq<char>,
    pub blocks: u64,
}

impl View for FileInfo {
    type V = InfoView;

    open spec fn view(&self) -> InfoView {
        InfoView {
            permissions: self.permissions@,
            nlinks: self.nlinks,
            user: self.user_name@,
            group: self.group_name@,
            size: self.size_or_device,
            mod_time: self.mod_time@,
            display: self.display_name@,
            blocks: self.blocks,
        }
    }
}

/// The column widths of the long listing.
pub struct Widths {
    pub links: nat,
    pub user: nat,
    pub group: nat,
    pub size: nat,
    pub major: nat,
    pub minor: nat,
    pub has_device: bool,
}

/// The length of the UTF-8 encoding of `s`, as `str::len` gives it.
pub open spec fn byte_len(s: Seq<char>) -> nat {
    (vstd::utf8::encode_utf8(s).len() as usize) as nat
}

/// The larger of two numbers.
pub open spec fn larger(a: nat, b: nat) -> nat {
    if a < b {
        b
    } else {
        a
    }
}

/// The widths over all entries: the widest link count, user name and group
/// name (in bytes), size, and device major and minor numbers, and whether
/// any entry is a device.
pub open spec fn widths(infos: Seq<InfoView>) -> Widths
    decreases infos.len(),
{
    if infos.len() == 0 {
        Widths { links: 0, user: 0, group: 0, size: 0, major: 0, minor: 0, has_device: false }
    } else {
        let w = widths(infos.drop_last());
        let f = infos.last();
        Widths {
            links: larger(w.links, decimal(f.nlinks as nat).len()),
            user: larger(w.user, byte_len(f.user)),
            group: larger(w.group, byte_len(f.group)),
            size: match f.size {
                SizeOrDevice::Size(s) => larger(w.size, decimal(s as nat).len()),
                _ => w.size,
            },
            major: match f.size {
                SizeOrDevice::Device { major, .. } => larger(w.major, decimal(major as nat).len()),
                _ => w.major,
            },
            minor: match f.size {
                SizeOrDevice::Device { minor, .. } => larger(w.minor, decimal(minor as nat).len()),
                _ => w.minor,
            },
            has_device: w.has_device || f.size is Device,
        }
    }
}

/// The size column's width: the widest size, or a device's `major, minor`
/// when wider.
pub open spec fn size_width(w: Widths) -> nat {
    larger(
        w.size,
        if w.has_device {
            w.major + 2 + w.minor
        } else {
            0
        },
    )
}

/// The size column of one entry, right-aligned.
pub open spec fn size_text(s: SizeOrDevice, w: Widths) -> Seq<char> {
    match s {
        SizeOrDevice::Size(n) => pad_left(decimal(n as nat), size_width(w)),
        SizeOrDevice::Device { major, minor } => pad_left(
            pad_left(decimal(major as nat), w.major) + ", "@ + pad_left(decimal(minor as nat), w.minor),
            size_width(w),
        ),
    }
}

/// One row of the long listing: permissions, link count (right-aligned),
/// user and group (left-aligned), size, time and name, separated by spaces.
pub open spec fn long_row(f: InfoView, w: Widths) -> Seq<char> {
    f.permissions + " "@ + pad_left(decimal(f.nlinks as nat), w.links) + " "@ + pad_right(
        f.user,
        w.user,
    ) + " "@ + pad_right(f.group, w.group) + " "@ + size_text(f.size, w) + " "@ + f.mod_time + " "@
        + f.display
}

/// The sum of the entries' blocks, wrapping around at 2^64.
pub open spec fn total_blocks(infos: Seq<InfoView>) -> u64
    decreases infos.len(),
{
    if infos.len() == 0 {
        0
    } else {
        total_blocks(infos.drop_last()).wrapping_add(infos.last().blocks)
    }
}

/// The first line of the long listing: half the total of blocks, that is
/// in kilobytes.
pub open spec fn total_text(infos: Seq<InfoView>) -> Seq<char> {
    "total "@ + decimal((total_blocks(infos) / 2) as nat)
}

/// The views of a list of entries.
pub open spec fn info_views(infos: Seq<FileInfo>) -> Seq<InfoView> {
    infos.map_values(|f: FileInfo| f@)
}

/// The long listing's lines: the total, then one row per entry.
pub fn long_listing(infos: &Vec<FileInfo>) -> (lines: Vec<String>)
    ensures
        lines.len() == infos.len() + 1,
        lines@[0]@ == total_text(info_views(infos@)),
        forall|k: int|
            0 <= k < infos.len() ==> #[trigger] lines@[k + 1]@ == long_row(
                info_views(infos@)[k],
                widths(info_views(infos@)),
            ),
{
    let ghost v = info_views(infos@);
    let mut links: usize = 0;
    let mut user: usize = 0;
    let mut group: usize = 0;
    let mut size: usize = 0;
    let mut maj: usize = 0;
    let mut min: usize = 0;
    let mut has_device = false;
    let mut total: u64 = 0;
    let mut i: usize = 0;
    while i < infos.len()
        invariant
            i <= infos.len(),
            v == info_views(infos@),
            ({
                let w = widths(v.take(i as int));
                &&& links == w.links && user == w.user && group == w.group
                &&& size == w.size && maj == w.major && min == w.minor
                &&& has_device == w.has_device
                &&& maj <= 20 && min <= 20
            }),
            total == total_blocks(v.take(i as int)),
        decreases infos.len() - i,
    {
        assert(v.take(i + 1).drop_last() =~= v.take(i as int));
        let f = &infos[i];
        let lw = decimal_width(f.nlinks);
        if links < lw {
            links = lw;
        }
        let uw = f.user_name.as_str().len();
        if user < uw {
            user = uw;
        }
        let gw = f.group_name.as_str().len();
        if group < gw {
            group = gw;
        }
        match f.size_or_device {
            SizeOrDevice::Size(n) => {
                let sw = decimal_width(n);
                if size < sw {
                    size = sw;
                }
            },
            SizeOrDevice::Device { major, minor } => {
                has_device = true;
                let aw = decimal_width(major);
                let bw = decimal_width(minor);
                if maj < aw {
                    maj = aw;
                }
                if min < bw {
                    min = bw;
                }
            },
        }
        total = total.wrapping_add(f.blocks);
        i = i + 1;
    }
    assert(v.take(infos.len() as int) =~= v);
    let device_space = if has_device {
        maj + 2 + min
    } else {
        0
    };
    let final_width = if size < device_space {
        device_space
    } else {
        size
    };
    let ghost w = widths(v);
    let mut lines: Vec<String> = Vec::new();
    let mut head = String::from_str("total ");
    let digits = decimal_chars(total / 2);
    let ds = string_from_chars(&digits);
    head.append(ds.as_str());
    lines.push(head);
    let mut k: usize = 0;
    while k < infos.len()
        invariant
            k <= infos.len(),
            v == info_views(infos@),
            w == widths(v),
            links == w.links && user == w.user && group == w.group && maj == w.major && min == w.minor,
            final_width == size_width(w),
            lines.len() == k + 1,
            lines@[0]@ == total_text(v),
            forall|m: int| 0 <= m < k ==> #[trigger] lines@[m + 1]@ == long_row(v[m], w),
        decreases infos.len() - k,
    {
        let f = &infos[k];
        let mut row = String::new();
        row.append(f.permissions.as_str());
        row.append(" ");
        let nl = string_from_chars(&decimal_chars(f.nlinks));
        push_right_aligned(&mut row, nl.as_str(), links);
        row.append(" ");
        push_left_aligned(&mut row, f.user_name.as_str(), user);
        row.append(" ");
        push_left_aligned(&mut row, f.group_name.as_str(), group);
        row.append(" ");
        match f.size_or_device {
            SizeOrDevice::Size(n) => {
                let t = string_from_chars(&decimal_chars(n));
                push_right_aligned(&mut row, t.as_str(), final_width);
            },
            SizeOrDevice::Device { major, minor } => {
                let mut dev = String::new();
                let a = string_from_chars(&decimal_chars(major));
                push_right_aligned(&mut dev, a.as_str(), maj);
                dev.append(", ");
                let b = string_from_chars(&decimal_chars(minor));
                push_right_aligned(&mut dev, b.as_str(), min);
                push_right_aligned(&mut row, dev.as_str(), final_width);
            },
        }
        row.append(" ");
        row.append(f.mod_time.as_str());
        row.append(" ");
        row.append(f.display_name.as_str());
        proof {
            assert(v[k as int] == infos@[k as int]@);
            assert(row@ =~= long_row(v[k as int], w));
        }
        lines.push(row);
        k = k + 1;
    }
    lines
}

/// How the long listing shows a modification time.
#[derive(Debug, Clone, Copy, PartialEq, Eq, Structural)]
pub enum TimeStyle {
    /// Month, day, hour and minute: `%b %e %H:%M`.
    Recent,
    /// Month, day and year: `%b %e  %Y`.
    Old,
}

/// A time given as seconds and nanoseconds since the epoch, in nanoseconds.
pub open spec fn nanos_of(secs: i64, nanos: u32) -> int {
    secs * 1_000_000_000 + nanos
}

/// The time the long listing shows for a modification time, and how: it
/// shows the modification time plus one hour, with the year when that is
/// more than 182 days before now.
pub fn time_column(mod_secs: i64, mod_nanos: u32, now_secs: i64, now_nanos: u32) -> (r: (i64, TimeStyle))
    requires
        mod_secs <= i64::MAX - 3600,
    ensures
        r.0 == mod_secs + 3600,
        r.1 == if nanos_of(r.0, mod_nanos) < nanos_of(now_secs, now_nanos) - 182 * 86400 * 1_000_000_000 {
            TimeStyle::Old
        } else {
            TimeStyle::Recent
        },
{
    let shown = mod_secs + 3600;
    let a: i128 = shown as i128 * 1_000_000_000 + mod_nanos as i128;
    let b: i128 = now_secs as i128 * 1_000_000_000 + now_nanos as i128 - 15_724_800_000_000_000;
    let style = if a < b {
        TimeStyle::Old
    } else {
        TimeStyle::Recent
    };
    (shown, style)
}

/// The `strftime` pattern of a time style.
pub fn time_pattern(style: TimeStyle) -> (p: String)
    ensures
        p@ == match style {
            TimeStyle::Recent => "%b %e %H:%M"@,
            TimeStyle::Old => "%b %e  %Y"@,
        },
{
    match style {
        TimeStyle::Recent => String::from_str("%b %e %H:%M"),
        TimeStyle::Old => String::from_str("%b %e  %Y"),
    }
}

/// `s` holds no control character.
pub open spec fn no_control(s: Seq<char>) -> bool {
    forall|i: int| 0 <= i < s.len() ==> !is_control(#[trigger] s[i])
}

proof fn lemma_no_control_concat(a: Seq<char>, b: Seq<char>)
    requires
        no_control(a),
        no_control(b),
    ensures
        no_control(a + b),
{
    assert forall|i: int| 0 <= i < (a + b).len() implies !is_control(#[trigger] (a + b)[i]) by {
        if i < a.len() {
            assert((a + b)[i] == a[i]);
        } else {
            assert((a + b)[i] == b[i - a.len()]);
        }
    }
}

proof fn lemma_escape_no_control(c: char)
    requires
        needs_ansi_escape(c),
    ensures
        no_control(ansi_escape(c)),
{
    reveal_strlit("$'\\t'");
    reveal_strlit("$'\\n'");
    reveal_strlit("'\\''");
    reveal_strlit("$'\\\\'");
    reveal_strlit("$'\\x");
    reveal_strlit("'");
    let v = c as nat;
    assert(!is_control(hex_char(v / 16)));
    assert(!is_control(hex_char(v % 16)));
    assert(no_control(hex2(v)));
    if c != '\t' && c != '\n' && c != '\'' && c != '\\' {
        lemma_no_control_concat("$'\\x"@, hex2(v));
        lemma_no_control_concat("$'\\x"@ + hex2(v), "'"@);
    }
}

proof fn lemma_quote_run_no_control(run: Seq<char>)
    requires
        no_control(run),
    ensures
        no_control(quote_run(run)),
{
    if run.len() > 0 {
        lemma_no_control_concat(seq!['\''], run);
        lemma_no_control_concat(seq!['\''] + run, seq!['\'']);
    }
}

proof fn lemma_ansi_scan_no_control(s: Seq<char>)
    ensures
        no_control(ansi_scan(s).0),
        no_control(ansi_scan(s).1),
    decreases s.len(),
{
    if s.len() > 0 {
        lemma_ansi_scan_no_control(s.drop_last());
        let (out, run) = ansi_scan(s.drop_last());
        let c = s.last();
        if needs_ansi_escape(c) {
            lemma_quote_run_no_control(run);
            lemma_escape_no_control(c);
            lemma_no_control_concat(out, quote_run(run));
            lemma_no_control_concat(out + quote_run(run), ansi_escape(c));
        } else {
            assert forall|i: int| 0 <= i < run.push(c).len() implies !is_control(#[trigger] run.push(c)[i]) by {
                if i < run.len() {
                    assert(run.push(c)[i] == run[i]);
                }
            }
        }
    }
}

proof fn lemma_escape_quotes_no_control(s: Seq<char>)
    requires
        no_control(s),
    ensures
        no_control(escape_quotes(s)),
    decreases s.len(),
{
    if s.len() > 0 {
        assert(no_control(s.drop_last())) by {
            assert forall|i: int| 0 <= i < s.drop_last().len() implies !is_control(#[trigger] s.drop_last()[i]) by {
                assert(s.drop_last()[i] == s[i]);
            }
        }
        lemma_escape_quotes_no_control(s.drop_last());
        reveal_strlit("'\\''");
        let tail = if s.last() == '\'' {
            "'\\''"@
        } else {
            seq![s.last()]
        };
        assert(no_control(tail));
        lemma_no_control_concat(escape_quotes(s.drop_last()), tail);
    }
}

/// A name as `ls` shows it never holds a control character: tabs, line
/// breaks and other control codes are always written as escapes.
pub proof fn lemma_sanitized_has_no_control(s: Seq<char>)
    ensures
        no_control(sanitized(s)),
{
    if exists|i: int| 0 <= i < s.len() && is_control(#[trigger] s[i]) {
        lemma_ansi_scan_no_control(s);
        lemma_quote_run_no_control(ansi_scan(s).1);
        lemma_no_control_concat(ansi_scan(s).0, quote_run(ansi_scan(s).1));
    } else if exists|i: int| 0 <= i < s.len() && is_shell_special(#[trigger] s[i]) {
        lemma_escape_quotes_no_control(s);
        lemma_no_control_concat(seq!['\''], escape_quotes(s));
        lemma_no_control_concat(seq!['\''] + escape_quotes(s), seq!['\'']);
    }
}

/// The permission column is ten characters, eleven with extended attributes.
pub proof fn lemma_permission_text_len(kind: FileKind, mode: u32, has_xattr: bool)
    ensures
        permission_text(kind, mode, has_xattr).len() == if has_xattr {
            11int
        } else {
            10int
        },
{
}

proof fn lemma_widths_bound(infos: Seq<InfoView>, k: int)
    requires
        0 <= k < infos.len(),
    ensures
        ({
            let w = widths(infos);
            let f = infos[k];
            &&& decimal(f.nlinks as nat).len() <= w.links
            &&& byte_len(f.user) <= w.user
            &&& byte_len(f.group) <= w.group
            &&& (f.size matches SizeOrDevice::Size(n) ==> decimal(n as nat).len() <= w.size)
            &&& (f.size matches SizeOrDevice::Device { major, minor } ==> w.has_device && decimal(
                major as nat,
            ).len() <= w.major && decimal(minor as nat).len() <= w.minor)
        }),
    decreases infos.len(),
{
    if k < infos.len() - 1 {
        lemma_widths_bound(infos.drop_last(), k);
        assert(infos.drop_last()[k] == infos[k]);
    }
}

/// A string has no more characters than bytes in UTF-8.
proof fn lemma_chars_within_bytes(s: Seq<char>)
    ensures
        s.len() <= vstd::utf8::encode_utf8(s).len(),
    decreases s.len(),
{
    if s.len() > 0 {
        lemma_chars_within_bytes(s.drop_first());
        assert(vstd::utf8::encode_scalar(s[0] as u32).len() >= 1);
    }
}

/// The long listing's columns line up: in every row the link count, the
/// user and group names and the size each take their column's width.
pub proof fn lemma_long_rows_aligned(infos: Seq<InfoView>, k: int)
    requires
        0 <= k < infos.len(),
        forall|i: int|
            0 <= i < infos.len() ==> vstd::utf8::encode_utf8(#[trigger] infos[i].user).len() <= usize::MAX
                && vstd::utf8::encode_utf8(infos[i].group).len() <= usize::MAX,
    ensures
        pad_left(decimal(infos[k].nlinks as nat), widths(infos).links).len() == widths(infos).links,
        pad_right(infos[k].user, widths(infos).user).len() == widths(infos).user,
        pad_right(infos[k].group, widths(infos).group).len() == widths(infos).group,
        size_text(infos[k].size, widths(infos)).len() == size_width(widths(infos)),
{
    lemma_widths_bound(infos, k);
    lemma_chars_within_bytes(infos[k].user);
    lemma_chars_within_bytes(infos[k].group);
    let w = widths(infos);
    match infos[k].size {
        SizeOrDevice::Size(n) => {},
        SizeOrDevice::Device { major, minor } => {
            let inner = pad_left(decimal(major as nat), w.major) + ", "@ + pad_left(
                decimal(minor as nat),
                w.minor,
            );
            reveal_strlit(", ");
            assert(inner.len() == w.major + 2 + w.minor);
        },
    }
}

/// The message when a path cannot be listed for `reason`.
pub fn access_error_message(path: &str, reason: &str) -> (m: String)
    ensures
        m@ == "ls: cannot access '"@ + path@ + "': "@ + reason@,
{
    let mut m = String::from_str("ls: cannot access '");
    m.append(path);
    m.append("': ");
    m.append(reason);
    m
}

/// The header before a path's listing: the path and `:`, when several
/// paths are listed.
pub fn listing_header(path: &str, path_count: usize) -> (h: Option<String>)
    ensures
        path_count > 1 ==> (h matches Some(t) && t@ == path@ + ":"@),
        path_count <= 1 ==> h is None,
{
    if path_count > 1 {
        let mut t = String::from_str(path);
        t.append(":");
        Some(t)
    } else {
        None
    }
}

/// Whether a blank line follows the listing of the path at `index`: between
/// the listings of several paths, not after the last.
pub fn blank_line_after(index: usize, path_count: usize) -> (b: bool)
    ensures
        b == (path_count > 1 && index + 1 < path_count),
{
    path_count > 1 && index < path_count - 1
}

} // verus!
