//! The pure parts of `echo`: what each argument stands for, the entries
//! that `*` stands for, and the output line.

use vstd::prelude::*;

use crate::builtins::ls::{shown_entries, stably_sorted, sort_by_keys, visible_entries};
use crate::order::{chars_le, is_stable_order};
use crate::text::{chars_of, skip_chars, starts_with_char, str_eq, views};

verus! {

/// What an argument of `echo` stands for.
#[derive(Debug)]
pub enum EchoWord {
    /// Itself.
    Literal(String),
    /// The value of the named environment variable, or nothing when unset.
    Variable(String),
    /// The current directory's non-hidden entries, sorted.
    DirectoryEntries,
}

/// The mathematical form of an `EchoWord`.
pub enum Word {
    Literal(Seq<char>),
    Variable(Seq<char>),
    DirectoryEntries,
}

impl View for EchoWord {
    type V = Word;

    open spec fn view(&self) -> Word {
        match self {
            EchoWord::Literal(s) => Word::Literal(s@),
            EchoWord::Variable(s) => Word::Variable(s@),
            EchoWord::DirectoryEntries => Word::DirectoryEntries,
        }
    }
}

/// `*` stands for the directory's entries, `$NAME` (with a name) for a
/// variable, anything else for itself.
pub open spec fn echo_word(arg: Seq<char>) -> Word {
    if arg == seq!['*'] {
        Word::DirectoryEntries
    } else if arg.len() > 1 && arg[0] == '$' {
        Word::Variable(arg.drop_first())
    } else {
        Word::Literal(arg)
    }
}

/// What each argument of `echo` stands for (see `echo_word`).
pub fn echo_words(args: &Vec<String>) -> (r: Vec<EchoWord>)
    ensures
        r.len() == args.len(),
        forall|i: int| 0 <= i < args.len() ==> #[trigger] r@[i]@ == echo_word(args@[i]@),
{
    let mut r: Vec<EchoWord> = Vec::new();
    let mut i: usize = 0;
    while i < args.len()
        invariant
            i <= args.len(),
            r.len() == i,
            forall|j: int| 0 <= j < i ==> #[trigger] r@[j]@ == echo_word(args@[j]@),
        decreases args.len() - i,
    {
        let a = args[i].as_str();
        proof {
            reveal_strlit("*");
            assert("*"@ =~= seq!['*']);
        }
        let w = if str_eq(a, "*") {
            EchoWord::DirectoryEntries
        } else if starts_with_char(a, '$') && a.unicode_len() > 1 {
            EchoWord::Variable(skip_chars(a, 1))
        } else {
            EchoWord::Literal(args[i].clone())
        };
        r.push(w);
        i = i + 1;
    }
    r
}

/// The entries that `*` stands for: the names that do not begin with a
/// dot, sorted stably by `str`'s order.
pub fn glob_entries(names: Vec<String>) -> (r: Vec<String>)
    ensures
        ({
            let shown = shown_entries(views(names@), false);
            stably_sorted(shown, views(r@), shown)
        }),
        forall|k: int, l: int| 0 <= k < l < r.len() ==> chars_le(#[trigger] r@[k]@, #[trigger] r@[l]@),
{
    let mut files = visible_entries(names, false);
    let mut keys: Vec<Vec<char>> = Vec::new();
    let mut i: usize = 0;
    while i < files.len()
        invariant
            i <= files.len(),
            keys.len() == i,
            forall|j: int| 0 <= j < i ==> #[trigger] keys@[j]@ == files@[j]@,
        decreases files.len() - i,
    {
        keys.push(chars_of(files[i].as_str()));
        i = i + 1;
    }
    assert(keys@.map_values(|k: Vec<char>| k@) =~= views(files@));
    let ghost before = views(files@);
    sort_by_keys(&mut files, &keys);
    proof {
        lemma_sorted_by_name(before, views(files@));
        assert forall|k: int, l: int| 0 <= k < l < files.len() implies chars_le(
            #[trigger] files@[k]@,
            #[trigger] files@[l]@,
        ) by {
            assert(views(files@)[k] == files@[k]@ && views(files@)[l] == files@[l]@);
        }
    }
    files
}

/// Names sorted stably by themselves are in order: each comes before or
/// equals every later one.
pub proof fn lemma_sorted_by_name(old_v: Seq<Seq<char>>, new_v: Seq<Seq<char>>)
    requires
        stably_sorted(old_v, new_v, old_v),
    ensures
        forall|k: int, l: int| 0 <= k < l < new_v.len() ==> chars_le(#[trigger] new_v[k], #[trigger] new_v[l]),
{
    let order = choose|order: Seq<int>|
        #![trigger is_stable_order(old_v, order)]
        is_stable_order(old_v, order) && new_v.len() == old_v.len() && forall|k: int|
            0 <= k < new_v.len() ==> #[trigger] new_v[k] == old_v[order[k]];
    assert forall|k: int, l: int| 0 <= k < l < new_v.len() implies chars_le(#[trigger] new_v[k], #[trigger] new_v[l]) by {
        assert(chars_le(old_v[order[k]], old_v[order[l]]));
        assert(new_v[k] == old_v[order[k]] && new_v[l] == old_v[order[l]]);
    }
}

/// The words joined by single spaces.
pub open spec fn joined(words: Seq<Seq<char>>) -> Seq<char>
    decreases words.len(),
{
    if words.len() == 0 {
        seq![]
    } else if words.len() == 1 {
        words[0]
    } else {
        joined(words.drop_last()) + " "@ + words.last()
    }
}

/// `echo`'s output line: the words joined by single spaces.
pub fn join_words(words: &Vec<String>) -> (r: String)
    ensures
        r@ == joined(views(words@)),
{
    let ghost w = views(words@);
    let mut r = String::new();
    let mut i: usize = 0;
    while i < words.len()
        invariant
            i <= words.len(),
            w == views(words@),
            r@ == joined(w.take(i as int)),
        decreases words.len() - i,
    {
        assert(w.take(i + 1).drop_last() =~= w.take(i as int));
        if i > 0 {
            r.append(" ");
        }
        r.append(words[i].as_str());
        proof {
            if i == 0 {
                assert(r@ =~= joined(w.take(1)));
            }
        }
        i = i + 1;
    }
    assert(w.take(words.len() as int) =~= w);
    r
}

} // verus!
