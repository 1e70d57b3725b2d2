//! Lexicographic order on character sequences and a stable sort by keys.

use vstd::prelude::*;

verus! {

/// `a` comes before or equals `b` in lexicographic order of code points,
/// the order of `str`'s comparison.
pub open spec fn chars_le(a: Seq<char>, b: Seq<char>) -> bool
    decreases a.len(),
{
    if a.len() == 0 {
        true
    } else if b.len() == 0 {
        false
    } else if a[0] != b[0] {
        (a[0] as int) < (b[0] as int)
    } else {
        chars_le(a.drop_first(), b.drop_first())
    }
}

/// `chars_le` is total.
pub proof fn lemma_chars_le_total(a: Seq<char>, b: Seq<char>)
    ensures
        chars_le(a, b) || chars_le(b, a),
    decreases a.len(),
{
    if a.len() > 0 && b.len() > 0 && a[0] == b[0] {
        lemma_chars_le_total(a.drop_first(), b.drop_first());
    }
}

/// `chars_le` is antisymmetric.
pub proof fn lemma_chars_le_antisymmetric(a: Seq<char>, b: Seq<char>)
    requires
        chars_le(a, b),
        chars_le(b, a),
    ensures
        a == b,
    decreases a.len(),
{
    if a.len() > 0 && b.len() > 0 {
        lemma_chars_le_antisymmetric(a.drop_first(), b.drop_first());
        assert(a =~= seq![a[0]] + a.drop_first());
        assert(b =~= seq![b[0]] + b.drop_first());
    } else {
        assert(a =~= b);
    }
}

/// `chars_le` is transitive.
pub proof fn lemma_chars_le_transitive(a: Seq<char>, b: Seq<char>, c: Seq<char>)
    requires
        chars_le(a, b),
        chars_le(b, c),
    ensures
        chars_le(a, c),
    decreases a.len(),
{
    if a.len() > 0 && b.len() > 0 && c.len() > 0 && a[0] == b[0] && b[0] == c[0] {
        lemma_chars_le_transitive(a.drop_first(), b.drop_first(), c.drop_first());
    }
}

/// `chars_le` is the lexicographic order of code points: a prefix comes
/// first, and otherwise the first position where the sequences differ
/// decides, by the code points there.
pub proof fn lemma_chars_le_is_code_point_order(a: Seq<char>, b: Seq<char>)
    ensures
        a.len() <= b.len() && a == b.take(a.len() as int) ==> chars_le(a, b),
        forall|i: int|
            #![trigger a[i], b[i]]
            0 <= i < a.len() && i < b.len() && a.take(i) == b.take(i) && a[i] != b[i] ==> (chars_le(a, b)
                <==> (a[i] as int) < (b[i] as int)),
    decreases a.len(),
{
    if a.len() > 0 && b.len() > 0 {
        lemma_chars_le_is_code_point_order(a.drop_first(), b.drop_first());
        if a.len() <= b.len() && a == b.take(a.len() as int) {
            assert(a.drop_first() =~= b.drop_first().take(a.drop_first().len() as int));
            assert(a[0] == b.take(a.len() as int)[0]);
        }
        assert forall|i: int|
            #![trigger a[i], b[i]]
            0 <= i < a.len() && i < b.len() && a.take(i) == b.take(i) && a[i] != b[i] implies (chars_le(a, b)
                <==> (a[i] as int) < (b[i] as int)) by {
            if i > 0 {
                assert(a[0] == a.take(i)[0] && b[0] == b.take(i)[0]);
                assert(a.drop_first().take(i - 1) =~= a.take(i).drop_first());
                assert(b.drop_first().take(i - 1) =~= b.take(i).drop_first());
                assert(a.drop_first()[i - 1] == a[i] && b.drop_first()[i - 1] == b[i]);
            }
        }
    }
}

/// Compares two character sequences (see `chars_le`): in lexicographic
/// order of code points.
pub fn chars_le_exec(a: &Vec<char>, b: &Vec<char>) -> (r: bool)
    ensures
        r == chars_le(a@, b@),
        a@.len() <= b@.len() && a@ == b@.take(a@.len() as int) ==> r,
        forall|i: int|
            #![trigger a@[i], b@[i]]
            0 <= i < a@.len() && i < b@.len() && a@.take(i) == b@.take(i) && a@[i] != b@[i] ==> (r
                <==> (a@[i] as int) < (b@[i] as int)),
{
    proof {
        lemma_chars_le_is_code_point_order(a@, b@);
    }
    let mut i: usize = 0;
    assert(a@.skip(0) =~= a@ && b@.skip(0) =~= b@);
    while i < a.len() && i < b.len() && a[i] == b[i]
        invariant
            i <= a.len(),
            i <= b.len(),
            chars_le(a@, b@) == chars_le(a@.skip(i as int), b@.skip(i as int)),
        decreases a.len() - i,
    {
        assert(a@.skip(i as int).drop_first() =~= a@.skip(i + 1));
        assert(b@.skip(i as int).drop_first() =~= b@.skip(i + 1));
        i = i + 1;
    }
    assert(i < a.len() ==> a@.skip(i as int)[0] == a@[i as int]);
    assert(i < b.len() ==> b@.skip(i as int)[0] == b@[i as int]);
    if i == a.len() {
        true
    } else if i == b.len() {
        false
    } else {
        a[i] < b[i]
    }
}

/// `order` lists each index of `keys` once, sorted by key, with equal keys
/// in their original order: what a stable sort by these keys does.
pub open spec fn is_stable_order(keys: Seq<Seq<char>>, order: Seq<int>) -> bool {
    &&& order.len() == keys.len()
    &&& forall|k: int| 0 <= k < order.len() ==> 0 <= #[trigger] order[k] < keys.len()
    &&& forall|k: int, l: int| 0 <= k < l < order.len() ==> order[k] != order[l]
    &&& forall|k: int, l: int|
        0 <= k < l < order.len() ==> chars_le(#[trigger] keys[order[k]], #[trigger] keys[order[l]])
    &&& forall|k: int, l: int|
        0 <= k < l < order.len() && keys[order[k]] == keys[order[l]] ==> order[k] < order[l]
}

/// The indices of `keys` in stably sorted order (see `is_stable_order`).
pub fn stable_order(keys: &Vec<Vec<char>>) -> (order: Vec<usize>)
    ensures
        is_stable_order(keys@.map_values(|k: Vec<char>| k@), order@.map_values(|i: usize| i as int)),
{
    let ghost ks = keys@.map_values(|k: Vec<char>| k@);
    let n = keys.len();
    let mut order: Vec<usize> = Vec::new();
    let mut i: usize = 0;
    while i < n
        invariant
            n == keys.len(),
            ks == keys@.map_values(|k: Vec<char>| k@),
            i <= n,
            order.len() == i,
            forall|k: int| 0 <= k < i ==> 0 <= #[trigger] order@[k] < i,
            forall|k: int, l: int| 0 <= k < l < i ==> order@[k] != order@[l],
            forall|k: int, l: int|
                0 <= k < l < i ==> chars_le(#[trigger] ks[order@[k] as int], #[trigger] ks[order@[l] as int]),
            forall|k: int, l: int|
                0 <= k < l < i && ks[order@[k] as int] == ks[order@[l] as int] ==> order@[k] < order@[l],
        decreases n - i,
    {
        order.push(i);
        let mut j: usize = i;
        while j > 0 && !chars_le_exec(&keys[order[j - 1]], &keys[order[j]])
            invariant
                n == keys.len(),
                ks == keys@.map_values(|k: Vec<char>| k@),
                i < n,
                j <= i,
                order.len() == i + 1,
                order@[j as int] == i,
                forall|k: int| 0 <= k <= i ==> 0 <= #[trigger] order@[k] <= i,
                forall|k: int, l: int| 0 <= k < l <= i ==> order@[k] != order@[l],
                forall|k: int, l: int|
                    0 <= k < l <= i && k != j && l != j ==> chars_le(
                        #[trigger] ks[order@[k] as int],
                        #[trigger] ks[order@[l] as int],
                    ),
                forall|l: int|
                    j < l <= i ==> chars_le(ks[i as int], #[trigger] ks[order@[l] as int]) && ks[i as int]
                        != ks[order@[l] as int],
                forall|k: int, l: int|
                    0 <= k < j && j < l <= i ==> chars_le(#[trigger] ks[order@[k] as int], #[trigger] ks[order@[l] as int]),
                forall|k: int, l: int|
                    0 <= k < l <= i && ks[order@[k] as int] == ks[order@[l] as int] ==> order@[k]
                        < order@[l],
            decreases j,
        {
            let a = order[j - 1];
            let b = order[j];
            proof {
                lemma_chars_le_total(ks[a as int], ks[b as int]);
            }
            order.set(j - 1, b);
            order.set(j, a);
            j = j - 1;
        }
        proof {
            assert forall|k: int, l: int|
                0 <= k < l <= i implies chars_le(#[trigger] ks[order@[k] as int], #[trigger] ks[order@[l] as int]) by {
                if l == j as int && j > 0 {
                    lemma_chars_le_total(ks[order@[k] as int], ks[order@[l] as int]);
                    if k < j - 1 {
                        lemma_chars_le_transitive(
                            ks[order@[k] as int],
                            ks[order@[j - 1] as int],
                            ks[order@[l] as int],
                        );
                    }
                }
            }
        }
        i = i + 1;
    }
    proof {
        let o = order@.map_values(|i: usize| i as int);
        assert forall|k: int, l: int|
            0 <= k < l < o.len() implies chars_le(#[trigger] ks[o[k]], #[trigger] ks[o[l]]) by {
            assert(o[k] == order@[k] as int && o[l] == order@[l] as int);
        }
    }
    order
}

} // verus!
