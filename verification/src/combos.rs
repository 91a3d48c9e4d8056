//! The combinations of a vertex's successors, drawn from `itertools`.

use itertools::structs::Combinations;
use itertools::Itertools;
use vstd::prelude::*;

verus! {

/// The `k`-element combinations of `s`, each in the order of `s`, and all
/// of them in lexicographic order of the positions they take: first those
/// that begin with `s[0]`, then those that do not.
pub open spec fn combos(s: Seq<usize>, k: nat) -> Seq<Seq<usize>>
    decreases s.len(),
{
    if k == 0 {
        seq![Seq::empty()]
    } else if s.len() == 0 {
        Seq::empty()
    } else {
        combos(s.drop_first(), (k - 1) as nat).map_values(|c: Seq<usize>| seq![s[0]] + c)
            + combos(s.drop_first(), k)
    }
}

/// A sequence that is too short has no combinations.
pub proof fn lemma_combos_none(s: Seq<usize>, k: nat)
    requires
        k > s.len(),
    ensures
        combos(s, k).len() == 0,
    decreases s.len(),
{
    if s.len() > 0 {
        lemma_combos_none(s.drop_first(), (k - 1) as nat);
        lemma_combos_none(s.drop_first(), k);
    }
}

/// Every combination has `k` elements, and all of them are elements of `s`.
pub proof fn lemma_combos_members(s: Seq<usize>, k: nat, j: int)
    requires
        0 <= j < combos(s, k).len(),
    ensures
        combos(s, k)[j].len() == k,
        forall|i: int| 0 <= i < k ==> s.contains(#[trigger] combos(s, k)[j][i]),
    decreases s.len(),
{
    if k == 0 {
    } else if s.len() == 0 {
    } else {
        let with = combos(s.drop_first(), (k - 1) as nat);
        let without = combos(s.drop_first(), k);
        let c = combos(s, k)[j];
        if j < with.len() {
            lemma_combos_members(s.drop_first(), (k - 1) as nat, j);
            assert(c == seq![s[0]] + with[j]);
            assert forall|i: int| 0 <= i < k implies s.contains(#[trigger] c[i]) by {
                if i == 0 {
                    assert(s[0] == c[0]);
                } else {
                    assert(c[i] == with[j][i - 1]);
                    let p = s.drop_first().index_of(with[j][i - 1]);
                    assert(s[p + 1] == c[i]);
                }
            }
        } else {
            lemma_combos_members(s.drop_first(), k, j - with.len());
            assert(c == without[j - with.len()]);
            assert forall|i: int| 0 <= i < k implies s.contains(#[trigger] c[i]) by {
                let p = s.drop_first().index_of(c[i]);
                assert(s[p + 1] == c[i]);
            }
        }
    }
}

/// An `itertools::structs::Combinations` over the items of a vector: the
/// combinations of one vertex's successors, handed out one at a time.
#[verifier::external_body]
pub struct SuccessorCombinations {
    inner: Combinations<std::vec::IntoIter<usize>>,
}

/// The combinations that `c` has yet to hand out, in the order in which it
/// hands them out.
pub uninterp spec fn pending(c: SuccessorCombinations) -> Seq<Seq<usize>>;

/// `Itertools::combinations` on the items of a vector: the iterator hands
/// out the `k`-element combinations of the items in lexicographic order of
/// the positions taken, and one empty combination for `k == 0`. The
/// iterator keeps `k` positions from the start, so `k` may not exceed the
/// number of items, which have no combinations then.
#[verifier::external_body]
pub(crate) fn combinations(items: Vec<usize>, k: usize) -> (c: SuccessorCombinations)
    requires
        k <= items@.len(),
    ensures
        pending(c) == combos(items@, k as nat),
{
    SuccessorCombinations { inner: items.into_iter().combinations(k) }
}

/// `Iterator::next` of `Combinations`: the first of the pending
/// combinations, which is pending no longer, or nothing once none is left.
#[verifier::external_body]
pub(crate) fn next_combination(c: &mut SuccessorCombinations) -> (r: Option<Vec<usize>>)
    ensures
        match r {
            Some(v) => {
                &&& pending(*old(c)).len() > 0
                &&& v@ == pending(*old(c))[0]
                &&& pending(*final(c)) == pending(*old(c)).drop_first()
            },
            None => pending(*old(c)).len() == 0 && pending(*final(c)) == pending(*old(c)),
        },
{
    c.inner.next()
}

/// The views of vectors of indices.
pub open spec fn index_views(v: Seq<Vec<usize>>) -> Seq<Seq<usize>> {
    Seq::new(v.len(), |i: int| v[i]@)
}

/// All `k`-element combinations of the items, in the order in which they
/// are handed out.
pub fn all_combinations(items: Vec<usize>, k: usize) -> (r: Vec<Vec<usize>>)
    ensures
        index_views(r@) == combos(items@, k as nat),
{
    let ghost all = combos(items@, k as nat);
    let mut r: Vec<Vec<usize>> = Vec::new();
    if k > items.len() {
        proof {
            lemma_combos_none(items@, k as nat);
            assert(index_views(r@) =~= all);
        }
        return r;
    }
    let mut source = combinations(items, k);
    proof {
        assert(all.skip(0) =~= all);
        assert(index_views(r@) =~= all.take(0));
    }
    loop
        invariant_except_break
            pending(source) == all.skip(r@.len() as int),
        invariant
            r@.len() <= all.len(),
            index_views(r@) == all.take(r@.len() as int),
        ensures
            r@.len() == all.len(),
        decreases all.len() - r@.len(),
    {
        match next_combination(&mut source) {
            Some(c) => {
                proof {
                    assert(index_views(r@.push(c)) =~= all.take(r@.len() as int + 1));
                    assert(all.skip(r@.len() as int).drop_first() =~= all.skip(r@.len() as int + 1));
                }
                r.push(c);
            },
            None => {
                break ;
            },
        }
    }
    proof {
        assert(all.take(all.len() as int) =~= all);
    }
    r
}

} // verus!
