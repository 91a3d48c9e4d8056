//! Sets of vertex indices as strictly increasing sequences.

use vstd::prelude::*;

verus! {

/// The entries of `s` are strictly increasing.
pub open spec fn increasing(s: Seq<usize>) -> bool {
    forall|i: int, j: int| 0 <= i < j < s.len() ==> s[i] < s[j]
}

/// `p` is the place of `x` in the increasing sequence `s`: what stands
/// before it is smaller, what stands from it on is not.
pub open spec fn is_insertion_point(s: Seq<usize>, x: usize, p: int) -> bool {
    &&& 0 <= p <= s.len()
    &&& forall|k: int| 0 <= k < p ==> s[k] < x
    &&& forall|k: int| p <= k < s.len() ==> s[k] >= x
}

/// The place of `x` in `s`.
pub open spec fn insertion_point(s: Seq<usize>, x: usize) -> int {
    choose|p: int| is_insertion_point(s, x, p)
}

/// `s` with `x` entered at its place, unless `s` holds it already.
pub open spec fn insert_sorted(s: Seq<usize>, x: usize) -> Seq<usize> {
    let p = insertion_point(s, x);
    if p < s.len() && s[p] == x {
        s
    } else {
        s.insert(p, x)
    }
}

/// The indices of a set, in increasing order.
pub open spec fn sorted_indices(s: Set<usize>) -> Seq<usize> {
    choose|q: Seq<usize>| increasing(q) && q.to_set() == s
}

/// Two increasing sequences that hold the same indices are equal.
pub proof fn lemma_increasing_unique(a: Seq<usize>, b: Seq<usize>)
    requires
        increasing(a),
        increasing(b),
        forall|y: usize| a.contains(y) <==> b.contains(y),
    ensures
        a == b,
    decreases a.len(),
{
    if a.len() == 0 {
        if b.len() > 0 {
            assert(b.contains(b[0]));
        }
        assert(a =~= b);
    } else {
        let x = a.last();
        assert(a.contains(x));
        let j = b.index_of(x);
        assert(b.contains(b.last()));
        let i = a.index_of(b.last());
        assert(a[i] == b.last());
        assert(b.last() == x);
        let a1 = a.drop_last();
        let b1 = b.drop_last();
        assert forall|y: usize| a1.contains(y) <==> b1.contains(y) by {
            if a1.contains(y) {
                let k = a1.index_of(y);
                assert(a[k] == y);
                assert(a.contains(y));
                let m = b.index_of(y);
                assert(b1[m] == y);
            }
            if b1.contains(y) {
                let k = b1.index_of(y);
                assert(b[k] == y);
                assert(b.contains(y));
                let m = a.index_of(y);
                assert(a1[m] == y);
            }
        }
        lemma_increasing_unique(a1, b1);
        assert(a =~= a1.push(x));
        assert(b =~= b1.push(x));
    }
}

/// An increasing sequence is the sequence of the indices that it holds.
pub proof fn lemma_sorted_indices(q: Seq<usize>)
    requires
        increasing(q),
    ensures
        sorted_indices(q.to_set()) == q,
{
    let r = sorted_indices(q.to_set());
    assert(increasing(r) && r.to_set() == q.to_set());
    assert forall|y: usize| r.contains(y) <==> q.contains(y) by {
        assert(r.to_set().contains(y) <==> q.to_set().contains(y));
    }
    lemma_increasing_unique(r, q);
}

/// The indices of a set with one more index are those of the set with the
/// index entered at its place.
pub proof fn lemma_sorted_indices_insert(q: Seq<usize>, x: usize)
    requires
        increasing(q),
    ensures
        sorted_indices(q.to_set().insert(x)) == insert_sorted(q, x),
        increasing(insert_sorted(q, x)),
        insert_sorted(q, x).to_set() == q.to_set().insert(x),
        forall|y: usize| #[trigger] insert_sorted(q, x).contains(y) <==> (q.contains(y) || y == x),
        insert_sorted(q, x).len() <= q.len() + 1,
{
    lemma_insert_sorted(q, x);
    assert(insert_sorted(q, x).to_set() =~= q.to_set().insert(x));
    lemma_sorted_indices(insert_sorted(q, x));
}

/// A sequence has at most one insertion point for a value.
pub proof fn lemma_insertion_point_unique(s: Seq<usize>, x: usize, p: int)
    requires
        is_insertion_point(s, x, p),
    ensures
        insertion_point(s, x) == p,
{
    let q = insertion_point(s, x);
    assert(is_insertion_point(s, x, q));
    if q < p {
        assert(s[q] < x);
    }
    if p < q {
        assert(s[p] < x);
    }
}

/// What `insert_sorted` returns is increasing again, and holds `x` besides
/// what `s` held.
pub proof fn lemma_insert_sorted(s: Seq<usize>, x: usize)
    requires
        increasing(s),
    ensures
        increasing(insert_sorted(s, x)),
        forall|y: usize| #[trigger] insert_sorted(s, x).contains(y) <==> (s.contains(y) || y == x),
        insert_sorted(s, x).len() <= s.len() + 1,
{
    lemma_insertion_point_exists(s, x, 0);
    let p = insertion_point(s, x);
    let r = insert_sorted(s, x);
    if p < s.len() && s[p] == x {
    } else {
        assert forall|y: usize| #[trigger] r.contains(y) <==> (s.contains(y) || y == x) by {
            assert(r[p] == x);
            if s.contains(y) {
                let k = s.index_of(y);
                if k < p {
                    assert(r[k] == y);
                } else {
                    assert(r[k + 1] == y);
                }
            }
            if r.contains(y) {
                let k = r.index_of(y);
                if k < p {
                    assert(s[k] == y);
                } else if k > p {
                    assert(s[k - 1] == y);
                }
            }
        }
    }
}

/// An increasing sequence has an insertion point for every value.
pub proof fn lemma_insertion_point_exists(s: Seq<usize>, x: usize, p: int)
    requires
        increasing(s),
        0 <= p <= s.len(),
        forall|k: int| 0 <= k < p ==> s[k] < x,
    ensures
        exists|q: int| is_insertion_point(s, x, q),
        is_insertion_point(s, x, insertion_point(s, x)),
    decreases s.len() - p,
{
    if p < s.len() && s[p] < x {
        lemma_insertion_point_exists(s, x, p + 1);
    } else {
        assert(is_insertion_point(s, x, p));
    }
}

/// A copy of a vector of indices.
pub fn copy_indices(v: &Vec<usize>) -> (r: Vec<usize>)
    ensures
        r@ == v@,
{
    let mut r: Vec<usize> = Vec::new();
    let mut i: usize = 0;
    while i < v.len()
        invariant
            i <= v@.len(),
            r@ == v@.take(i as int),
        decreases v@.len() - i,
    {
        r.push(v[i]);
        assert(r@ =~= v@.take(i + 1));
        i = i + 1;
    }
    assert(v@.take(v@.len() as int) =~= v@);
    r
}

/// Whether two vectors hold the same indices in the same order.
pub fn same_indices(a: &Vec<usize>, b: &Vec<usize>) -> (r: bool)
    ensures
        r == (a@ == b@),
{
    if a.len() != b.len() {
        return false;
    }
    let mut i: usize = 0;
    while i < a.len()
        invariant
            a@.len() == b@.len(),
            i <= a@.len(),
            forall|k: int| 0 <= k < i ==> a@[k] == b@[k],
        decreases a@.len() - i,
    {
        if a[i] != b[i] {
            return false;
        }
        i = i + 1;
    }
    assert(a@ =~= b@);
    true
}

} // verus!
