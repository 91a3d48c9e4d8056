//! Quorums of a trust graph.
//!
//! A set of validators is a quorum if the quorum set of each of its members
//! is satisfied within the set: threshold-many of its members are
//! validators of the set or inner quorum sets that are satisfied in turn.

use crate::combos::combos;
use crate::encoding::GraphView;
use vstd::prelude::*;

verus! {

impl GraphView {
    /// The number of validators.
    pub open spec fn count(self) -> nat {
        self.validators.len()
    }

    /// The validators are the first vertices, each with threshold 1 and its
    /// quorum set as its one successor; the members of a quorum set come
    /// before it.
    pub open spec fn structured(self) -> bool {
        &&& self.bounded()
        &&& self.count() <= self.len()
        &&& forall|i: int| 0 <= i < self.count() ==> #[trigger] self.validators[i] == i
        &&& forall|v: int|
            0 <= v < self.count() ==> {
                &&& #[trigger] self.thresholds[v] == 1
                &&& self.successors[v].len() == 1
                &&& self.count() <= self.successors[v][0]
            }
        &&& forall|v: int, k: int|
            self.count() <= v < self.len() && 0 <= k < self.successors[v].len() ==> (
            #[trigger] self.successors[v][k]) < v
    }

    /// The number of successors of vertex `q`, from place `k` on, that are
    /// with `s`.
    pub open spec fn backing(self, s: Set<usize>, q: int, k: int) -> nat
        decreases q, self.successors[q].len() - k,
    {
        if 0 <= q < self.len() && 0 <= k < self.successors[q].len() {
            let u = self.successors[q][k] as int;
            (if u < q && self.with(s, u) {
                1nat
            } else {
                0nat
            }) + self.backing(s, q, k + 1)
        } else {
            0
        }
    }

    /// Vertex `u` is with the set `s` of validators: it is a validator of
    /// `s`, or a quorum set with threshold-many members that are with `s`.
    pub open spec fn with(self, s: Set<usize>, u: int) -> bool
        decreases u, self.successors[u].len() + 1,
    {
        if 0 <= u < self.count() {
            s.contains(u as usize)
        } else if self.count() <= u < self.len() {
            self.backing(s, u, 0) >= self.thresholds[u]
        } else {
            false
        }
    }

    /// All members of the combination `c` are with `s`, and come before
    /// vertex `q`.
    pub open spec fn all_with(self, s: Set<usize>, q: int, c: Seq<usize>) -> bool {
        forall|i: int| 0 <= i < c.len() ==> (#[trigger] c[i]) < q && self.with(s, c[i] as int)
    }

    /// `s` is a quorum: a set of validators in which the quorum set of
    /// each member is satisfied.
    pub open spec fn is_quorum(self, s: Set<usize>) -> bool {
        forall|v: usize|
            s.contains(v) ==> v < self.count() && self.with(
                s,
                (#[trigger] self.successors[v as int])[0] as int,
            )
    }

    /// `a` and `b` are two disjoint quorums, neither empty: a witness that
    /// quorums of the graph need not intersect.
    pub open spec fn split(self, a: Set<usize>, b: Set<usize>) -> bool {
        &&& self.is_quorum(a)
        &&& self.is_quorum(b)
        &&& exists|v: usize| a.contains(v)
        &&& exists|v: usize| b.contains(v)
        &&& a.disjoint(b)
    }

    /// Some two quorums of the graph do not intersect.
    pub open spec fn has_split(self) -> bool {
        exists|a: Set<usize>, b: Set<usize>| self.split(a, b)
    }

    /// If all members of one of the combinations of the successors from
    /// place `k` on are with `s`, at least as many successors are.
    pub proof fn lemma_backing_of_slice(self, s: Set<usize>, q: int, k: int, t: nat, j: int)
        requires
            0 <= q < self.len(),
            0 <= k <= self.successors[q].len(),
            0 <= j < combos(self.successors[q].skip(k), t).len(),
            self.all_with(s, q, combos(self.successors[q].skip(k), t)[j]),
        ensures
            self.backing(s, q, k) >= t,
        decreases self.successors[q].len() - k,
    {
        let rest = self.successors[q].skip(k);
        if t == 0 {
        } else if rest.len() == 0 {
        } else {
            let with = combos(rest.drop_first(), (t - 1) as nat);
            let without = combos(rest.drop_first(), t);
            let c = combos(rest, t)[j];
            assert(rest.drop_first() =~= self.successors[q].skip(k + 1));
            assert(rest[0] == self.successors[q][k]);
            if j < with.len() {
                assert(c == seq![rest[0]] + with[j]);
                assert(c[0] == rest[0]);
                assert forall|i: int| 0 <= i < with[j].len() implies (#[trigger] with[j][i]) < q
                    && self.with(s, with[j][i] as int) by {
                    assert(c[i + 1] == with[j][i]);
                }
                self.lemma_backing_of_slice(s, q, k + 1, (t - 1) as nat, j);
            } else {
                assert(c == without[j - with.len()]);
                self.lemma_backing_of_slice(s, q, k + 1, t, j - with.len());
            }
        }
    }

    /// If `t` of the successors from place `k` on are with `s`, all
    /// members of one of their `t`-element combinations are.
    pub proof fn lemma_slice_of_backing(self, s: Set<usize>, q: int, k: int, t: nat) -> (j: int)
        requires
            0 <= q < self.len(),
            0 <= k <= self.successors[q].len(),
            self.backing(s, q, k) >= t,
        ensures
            0 <= j < combos(self.successors[q].skip(k), t).len(),
            self.all_with(s, q, combos(self.successors[q].skip(k), t)[j]),
        decreases self.successors[q].len() - k,
    {
        let rest = self.successors[q].skip(k);
        if t == 0 {
            0
        } else {
            assert(k < self.successors[q].len());
            let with = combos(rest.drop_first(), (t - 1) as nat);
            let without = combos(rest.drop_first(), t);
            assert(rest.drop_first() =~= self.successors[q].skip(k + 1));
            assert(rest[0] == self.successors[q][k]);
            let u = self.successors[q][k] as int;
            if u < q && self.with(s, u) {
                let j = self.lemma_slice_of_backing(s, q, k + 1, (t - 1) as nat);
                let c = combos(rest, t)[j];
                assert(c == seq![rest[0]] + with[j]);
                assert forall|i: int| 0 <= i < c.len() implies (#[trigger] c[i]) < q && self.with(
                    s,
                    c[i] as int,
                ) by {
                    if i > 0 {
                        assert(c[i] == with[j][i - 1]);
                    }
                }
                j
            } else {
                let j = self.lemma_slice_of_backing(s, q, k + 1, t);
                assert(combos(rest, t)[with.len() + j] == without[j]);
                with.len() + j
            }
        }
    }
}

} // verus!
