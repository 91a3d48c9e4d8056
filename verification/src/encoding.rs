//! The formula whose models are the pairs of disjoint quorums of a trust
//! graph.
//!
//! For a graph of `n` vertices, variable `v` says that vertex `v` is in
//! quorum A and variable `n + v` that it is in quorum B. For each vertex,
//! each side and each combination of threshold-many successors there is one
//! more variable, which says that the whole combination is on that side.

use crate::combos::combos;
use crate::literals::Lit;
use vstd::prelude::*;

verus! {

/// What the formula reads of a trust graph.
pub struct GraphView {
    /// For each vertex the number of its successors that must agree.
    pub thresholds: Seq<u32>,
    /// For each vertex its successors.
    pub successors: Seq<Seq<usize>>,
    /// The vertices that are validators.
    pub validators: Seq<usize>,
}

impl GraphView {
    /// The number of vertices.
    pub open spec fn len(self) -> nat {
        self.thresholds.len()
    }

    /// The edges and the validators stay within the graph.
    pub open spec fn bounded(self) -> bool {
        &&& self.successors.len() == self.len()
        &&& forall|v: int, k: int|
            0 <= v < self.len() && 0 <= k < self.successors[v].len() ==> (
            #[trigger] self.successors[v][k]) < self.len()
        &&& forall|i: int|
            0 <= i < self.validators.len() ==> (#[trigger] self.validators[i]) < self.len()
    }

    /// The combinations of threshold-many successors of vertex `v`.
    pub open spec fn slices(self, v: int) -> Seq<Seq<usize>> {
        combos(self.successors[v], self.thresholds[v] as nat)
    }

    /// The number of combinations of the vertices below `n`, added up.
    pub open spec fn slices_upto(self, n: nat) -> nat
        decreases n,
    {
        if n == 0 {
            0
        } else {
            self.slices_upto((n - 1) as nat) + self.slices((n - 1) as int).len()
        }
    }

    /// The number of variables of the formula.
    pub open spec fn var_count(self) -> nat {
        2 * self.len() + 2 * self.slices_upto(self.len())
    }

    /// The literal that says that vertex `v` is on the given side: in
    /// quorum A for side 0, in quorum B for any other side.
    pub open spec fn member(self, side: int, v: int) -> Lit {
        Lit { var: if side == 0 { v } else { self.len() + v }, positive: true }
    }

    /// The first of the variables that stand for the combinations of the
    /// given side.
    pub open spec fn side_base(self, side: int) -> int {
        if side == 0 {
            2 * self.len() as int
        } else {
            (2 * self.len() + self.slices_upto(self.len())) as int
        }
    }

    /// The first of the variables that stand for the combinations of
    /// vertex `v` on the given side.
    pub open spec fn slice_base(self, side: int, v: int) -> int {
        self.side_base(side) + self.slices_upto(v as nat)
    }

    /// Some validator is on the given side.
    pub open spec fn nonempty_clause(self, side: int) -> Seq<Lit> {
        Seq::new(self.validators.len(), |i: int| self.member(side, self.validators[i] as int))
    }

    /// Validator `v` is not on both sides.
    pub open spec fn disjoint_clause(self, v: int) -> Seq<Lit> {
        seq![self.member(0, v).negated(), self.member(1, v).negated()]
    }

    /// No one of the first `n` validators is on both sides.
    pub open spec fn disjoint_clauses(self, n: nat) -> Seq<Seq<Lit>> {
        Seq::new(n, |i: int| self.disjoint_clause(self.validators[i] as int))
    }

    /// If `v` is on the side and the combination `c`, whose variable is
    /// `x`, is chosen, then member `k` of `c` is on the side.
    pub open spec fn element_clause(self, side: int, v: int, c: Seq<usize>, x: int, k: int) -> Seq<
        Lit,
    > {
        seq![
            self.member(side, v).negated(),
            Lit { var: x, positive: false },
            self.member(side, c[k] as int),
        ]
    }

    /// If `v` is on the side and all of `c` is, then the combination `c`,
    /// whose variable is `x`, is chosen.
    pub open spec fn chosen_clause(self, side: int, v: int, c: Seq<usize>, x: int, n: nat) -> Seq<
        Lit,
    > {
        seq![self.member(side, v).negated(), Lit { var: x, positive: true }] + Seq::new(
            n,
            |k: int| self.member(side, c[k] as int).negated(),
        )
    }

    /// The clauses of one combination: one for each of its members, then
    /// the one that chooses it.
    pub open spec fn slice_clauses(self, side: int, v: int, c: Seq<usize>, x: int) -> Seq<Seq<Lit>> {
        Seq::new(c.len(), |k: int| self.element_clause(side, v, c, x, k)).push(
            self.chosen_clause(side, v, c, x, c.len()),
        )
    }

    /// The clauses of the first `n` combinations of vertex `v`.
    pub open spec fn slices_clauses(self, side: int, v: int, n: nat) -> Seq<Seq<Lit>>
        decreases n,
    {
        if n == 0 {
            Seq::empty()
        } else {
            self.slices_clauses(side, v, (n - 1) as nat) + self.slice_clauses(
                side,
                v,
                self.slices(v)[n - 1],
                self.slice_base(side, v) + n - 1,
            )
        }
    }

    /// If `v` is on the side, one of its first `n` combinations is chosen.
    pub open spec fn witness_clause(self, side: int, v: int, n: nat) -> Seq<Lit> {
        seq![self.member(side, v).negated()] + Seq::new(
            n,
            |j: int| Lit { var: self.slice_base(side, v) + j, positive: true },
        )
    }

    /// The clauses of vertex `v`: those of its combinations, then the one
    /// that asks for a chosen combination.
    pub open spec fn vertex_clauses(self, side: int, v: int) -> Seq<Seq<Lit>> {
        self.slices_clauses(side, v, self.slices(v).len()).push(
            self.witness_clause(side, v, self.slices(v).len()),
        )
    }

    /// The clauses of the vertices below `n`.
    pub open spec fn side_clauses(self, side: int, n: nat) -> Seq<Seq<Lit>>
        decreases n,
    {
        if n == 0 {
            Seq::empty()
        } else {
            self.side_clauses(side, (n - 1) as nat) + self.vertex_clauses(side, n - 1)
        }
    }

    /// The formula: both sides are non-empty, no validator is on both, and
    /// on each side every vertex has threshold-many successors with it.
    pub open spec fn formula(self) -> Seq<Seq<Lit>> {
        seq![self.nonempty_clause(0), self.nonempty_clause(1)] + self.disjoint_clauses(
            self.validators.len(),
        ) + self.side_clauses(0, self.len()) + self.side_clauses(1, self.len())
    }

    /// The sums of `slices_upto` grow with their bound.
    pub proof fn lemma_slices_upto_monotone(self, m: nat, n: nat)
        requires
            m <= n,
        ensures
            self.slices_upto(m) <= self.slices_upto(n),
        decreases n,
    {
        if m < n {
            self.lemma_slices_upto_monotone(m, (n - 1) as nat);
        }
    }
}

} // verus!
