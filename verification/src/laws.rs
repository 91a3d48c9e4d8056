//! What the models of the formula of a trust graph are: the pairs of
//! disjoint quorums.

use crate::combos::combos;
use crate::combos::lemma_combos_members;
use crate::encoding::GraphView;
use crate::error::FbasError;
use crate::fbas::Fbas;
use crate::quorum_set::QuorumSetMap;
use crate::literals::clause_holds;
use crate::literals::lemma_satisfies_concat;
use crate::literals::lemma_satisfies_push;
use crate::literals::satisfies;
use crate::literals::Lit;
use vstd::prelude::*;

verus! {

/// Interning is canonical: no two vertices of a complete graph hold the
/// same quorum set, that is, the same threshold over the same validators
/// and the same inner quorum sets.
pub proof fn lemma_interning_canonical(fbas: Fbas, i: int, j: int)
    requires
        fbas.wf(),
        fbas.validator_count() <= i < fbas.vertices().len(),
        fbas.validator_count() <= j < fbas.vertices().len(),
        i != j,
    ensures
        fbas.vertices()[i] is QSet,
        fbas.vertices()[j] is QSet,
        fbas.vertices()[i] != fbas.vertices()[j],
{
    assert(fbas.qset_ok(i));
    assert(fbas.qset_ok(j));
}

/// Construction is deterministic: whatever building the graph of one map
/// gives twice, it is an error of the same kind both times or the same
/// vertices at the same indices, with the same edges.
pub proof fn lemma_construction_deterministic(
    qsm: QuorumSetMap,
    first: Result<Fbas, FbasError>,
    second: Result<Fbas, FbasError>,
)
    requires
        qsm.wf(),
        Fbas::built(qsm, first),
        Fbas::built(qsm, second),
    ensures
        match (first, second) {
            (Ok(a), Ok(b)) => a@ == b@ && a.graph_view() == b.graph_view(),
            (Err(e), Err(f)) => (e is QuorumSetTooDeep <==> f is QuorumSetTooDeep) && (
            e is InternalError <==> f is InternalError),
            _ => false,
        },
{
    match (first, second) {
        (Ok(a), Ok(b)) => {
            assert(a.names().len() == b.names().len());
            a.lemma_graph_view_of_view(b);
        },
        _ => {},
    }
}

impl GraphView {
    /// The validators among the first `n` that `m` puts on the given
    /// side, in order.
    pub open spec fn lifted(self, m: Seq<bool>, side: int, n: nat) -> Seq<usize>
        decreases n,
    {
        if n == 0 {
            Seq::empty()
        } else {
            let rest = self.lifted(m, side, (n - 1) as nat);
            let v = self.validators[n - 1];
            if self.member(side, v as int).holds(m) {
                rest.push(v)
            } else {
                rest
            }
        }
    }

    /// The set of the validators that `m` puts on the given side.
    pub open spec fn quorum_of(self, m: Seq<bool>, side: int) -> Set<usize> {
        self.lifted(m, side, self.count()).to_set()
    }

    /// What `lifted` holds: the validators that `m` puts on the side.
    pub proof fn lemma_lifted(self, m: Seq<bool>, side: int, n: nat)
        requires
            self.structured(),
            n <= self.count(),
        ensures
            forall|v: usize| #[trigger]
                self.lifted(m, side, n).contains(v) <==> v < n && self.member(side, v as int).holds(
                    m,
                ),
        decreases n,
    {
        if n > 0 {
            self.lemma_lifted(m, side, (n - 1) as nat);
            let rest = self.lifted(m, side, (n - 1) as nat);
            let last = self.validators[n - 1];
            assert(last == n - 1);
            let now = self.lifted(m, side, n);
            assert forall|v: usize| #[trigger] now.contains(v) <==> v < n && self.member(
                side,
                v as int,
            ).holds(m) by {
                if self.member(side, last as int).holds(m) {
                    assert(now == rest.push(last));
                    if now.contains(v) {
                        let i = now.index_of(v);
                        if i < rest.len() {
                            assert(rest[i] == v);
                            assert(rest.contains(v));
                        }
                    }
                    if v < n && self.member(side, v as int).holds(m) {
                        if v == last {
                            assert(now[rest.len() as int] == v);
                        } else {
                            assert(rest.contains(v));
                            let i = rest.index_of(v);
                            assert(now[i] == v);
                        }
                    }
                } else {
                    assert(now == rest);
                }
            }
        }
    }

    /// Only the membership variables count for `lifted`.
    pub proof fn lemma_lifted_prefix(self, m: Seq<bool>, values: Seq<bool>, side: int, n: nat)
        requires
            self.bounded(),
            side == 0 || side == 1,
            n <= self.count(),
            2 * self.len() <= m.len(),
            values == m.take(2 * self.len() as int),
        ensures
            self.lifted(values, side, n) == self.lifted(m, side, n),
        decreases n,
    {
        if n > 0 {
            self.lemma_lifted_prefix(m, values, side, (n - 1) as nat);
        }
    }

    /// The variables of the membership literals and of the combinations lie
    /// below `var_count`.
    pub proof fn lemma_var_ranges(self, side: int, v: int, j: int)
        requires
            side == 0 || side == 1,
            0 <= v < self.len(),
            0 <= j < self.slices(v).len(),
        ensures
            0 <= self.member(side, v).var < 2 * self.len(),
            2 * self.len() <= self.slice_base(side, v) + j < self.var_count(),
            self.slice_base(side, v) + j < self.slice_base(side, v + 1),
            side == 0 ==> self.slice_base(side, v) + j < self.side_base(1),
    {
        self.lemma_slices_upto_monotone((v + 1) as nat, self.len());
    }

    /// A model of the clauses of several combinations is one of the
    /// clauses of each.
    pub proof fn lemma_slices_clauses_hold(self, m: Seq<bool>, side: int, v: int, n: nat, j: int)
        requires
            satisfies(m, self.slices_clauses(side, v, n)),
            0 <= j < n,
        ensures
            satisfies(
                m,
                self.slice_clauses(side, v, self.slices(v)[j], self.slice_base(side, v) + j),
            ),
        decreases n,
    {
        lemma_satisfies_concat(
            m,
            self.slices_clauses(side, v, (n - 1) as nat),
            self.slice_clauses(side, v, self.slices(v)[n - 1], self.slice_base(side, v) + n - 1),
        );
        if j < n - 1 {
            self.lemma_slices_clauses_hold(m, side, v, (n - 1) as nat, j);
        }
    }

    /// A model of the clauses of several vertices is one of the clauses of
    /// each.
    pub proof fn lemma_side_clauses_hold(self, m: Seq<bool>, side: int, n: nat, v: int)
        requires
            satisfies(m, self.side_clauses(side, n)),
            0 <= v < n,
        ensures
            satisfies(m, self.vertex_clauses(side, v)),
        decreases n,
    {
        lemma_satisfies_concat(
            m,
            self.side_clauses(side, (n - 1) as nat),
            self.vertex_clauses(side, n - 1),
        );
        if v < n - 1 {
            self.lemma_side_clauses_hold(m, side, (n - 1) as nat, v);
        }
    }

    /// Where a model of the clauses of vertex `v` puts `v` on the side, it
    /// puts all members of one combination of `v` there.
    pub proof fn lemma_slice_of_model(self, m: Seq<bool>, side: int, v: int) -> (j: int)
        requires
            side == 0 || side == 1,
            0 <= v < self.len(),
            satisfies(m, self.vertex_clauses(side, v)),
            self.member(side, v).holds(m),
        ensures
            0 <= j < self.slices(v).len(),
            forall|k: int|
                0 <= k < self.slices(v)[j].len() ==> self.member(
                    side,
                    (#[trigger] self.slices(v)[j][k]) as int,
                ).holds(m),
    {
        let count = self.slices(v).len();
        let witness = self.witness_clause(side, v, count);
        lemma_satisfies_push(m, self.slices_clauses(side, v, count), witness);
        let i = choose|i: int| 0 <= i < witness.len() && (#[trigger] witness[i]).holds(m);
        assert(witness[0] == self.member(side, v).negated());
        assert(i > 0);
        let j = i - 1;
        let x = self.slice_base(side, v) + j;
        assert(witness[i] == Lit { var: x, positive: true });
        let c = self.slices(v)[j];
        self.lemma_slices_clauses_hold(m, side, v, count, j);
        let block = self.slice_clauses(side, v, c, x);
        assert forall|k: int| 0 <= k < c.len() implies self.member(
            side,
            (#[trigger] c[k]) as int,
        ).holds(m) by {
            let clause = self.element_clause(side, v, c, x, k);
            assert(block[k] == clause);
            assert(clause_holds(clause, m));
            let p = choose|p: int| 0 <= p < clause.len() && (#[trigger] clause[p]).holds(m);
            assert(clause[0] == self.member(side, v).negated());
            assert(clause[1] == Lit { var: x, positive: false });
            assert(clause[2] == self.member(side, c[k] as int));
        }
        j
    }

    /// A vertex that a model of one side's clauses puts on the side is
    /// with the validators that the model puts there.
    pub proof fn lemma_with_of_model(self, m: Seq<bool>, side: int, u: int)
        requires
            self.structured(),
            side == 0 || side == 1,
            satisfies(m, self.side_clauses(side, self.len())),
            0 <= u < self.len(),
            self.member(side, u).holds(m),
        ensures
            self.with(self.quorum_of(m, side), u),
        decreases u,
    {
        let s = self.quorum_of(m, side);
        self.lemma_lifted(m, side, self.count());
        if u < self.count() {
            assert(self.lifted(m, side, self.count()).contains(u as usize));
        } else {
            self.lemma_side_clauses_hold(m, side, self.len(), u);
            let j = self.lemma_slice_of_model(m, side, u);
            let c = self.slices(u)[j];
            lemma_combos_members(self.successors[u], self.thresholds[u] as nat, j);
            assert forall|i: int| 0 <= i < c.len() implies (#[trigger] c[i]) < u && self.with(
                s,
                c[i] as int,
            ) by {
                let p = self.successors[u].index_of(c[i]);
                assert(self.successors[u][p] == c[i]);
                self.lemma_with_of_model(m, side, c[i] as int);
            }
            assert(self.successors[u].skip(0) =~= self.successors[u]);
            self.lemma_backing_of_slice(s, u, 0, self.thresholds[u] as nat, j);
        }
    }

    /// The validators that a model of one side's clauses puts on the side
    /// are a quorum.
    pub proof fn lemma_quorum_of_model(self, m: Seq<bool>, side: int)
        requires
            self.structured(),
            side == 0 || side == 1,
            satisfies(m, self.side_clauses(side, self.len())),
        ensures
            self.is_quorum(self.quorum_of(m, side)),
    {
        let s = self.quorum_of(m, side);
        self.lemma_lifted(m, side, self.count());
        assert forall|v: usize| s.contains(v) implies v < self.count() && self.with(
            s,
            (#[trigger] self.successors[v as int])[0] as int,
        ) by {
            assert(self.lifted(m, side, self.count()).contains(v));
            self.lemma_side_clauses_hold(m, side, self.len(), v as int);
            let j = self.lemma_slice_of_model(m, side, v as int);
            let c = self.slices(v as int)[j];
            lemma_combos_members(self.successors[v as int], self.thresholds[v as int] as nat, j);
            let root = self.successors[v as int][0];
            let p = self.successors[v as int].index_of(c[0]);
            assert(self.successors[v as int][p] == c[0]);
            assert(c[0] == root);
            self.lemma_with_of_model(m, side, root as int);
        }
    }

    /// Lifting is sound: the validators that a model of the formula puts
    /// in quorum A and in quorum B are two disjoint quorums, neither
    /// empty.
    pub proof fn lemma_model_is_split(self, m: Seq<bool>)
        requires
            self.structured(),
            satisfies(m, self.formula()),
        ensures
            self.split(self.quorum_of(m, 0), self.quorum_of(m, 1)),
    {
        let heads = seq![self.nonempty_clause(0), self.nonempty_clause(1)];
        let apart = self.disjoint_clauses(self.count());
        let first = self.side_clauses(0, self.len());
        let second = self.side_clauses(1, self.len());
        lemma_satisfies_concat(m, heads + apart + first, second);
        lemma_satisfies_concat(m, heads + apart, first);
        lemma_satisfies_concat(m, heads, apart);
        self.lemma_quorum_of_model(m, 0);
        self.lemma_quorum_of_model(m, 1);
        self.lemma_lifted(m, 0, self.count());
        self.lemma_lifted(m, 1, self.count());
        let a = self.quorum_of(m, 0);
        let b = self.quorum_of(m, 1);
        assert(exists|v: usize| a.contains(v)) by {
            let clause = self.nonempty_clause(0);
            assert(heads[0] == clause);
            let i = choose|i: int| 0 <= i < clause.len() && (#[trigger] clause[i]).holds(m);
            assert(self.lifted(m, 0, self.count()).contains(self.validators[i]));
            assert(a.contains(self.validators[i]));
        }
        assert(exists|v: usize| b.contains(v)) by {
            let clause = self.nonempty_clause(1);
            assert(heads[1] == clause);
            let i = choose|i: int| 0 <= i < clause.len() && (#[trigger] clause[i]).holds(m);
            assert(self.lifted(m, 1, self.count()).contains(self.validators[i]));
            assert(b.contains(self.validators[i]));
        }
        assert forall|v: usize| !(a.contains(v) && b.contains(v)) by {
            if a.contains(v) && b.contains(v) {
                assert(self.lifted(m, 0, self.count()).contains(v));
                assert(self.lifted(m, 1, self.count()).contains(v));
                let clause = self.disjoint_clause(v as int);
                assert(apart[v as int] == clause);
                let i = choose|i: int| 0 <= i < clause.len() && (#[trigger] clause[i]).holds(m);
                assert(clause[0] == self.member(0, v as int).negated());
                assert(clause[1] == self.member(1, v as int).negated());
            }
        }
    }

    /// The variable of combination `j` of vertex `v` on the given side.
    pub open spec fn slice_var(self, side: int, v: int, j: int) -> int {
        self.slice_base(side, v) + j
    }

    /// The validators of the given side, of two sets.
    pub open spec fn side_set(side: int, a: Set<usize>, b: Set<usize>) -> Set<usize> {
        if side == 0 {
            a
        } else {
            b
        }
    }

    /// All members of the combination `c` are with `s`.
    pub open spec fn all_on(self, s: Set<usize>, c: Seq<usize>) -> bool {
        forall|i: int| 0 <= i < c.len() ==> self.with(s, (#[trigger] c[i]) as int)
    }

    /// `x` is the variable of a combination all of whose members are with
    /// the validators of its side.
    pub open spec fn slice_chosen(self, a: Set<usize>, b: Set<usize>, x: int) -> bool {
        exists|side: int, v: int, j: int|
            {
                &&& (side == 0 || side == 1)
                &&& 0 <= v < self.len()
                &&& 0 <= j < self.slices(v).len()
                &&& #[trigger] self.slice_var(side, v, j) == x
                &&& self.all_on(Self::side_set(side, a, b), self.slices(v)[j])
            }
    }

    /// The assignment that stands for two sets of validators: a vertex is
    /// on a side if it is with the set of that side, and a combination is
    /// chosen if all its members are.
    pub open spec fn model_of(self, a: Set<usize>, b: Set<usize>) -> Seq<bool> {
        Seq::new(
            self.var_count(),
            |x: int|
                if x < self.len() {
                    self.with(a, x)
                } else if x < 2 * self.len() {
                    self.with(b, x - self.len())
                } else {
                    self.slice_chosen(a, b, x)
                },
        )
    }

    /// Different combinations have different variables.
    pub proof fn lemma_slice_var_injective(
        self,
        side: int,
        v: int,
        j: int,
        side2: int,
        v2: int,
        j2: int,
    )
        requires
            side == 0 || side == 1,
            side2 == 0 || side2 == 1,
            0 <= v < self.len(),
            0 <= v2 < self.len(),
            0 <= j < self.slices(v).len(),
            0 <= j2 < self.slices(v2).len(),
            self.slice_var(side, v, j) == self.slice_var(side2, v2, j2),
        ensures
            side == side2,
            v == v2,
            j == j2,
    {
        self.lemma_var_ranges(side, v, j);
        self.lemma_var_ranges(side2, v2, j2);
        if v < v2 {
            self.lemma_slices_upto_monotone((v + 1) as nat, v2 as nat);
        }
        if v2 < v {
            self.lemma_slices_upto_monotone((v2 + 1) as nat, v as nat);
        }
    }

    /// What `model_of` says of a vertex.
    pub proof fn lemma_model_member(self, a: Set<usize>, b: Set<usize>, side: int, w: int)
        requires
            side == 0 || side == 1,
            0 <= w < self.len(),
        ensures
            self.member(side, w).holds(self.model_of(a, b)) <==> self.with(
                Self::side_set(side, a, b),
                w,
            ),
            self.member(side, w).negated().holds(self.model_of(a, b)) <==> !self.with(
                Self::side_set(side, a, b),
                w,
            ),
    {
    }

    /// What `model_of` says of a combination.
    pub proof fn lemma_model_slice(self, a: Set<usize>, b: Set<usize>, side: int, v: int, j: int)
        requires
            side == 0 || side == 1,
            0 <= v < self.len(),
            0 <= j < self.slices(v).len(),
        ensures
            (Lit { var: self.slice_var(side, v, j), positive: true }).holds(self.model_of(a, b))
                <==> self.all_on(Self::side_set(side, a, b), self.slices(v)[j]),
            (Lit { var: self.slice_var(side, v, j), positive: false }).holds(self.model_of(a, b))
                <==> !self.all_on(Self::side_set(side, a, b), self.slices(v)[j]),
    {
        self.lemma_var_ranges(side, v, j);
        let x = self.slice_var(side, v, j);
        if self.slice_chosen(a, b, x) {
            let (side2, v2, j2) = choose|side2: int, v2: int, j2: int|
                {
                    &&& (side2 == 0 || side2 == 1)
                    &&& 0 <= v2 < self.len()
                    &&& 0 <= j2 < self.slices(v2).len()
                    &&& #[trigger] self.slice_var(side2, v2, j2) == x
                    &&& self.all_on(Self::side_set(side2, a, b), self.slices(v2)[j2])
                };
            self.lemma_slice_var_injective(side, v, j, side2, v2, j2);
        }
    }

    /// Under `model_of` the clauses of every combination hold.
    pub proof fn lemma_slice_clauses_of_sets(
        self,
        a: Set<usize>,
        b: Set<usize>,
        side: int,
        v: int,
        j: int,
    )
        requires
            self.bounded(),
            side == 0 || side == 1,
            0 <= v < self.len(),
            0 <= j < self.slices(v).len(),
        ensures
            satisfies(
                self.model_of(a, b),
                self.slice_clauses(side, v, self.slices(v)[j], self.slice_var(side, v, j)),
            ),
    {
        let m = self.model_of(a, b);
        let s = Self::side_set(side, a, b);
        let c = self.slices(v)[j];
        let x = self.slice_var(side, v, j);
        let block = self.slice_clauses(side, v, c, x);
        lemma_combos_members(self.successors[v], self.thresholds[v] as nat, j);
        self.lemma_model_member(a, b, side, v);
        self.lemma_model_slice(a, b, side, v, j);
        assert forall|k: int| 0 <= k < c.len() implies (#[trigger] c[k]) < self.len() by {
            let p = self.successors[v].index_of(c[k]);
            assert(self.successors[v][p] == c[k]);
        }
        assert forall|i: int| 0 <= i < block.len() implies clause_holds(#[trigger] block[i], m) by {
            if i < c.len() {
                let clause = self.element_clause(side, v, c, x, i);
                assert(block[i] == clause);
                self.lemma_model_member(a, b, side, c[i] as int);
                if !self.with(s, v) {
                    assert(clause[0].holds(m));
                } else if !self.all_on(s, c) {
                    assert(clause[1].holds(m));
                } else {
                    assert(clause[2].holds(m));
                }
            } else {
                let clause = self.chosen_clause(side, v, c, x, c.len());
                assert(block[i] == clause);
                if !self.with(s, v) {
                    assert(clause[0].holds(m));
                } else if self.all_on(s, c) {
                    assert(clause[1].holds(m));
                } else {
                    let k = choose|k: int| 0 <= k < c.len() && !self.with(s, (#[trigger] c[k]) as int);
                    self.lemma_model_member(a, b, side, c[k] as int);
                    assert(clause[2 + k] == self.member(side, c[k] as int).negated());
                    assert(clause[2 + k].holds(m));
                }
            }
        }
    }

    /// Under `model_of` the clauses of the first `n` combinations of a
    /// vertex hold.
    pub proof fn lemma_slices_clauses_of_sets(
        self,
        a: Set<usize>,
        b: Set<usize>,
        side: int,
        v: int,
        n: nat,
    )
        requires
            self.bounded(),
            side == 0 || side == 1,
            0 <= v < self.len(),
            n <= self.slices(v).len(),
        ensures
            satisfies(self.model_of(a, b), self.slices_clauses(side, v, n)),
        decreases n,
    {
        if n > 0 {
            self.lemma_slices_clauses_of_sets(a, b, side, v, (n - 1) as nat);
            self.lemma_slice_clauses_of_sets(a, b, side, v, n - 1);
            lemma_satisfies_concat(
                self.model_of(a, b),
                self.slices_clauses(side, v, (n - 1) as nat),
                self.slice_clauses(
                    side,
                    v,
                    self.slices(v)[n - 1],
                    self.slice_base(side, v) + n - 1,
                ),
            );
        }
    }

    /// Under the model of two quorums the clauses of every vertex hold.
    pub proof fn lemma_vertex_clauses_of_sets(self, a: Set<usize>, b: Set<usize>, side: int, v: int)
        requires
            self.structured(),
            self.is_quorum(a),
            self.is_quorum(b),
            side == 0 || side == 1,
            0 <= v < self.len(),
        ensures
            satisfies(self.model_of(a, b), self.vertex_clauses(side, v)),
    {
        let m = self.model_of(a, b);
        let s = Self::side_set(side, a, b);
        let count = self.slices(v).len();
        let witness = self.witness_clause(side, v, count);
        self.lemma_slices_clauses_of_sets(a, b, side, v, count);
        lemma_satisfies_push(m, self.slices_clauses(side, v, count), witness);
        self.lemma_model_member(a, b, side, v);
        if !self.with(s, v) {
            assert(witness[0].holds(m));
        } else {
            let j: int;
            if v < self.count() {
                let root = self.successors[v][0];
                assert(s.contains(v as usize));
                assert(self.with(s, self.successors[v as usize as int][0] as int));
                let succ = self.successors[v];
                assert(succ.drop_first() =~= Seq::<usize>::empty());
                assert(combos(succ.drop_first(), 0) =~= seq![Seq::<usize>::empty()]);
                assert(combos(succ.drop_first(), 1) =~= Seq::<Seq<usize>>::empty());
                assert(combos(succ, 1) =~= seq![seq![root]]) by {
                    assert(combos(succ.drop_first(), 0).map_values(
                        |c: Seq<usize>| seq![succ[0]] + c,
                    )[0] =~= seq![root]);
                }
                j = 0;
                assert(self.slices(v)[0] == seq![root]);
            } else {
                assert(self.successors[v].skip(0) =~= self.successors[v]);
                j = self.lemma_slice_of_backing(s, v, 0, self.thresholds[v] as nat);
            }
            self.lemma_model_slice(a, b, side, v, j);
            assert(witness[1 + j] == Lit { var: self.slice_var(side, v, j), positive: true });
            assert(witness[1 + j].holds(m));
        }
    }

    /// Under the model of two quorums the clauses of the vertices below
    /// `n` hold.
    pub proof fn lemma_side_clauses_of_sets(self, a: Set<usize>, b: Set<usize>, side: int, n: nat)
        requires
            self.structured(),
            self.is_quorum(a),
            self.is_quorum(b),
            side == 0 || side == 1,
            n <= self.len(),
        ensures
            satisfies(self.model_of(a, b), self.side_clauses(side, n)),
        decreases n,
    {
        if n > 0 {
            self.lemma_side_clauses_of_sets(a, b, side, (n - 1) as nat);
            self.lemma_vertex_clauses_of_sets(a, b, side, n - 1);
            lemma_satisfies_concat(
                self.model_of(a, b),
                self.side_clauses(side, (n - 1) as nat),
                self.vertex_clauses(side, n - 1),
            );
        }
    }

    /// The encoding is complete: two disjoint quorums, neither empty, give
    /// a model of the formula.
    pub proof fn lemma_split_is_model(self, a: Set<usize>, b: Set<usize>)
        requires
            self.structured(),
            self.split(a, b),
        ensures
            self.model_of(a, b).len() == self.var_count(),
            satisfies(self.model_of(a, b), self.formula()),
    {
        let m = self.model_of(a, b);
        let heads = seq![self.nonempty_clause(0), self.nonempty_clause(1)];
        let apart = self.disjoint_clauses(self.count());
        let first = self.side_clauses(0, self.len());
        let second = self.side_clauses(1, self.len());
        self.lemma_side_clauses_of_sets(a, b, 0, self.len());
        self.lemma_side_clauses_of_sets(a, b, 1, self.len());
        assert forall|i: int| 0 <= i < heads.len() implies clause_holds(#[trigger] heads[i], m) by {
            let s = Self::side_set(i, a, b);
            let v = choose|v: usize| s.contains(v);
            assert(self.is_quorum(s));
            assert(self.successors[v as int].len() >= 0);
            assert(v < self.count());
            self.lemma_model_member(a, b, i, v as int);
            assert(self.nonempty_clause(i)[v as int] == self.member(i, v as int));
            assert(self.nonempty_clause(i)[v as int].holds(m));
        }
        assert forall|i: int| 0 <= i < apart.len() implies clause_holds(#[trigger] apart[i], m) by {
            let clause = self.disjoint_clause(i);
            assert(apart[i] == clause);
            self.lemma_model_member(a, b, 0, i);
            self.lemma_model_member(a, b, 1, i);
            if a.contains(i as usize) {
                assert(!b.contains(i as usize));
                assert(clause[1].holds(m));
            } else {
                assert(clause[0].holds(m));
            }
        }
        lemma_satisfies_concat(m, heads, apart);
        lemma_satisfies_concat(m, heads + apart, first);
        lemma_satisfies_concat(m, heads + apart + first, second);
    }

    /// A graph whose formula has no model has no two disjoint quorums.
    pub proof fn lemma_no_model_no_split(self)
        requires
            self.structured(),
            forall|m: Seq<bool>| m.len() == self.var_count() ==> !#[trigger] satisfies(
                m,
                self.formula(),
            ),
        ensures
            !self.has_split(),
    {
        if self.has_split() {
            let (a, b) = choose|a: Set<usize>, b: Set<usize>| self.split(a, b);
            self.lemma_split_is_model(a, b);
        }
    }
}

} // verus!
