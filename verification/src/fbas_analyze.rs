//! The analyzer: it hands the formula of a trust graph to the solver and
//! reads two disjoint quorums off a model.
//!
//! Two quorums A and B are sought. Whether a vertex is in A, and whether it
//! is in B, is one variable each. The formula asks that A and B are not
//! empty, that no validator is in both, and that every vertex that is in
//! one of them has threshold-many of its successors with it. A model is a
//! counter-example to quorum intersection; if there is none, every two
//! quorums intersect.

use crate::combos::combinations;
use crate::combos::combos;
use crate::combos::lemma_combos_members;
use crate::combos::lemma_combos_none;
use crate::combos::next_combination;
use crate::combos::pending;
use crate::encoding::GraphView;
use crate::error::FbasError;
use crate::fbas::Fbas;
use crate::fbas::GRAPH_LIMIT;
use crate::index_set::copy_indices;
use crate::literals::clause_view;
use crate::literals::satisfies;
use crate::sat::solver_model;
use crate::sat::solver_solve;
use crate::sat::solver_value;
use crate::sat::SolveOutcome;
use crate::literals::lemma_clause_view_push;
use crate::literals::Lit;
use crate::literals::Literal;
use crate::sat::solver_add_clause;
use crate::sat::solver_clauses;
use crate::sat::solver_new;
use crate::sat::solver_new_var;
use crate::sat::solver_vars;
use crate::sat::SatSolver;
use crate::sat::VAR_LIMIT;
use batsat::callbacks::AsyncInterrupt;
use vstd::prelude::*;

verus! {

/// Maps the vertices of a graph with `vertex_count` vertices to solver
/// variables: variable `i` says that vertex `i` is in quorum A, variable
/// `vertex_count + i` that it is in quorum B.
pub struct FbasLitsWrapper {
    pub vertex_count: usize,
}

/// The side of the formula that a flag stands for: 0 for quorum A, 1 for
/// quorum B.
pub open spec fn side_of(in_b: bool) -> int {
    if in_b {
        1
    } else {
        0
    }
}

impl FbasLitsWrapper {
    pub fn new(vcount: usize) -> (r: Self)
        ensures
            r.vertex_count == vcount,
    {
        Self { vertex_count: vcount }
    }

    /// The literal that says that vertex `ni` is in quorum A.
    pub fn in_quorum_a(&self, ni: usize) -> (l: Literal)
        requires
            ni < self.vertex_count <= GRAPH_LIMIT,
        ensures
            l@ == (Lit { var: ni as int, positive: true }),
    {
        Literal { var: ni as u32, positive: true }
    }

    /// The literal that says that vertex `ni` is in quorum B.
    pub fn in_quorum_b(&self, ni: usize) -> (l: Literal)
        requires
            ni < self.vertex_count <= GRAPH_LIMIT,
        ensures
            l@ == (Lit { var: ni + self.vertex_count, positive: true }),
    {
        Literal { var: (ni + self.vertex_count) as u32, positive: true }
    }

    /// The literal that says that vertex `ni` is in quorum B, if `in_b`,
    /// and in quorum A otherwise.
    pub fn in_quorum(&self, in_b: bool, ni: usize) -> (l: Literal)
        requires
            ni < self.vertex_count <= GRAPH_LIMIT,
        ensures
            l@ == (Lit {
                var: if in_b {
                    ni + self.vertex_count
                } else {
                    ni as int
                },
                positive: true,
            }),
    {
        if in_b {
            self.in_quorum_b(ni)
        } else {
            self.in_quorum_a(ni)
        }
    }

    /// A literal of a variable that the solver has not handed out before.
    pub fn new_proposition(&self, solver: &mut SatSolver) -> (l: Literal)
        requires
            solver_vars(*old(solver)) < VAR_LIMIT,
        ensures
            l@ == (Lit { var: solver_vars(*old(solver)) as int, positive: true }),
            solver_vars(*final(solver)) == solver_vars(*old(solver)) + 1,
            solver_clauses(*final(solver)) == solver_clauses(*old(solver)),
    {
        Literal { var: solver_new_var(solver), positive: true }
    }
}

/// Hands the solver, for one side, the clauses of every vertex: if the
/// vertex is on the side, so are the members of one combination of
/// threshold-many successors.
fn add_clauses_for_quorum_relations(
    fbas: &Fbas,
    fbas_lits: &FbasLitsWrapper,
    solver: &mut SatSolver,
    in_b: bool,
    first_var: usize,
) -> (r: Result<usize, FbasError>)
    requires
        fbas.wf(),
        fbas_lits.vertex_count == fbas.graph_view().len(),
        solver_vars(*old(solver)) == fbas.graph_view().side_base(side_of(in_b)),
        first_var == solver_vars(*old(solver)),
        first_var <= VAR_LIMIT,
    ensures
        match r {
            Ok(next) => {
                &&& next == solver_vars(*final(solver))
                &&& next <= VAR_LIMIT
                &&& solver_vars(*final(solver)) == solver_vars(*old(solver))
                    + fbas.graph_view().slices_upto(fbas.graph_view().len())
                &&& solver_clauses(*final(solver)) == solver_clauses(*old(solver))
                    + fbas.graph_view().side_clauses(side_of(in_b), fbas.graph_view().len())
            },
            Err(FbasError::InternalError(_)) => fbas.graph_view().var_count() > VAR_LIMIT,
            Err(_) => false,
        },
{
    let ghost g = fbas.graph_view();
    let ghost side = side_of(in_b);
    let ghost start = solver_clauses(*solver);
    proof {
        fbas.lemma_graph_view_bounded();
    }
    let n = fbas.node_count();
    let mut next_var: usize = first_var;
    let mut ni: usize = 0;
    proof {
        assert(start + g.side_clauses(side, 0) =~= start);
    }
    while ni < n
        invariant
            fbas.wf(),
            g == fbas.graph_view(),
            g.bounded(),
            side == side_of(in_b),
            n == g.len(),
            n <= GRAPH_LIMIT,
            fbas_lits.vertex_count == n,
            ni <= n,
            solver_vars(*solver) == g.slice_base(side, ni as int),
            next_var == solver_vars(*solver),
            next_var <= VAR_LIMIT,
            solver_clauses(*solver) == start + g.side_clauses(side, ni as nat),
        decreases n - ni,
    {
        let aq_i = fbas_lits.in_quorum(in_b, ni);
        let threshold = match fbas.node_threshold(ni) {
            Some(t) => t,
            None => {
                return Err(FbasError::InternalError("Node index not found"));
            },
        };
        let neighbors = fbas.neighbors(ni);
        let ghost cs = g.slices(ni as int);
        let ghost base = solver_clauses(*solver);
        let ghost x0 = g.slice_base(side, ni as int);
        assert(neighbors@ == g.successors[ni as int]);
        assert(cs == combos(neighbors@, threshold as nat));
        assert(aq_i@ == g.member(side, ni as int));

        let mut third_term: Vec<Literal> = Vec::new();
        third_term.push(aq_i.not());
        let ghost mut j: nat = 0;
        proof {
            assert(2 * n <= x0);
            assert(clause_view(third_term@) =~= g.witness_clause(side, ni as int, 0));
            assert(base + g.slices_clauses(side, ni as int, 0) =~= base);
        }
        if threshold as usize <= neighbors.len() {
            let mut qset = combinations(neighbors, threshold as usize);
            loop
                invariant_except_break
                    pending(qset) == cs.skip(j as int),
                invariant
                    fbas.wf(),
                    g == fbas.graph_view(),
                    g.bounded(),
                    side == side_of(in_b),
                    n == g.len(),
                    n <= GRAPH_LIMIT,
                    fbas_lits.vertex_count == n,
                    ni < n,
                    cs == g.slices(ni as int),
                    x0 == g.slice_base(side, ni as int),
                    aq_i@ == g.member(side, ni as int),
                    j <= cs.len(),
                    solver_vars(*solver) == x0 + j,
                    2 * n <= x0,
                    next_var == solver_vars(*solver),
                    next_var <= VAR_LIMIT,
                    solver_clauses(*solver) == base + g.slices_clauses(side, ni as int, j),
                    clause_view(third_term@) == g.witness_clause(side, ni as int, j),
                    forall|i: int|
                        0 <= i < third_term@.len() ==> (#[trigger] third_term@[i]).var
                            < solver_vars(*solver),
                ensures
                    j == cs.len(),
                decreases cs.len() - j,
            {
                let q_slice = match next_combination(&mut qset) {
                    Some(c) => c,
                    None => {
                        break ;
                    },
                };
                proof {
                    assert(j < cs.len());
                    assert(q_slice@ == cs[j as int]);
                    lemma_combos_members(
                        g.successors[ni as int],
                        g.thresholds[ni as int] as nat,
                        j as int,
                    );
                    g.lemma_slices_upto_monotone((ni + 1) as nat, n as nat);
                }
                if next_var >= VAR_LIMIT {
                    return Err(FbasError::InternalError("Too many variables"));
                }
                // a new proposition stands for this combination
                let xi_j = fbas_lits.new_proposition(solver);
                next_var = next_var + 1;
                let ghost x = x0 + j;
                let ghost before = solver_clauses(*solver);

                let mut neg_pi_j: Vec<Literal> = Vec::new();
                neg_pi_j.push(aq_i.not());
                neg_pi_j.push(xi_j);
                let mut k: usize = 0;
                proof {
                    assert(clause_view(neg_pi_j@) =~= g.chosen_clause(
                        side,
                        ni as int,
                        q_slice@,
                        x,
                        0,
                    ));
                    assert(before + Seq::new(
                        0,
                        |k: int| g.element_clause(side, ni as int, q_slice@, x, k),
                    ) =~= before);
                }
                while k < q_slice.len()
                    invariant
                        fbas.wf(),
                        g == fbas.graph_view(),
                        g.bounded(),
                        side == side_of(in_b),
                        n == g.len(),
                        n <= GRAPH_LIMIT,
                        fbas_lits.vertex_count == n,
                        ni < n,
                        k <= q_slice@.len(),
                        forall|i: int|
                            0 <= i < q_slice@.len() ==> g.successors[ni as int].contains(
                                #[trigger] q_slice@[i],
                            ),
                        aq_i@ == g.member(side, ni as int),
                        xi_j@ == (Lit { var: x, positive: true }),
                        x < solver_vars(*solver),
                        2 * n <= solver_vars(*solver),
                        solver_vars(*solver) == x0 + j + 1,
                        solver_clauses(*solver) == before + Seq::new(
                            k as nat,
                            |k: int| g.element_clause(side, ni as int, q_slice@, x, k),
                        ),
                        clause_view(neg_pi_j@) == g.chosen_clause(
                            side,
                            ni as int,
                            q_slice@,
                            x,
                            k as nat,
                        ),
                        forall|i: int|
                            0 <= i < neg_pi_j@.len() ==> (#[trigger] neg_pi_j@[i]).var
                                < solver_vars(*solver),
                    decreases q_slice@.len() - k,
                {
                    let elem = q_slice[k];
                    proof {
                        let p = g.successors[ni as int].index_of(elem);
                        assert(g.successors[ni as int][p] == elem);
                    }
                    let elit = fbas_lits.in_quorum(in_b, elem);
                    let not_elit = elit.not();
                    proof {
                        lemma_clause_view_push(neg_pi_j@, not_elit);
                        assert(g.chosen_clause(side, ni as int, q_slice@, x, (k + 1) as nat)
                            =~= g.chosen_clause(side, ni as int, q_slice@, x, k as nat).push(
                            g.member(side, elem as int).negated(),
                        ));
                    }
                    neg_pi_j.push(not_elit);
                    let mut clause: Vec<Literal> = Vec::new();
                    clause.push(aq_i.not());
                    clause.push(xi_j.not());
                    clause.push(elit);
                    proof {
                        assert(clause_view(clause@) =~= g.element_clause(
                            side,
                            ni as int,
                            q_slice@,
                            x,
                            k as int,
                        ));
                    }
                    solver_add_clause(solver, &clause);
                    proof {
                        assert(solver_clauses(*solver) =~= before + Seq::new(
                            (k + 1) as nat,
                            |k: int| g.element_clause(side, ni as int, q_slice@, x, k),
                        ));
                    }
                    k = k + 1;
                }
                solver_add_clause(solver, &neg_pi_j);
                proof {
                    lemma_clause_view_push(third_term@, xi_j);
                    assert(g.witness_clause(side, ni as int, j + 1) =~= g.witness_clause(
                        side,
                        ni as int,
                        j,
                    ).push(Lit { var: x, positive: true }));
                }
                third_term.push(xi_j);
                proof {
                    assert(solver_clauses(*solver) =~= base + g.slices_clauses(
                        side,
                        ni as int,
                        j + 1,
                    )) by {
                        assert(solver_clauses(*solver) == (before + Seq::new(
                            q_slice@.len(),
                            |k: int| g.element_clause(side, ni as int, q_slice@, x, k),
                        )).push(clause_view(neg_pi_j@)));
                        assert(g.slices_clauses(side, ni as int, j + 1) == g.slices_clauses(
                            side,
                            ni as int,
                            j,
                        ) + g.slice_clauses(side, ni as int, cs[j as int], x));
                    }
                    assert(cs.skip(j as int).drop_first() =~= cs.skip((j + 1) as int));
                    j = j + 1;
                }
            }
        } else {
            proof {
                lemma_combos_none(neighbors@, threshold as nat);
            }
        }
        solver_add_clause(solver, &third_term);
        proof {
            assert(solver_clauses(*solver) =~= start + g.side_clauses(side, (ni + 1) as nat)) by {
                assert(solver_clauses(*solver) == (base + g.slices_clauses(
                    side,
                    ni as int,
                    cs.len(),
                )).push(g.witness_clause(side, ni as int, cs.len())));
                assert(g.side_clauses(side, (ni + 1) as nat) == g.side_clauses(side, ni as nat)
                    + g.vertex_clauses(side, ni as int));
            }
        }
        ni = ni + 1;
    }
    Ok(next_var)
}

/// `names` are the names of the validators at the vertices `indices`.
pub open spec fn names_at(fbas: Fbas, indices: Seq<usize>, names: Seq<String>) -> bool {
    &&& names.len() == indices.len()
    &&& forall|i: int|
        0 <= i < names.len() ==> (#[trigger] names[i])@ == fbas.names()[indices[i] as int]
}

/// A witness consists of vertices below `count`.
pub open spec fn witness_within(status: SolveStatusView, count: nat) -> bool {
    match status {
        SolveStatusView::Sat(a, b) => all_below(a, count) && all_below(b, count),
        _ => true,
    }
}

/// All entries of `s` are below `count`.
pub open spec fn all_below(s: Seq<usize>, count: nat) -> bool {
    forall|i: int| 0 <= i < s.len() ==> #[trigger] s[i] < count
}

/// How an analysis ended.
#[derive(Debug, PartialEq)]
pub enum SolveStatus {
    /// Two disjoint quorums were found: the validator vertices of each.
    SAT((Vec<usize>, Vec<usize>)),
    /// Every two quorums intersect.
    UNSAT,
    /// The solver gave up or was interrupted.
    UNKNOWN,
}

/// What a `SolveStatus` holds.
pub enum SolveStatusView {
    Sat(Seq<usize>, Seq<usize>),
    Unsat,
    Unknown,
}

impl View for SolveStatus {
    type V = SolveStatusView;

    open spec fn view(&self) -> SolveStatusView {
        match self {
            SolveStatus::SAT((a, b)) => SolveStatusView::Sat(a@, b@),
            SolveStatus::UNSAT => SolveStatusView::Unsat,
            SolveStatus::UNKNOWN => SolveStatusView::Unknown,
        }
    }
}

impl Clone for SolveStatus {
    fn clone(&self) -> (r: Self)
        ensures
            r@ == self@,
    {
        match self {
            SolveStatus::SAT((a, b)) => SolveStatus::SAT((copy_indices(a), copy_indices(b))),
            SolveStatus::UNSAT => SolveStatus::UNSAT,
            SolveStatus::UNKNOWN => SolveStatus::UNKNOWN,
        }
    }
}

impl Default for SolveStatus {
    fn default() -> (r: Self)
        ensures
            r@ == SolveStatusView::Unknown,
    {
        SolveStatus::UNKNOWN
    }
}

/// The status that an outcome of the solver and its model stand for.
pub open spec fn status_for(outcome: SolveOutcome, g: GraphView, model: Seq<bool>) -> SolveStatusView {
    match outcome {
        SolveOutcome::Sat => SolveStatusView::Sat(
            g.lifted(model, 0, g.count()),
            g.lifted(model, 1, g.count()),
        ),
        SolveOutcome::Unsat => SolveStatusView::Unsat,
        SolveOutcome::Unknown => SolveStatusView::Unknown,
    }
}

/// What a status must rest on: a witness consists of two disjoint
/// quorums, neither empty, and `UNSAT` is given only where no two quorums
/// are disjoint.
pub open spec fn justified(g: GraphView, status: SolveStatusView) -> bool {
    match status {
        SolveStatusView::Sat(a, b) => g.split(a.to_set(), b.to_set()),
        SolveStatusView::Unsat => !g.has_split(),
        SolveStatusView::Unknown => true,
    }
}

/// Verdicts on one graph do not contradict each other: of two statuses
/// that rest on the same graph, one is not `SAT` while the other is
/// `UNSAT`.
pub proof fn lemma_verdicts_agree(g: GraphView, first: SolveStatusView, second: SolveStatusView)
    requires
        justified(g, first),
        justified(g, second),
    ensures
        !(first is Sat && second is Unsat),
        !(first is Unsat && second is Sat),
{
}

/// The status for an outcome of the solver. Of a model, which holds the
/// value of each membership variable, it keeps the validators that are in
/// quorum A and those that are in quorum B, in the order of their
/// vertices.
pub fn status_of(outcome: SolveOutcome, fbas: &Fbas, model: &Vec<bool>) -> (r: SolveStatus)
    requires
        fbas.wf(),
    ensures
        r@ == status_for(outcome, fbas.graph_view(), model@),
{
    match outcome {
        SolveOutcome::Sat => {
            let ghost g = fbas.graph_view();
            proof {
                fbas.lemma_graph_view_bounded();
            }
            let fbas_lits = FbasLitsWrapper::new(fbas.node_count());
            let mut quorum_a: Vec<usize> = Vec::new();
            let mut quorum_b: Vec<usize> = Vec::new();
            let validators = fbas.validator_nodes();
            let mut k: usize = 0;
            while k < validators.len()
                invariant
                    g == fbas.graph_view(),
                    g.bounded(),
                    g.len() <= GRAPH_LIMIT,
                    fbas_lits.vertex_count == g.len(),
                    validators@ == g.validators,
                    k <= validators@.len(),
                    quorum_a@ == g.lifted(model@, 0, k as nat),
                    quorum_b@ == g.lifted(model@, 1, k as nat),
                decreases validators@.len() - k,
            {
                let ni = validators[k];
                let la = fbas_lits.in_quorum_a(ni);
                if (la.var as usize) < model.len() && model[la.var as usize] {
                    quorum_a.push(ni);
                }
                let lb = fbas_lits.in_quorum_b(ni);
                if (lb.var as usize) < model.len() && model[lb.var as usize] {
                    quorum_b.push(ni);
                }
                k = k + 1;
            }
            SolveStatus::SAT((quorum_a, quorum_b))
        },
        SolveOutcome::Unsat => SolveStatus::UNSAT,
        SolveOutcome::Unknown => SolveStatus::UNKNOWN,
    }
}

/// An analysis of one trust graph.
pub struct FbasAnalyzer {
    fbas: Fbas,
    solver: SatSolver,
    status: SolveStatus,
}

impl FbasAnalyzer {
    /// The graph under analysis.
    pub closed spec fn fbas(self) -> Fbas {
        self.fbas
    }

    /// How the last run of `solve` ended; `UNKNOWN` before the first.
    pub closed spec fn status(self) -> SolveStatusView {
        self.status@
    }

    /// The solver holds the formula of the graph, and a witness that the
    /// analyzer keeps consists of validators.
    pub closed spec fn wf(self) -> bool {
        let g = self.fbas.graph_view();
        &&& self.fbas.wf()
        &&& g.var_count() <= VAR_LIMIT
        &&& solver_vars(self.solver) == g.var_count()
        &&& solver_clauses(self.solver) == g.formula()
        &&& witness_within(self.status@, self.fbas.validator_count())
    }

    /// `r` is what setting up the analysis of `fbas` gives: an analyzer of
    /// that graph, unless its formula needs more variables than the solver
    /// can number.
    pub open spec fn set_up(fbas: Fbas, r: Result<FbasAnalyzer, FbasError>) -> bool {
        match r {
            Ok(analyzer) => {
                &&& analyzer.wf()
                &&& analyzer.fbas() == fbas
                &&& analyzer.status() == SolveStatusView::Unknown
                &&& fbas.graph_view().var_count() <= VAR_LIMIT
            },
            Err(FbasError::InternalError(_)) => fbas.graph_view().var_count() > VAR_LIMIT,
            Err(_) => false,
        }
    }

    /// `r` is what building a graph and setting up its analysis gives: the
    /// error of the building, or what setting up the analysis gives.
    pub open spec fn set_up_after(built: Result<Fbas, FbasError>, r: Result<
        FbasAnalyzer,
        FbasError,
    >) -> bool {
        match built {
            Ok(fbas) => fbas.wf() && Self::set_up(fbas, r),
            Err(e) => r matches Err(f) && f == e,
        }
    }

    /// Sets up the analysis of the network that the records describe:
    /// `nodes[i]` is the XDR of a node id and `quorum_set[i]` the XDR of
    /// its quorum set, or empty.
    pub fn from_quorum_set_map_buf(
        nodes: &Vec<Vec<u8>>,
        quorum_set: &Vec<Vec<u8>>,
        cb: AsyncInterrupt,
    ) -> (r: Result<Self, FbasError>)
        requires
            nodes@.len() == quorum_set@.len(),
        ensures
            exists|built: Result<Fbas, FbasError>| #[trigger]
                Fbas::read_from_buf(nodes@, quorum_set@, built) && Self::set_up_after(built, r),
    {
        let built = Fbas::from_quorum_set_map_buf(nodes, quorum_set);
        Self::after(built, cb)
    }

    /// Sets up the analysis of the network that a JSON text describes.
    pub fn from_json_text(text: &str, cb: AsyncInterrupt) -> (r: Result<Self, FbasError>)
        ensures
            exists|built: Result<Fbas, FbasError>| #[trigger]
                Fbas::read_from_json(text@, built) && Self::set_up_after(built, r),
    {
        let built = Fbas::from_json_text(text);
        Self::after(built, cb)
    }

    /// Sets up the analysis of a graph that was built, or hands on the
    /// error of the building.
    fn after(built: Result<Fbas, FbasError>, cb: AsyncInterrupt) -> (r: Result<Self, FbasError>)
        requires
            built matches Ok(fbas) ==> fbas.wf(),
        ensures
            Self::set_up_after(built, r),
    {
        match built {
            Ok(fbas) => Self::from_fbas(fbas, cb),
            Err(e) => Err(e),
        }
    }

    /// Sets up the analysis of a graph: a solver that reports to `cb` is
    /// given the membership variables and then the formula of the graph.
    /// A graph whose formula needs more variables than the solver can
    /// number is refused.
    pub fn from_fbas(fbas: Fbas, cb: AsyncInterrupt) -> (r: Result<Self, FbasError>)
        requires
            fbas.wf(),
        ensures
            Self::set_up(fbas, r),
    {
        let mut analyzer = Self { fbas, solver: solver_new(cb), status: SolveStatus::UNKNOWN };
        match analyzer.construct_formula() {
            Ok(_) => Ok(analyzer),
            Err(e) => Err(e),
        }
    }

    /// Runs the solver on the formula of the graph and keeps the outcome.
    ///
    /// `SAT` holds two disjoint quorums, neither empty: the validators
    /// that the solver's model puts in quorum A and in quorum B, in the
    /// order of their vertices. `UNSAT` says that the graph has no two
    /// disjoint quorums. `UNKNOWN` says that the solver gave up, which it
    /// does when it is interrupted.
    pub fn solve(&mut self) -> (r: SolveStatus)
        requires
            old(self).wf(),
        ensures
            final(self).wf(),
            final(self).fbas() == old(self).fbas(),
            final(self).status() == r@,
            justified(old(self).fbas().graph_view(), r@),
            r@ matches SolveStatusView::Sat(a, b) ==> exists|m: Seq<bool>|
                {
                    &&& #[trigger] satisfies(m, old(self).fbas().graph_view().formula())
                    &&& r@ == status_for(SolveOutcome::Sat, old(self).fbas().graph_view(), m)
                },
    {
        let ghost g = self.fbas.graph_view();
        proof {
            self.fbas.lemma_graph_view_structured();
        }
        let outcome = solver_solve(&mut self.solver);
        let ghost m = solver_model(self.solver);
        let mut model: Vec<bool> = Vec::new();
        match outcome {
            SolveOutcome::Sat => {
                let n = self.fbas.node_count();
                let mut x: usize = 0;
                while x < n + n
                    invariant
                        self.fbas == old(self).fbas,
                        g == self.fbas.graph_view(),
                        n == g.len(),
                        n <= GRAPH_LIMIT,
                        x <= 2 * n,
                        2 * n <= m.len(),
                        m == solver_model(self.solver),
                        solver_vars(self.solver) == solver_vars(old(self).solver),
                        solver_clauses(self.solver) == solver_clauses(old(self).solver),
                        model@ == m.take(x as int),
                    decreases 2 * n - x,
                {
                    let value = solver_value(&self.solver, x as u32);
                    model.push(value);
                    proof {
                        assert(model@ =~= m.take(x + 1));
                    }
                    x = x + 1;
                }
                proof {
                    g.lemma_model_is_split(m);
                    g.lemma_lifted_prefix(m, model@, 0, g.count());
                    g.lemma_lifted_prefix(m, model@, 1, g.count());
                    g.lemma_lifted(m, 0, g.count());
                    g.lemma_lifted(m, 1, g.count());
                    let a = g.lifted(m, 0, g.count());
                    let b = g.lifted(m, 1, g.count());
                    assert forall|i: int| 0 <= i < a.len() implies #[trigger] a[i] < g.count() by {
                        assert(a.contains(a[i]));
                    }
                    assert forall|i: int| 0 <= i < b.len() implies #[trigger] b[i] < g.count() by {
                        assert(b.contains(b[i]));
                    }
                }
            },
            SolveOutcome::Unsat => {
                proof {
                    g.lemma_no_model_no_split();
                }
            },
            SolveOutcome::Unknown => {},
        }
        self.status = status_of(outcome, &self.fbas, &model);
        self.status.clone()
    }

    /// The names of the validators at the given vertices.
    fn validator_strings(&self, quorum: &Vec<usize>) -> (r: Result<Vec<String>, FbasError>)
        requires
            self.fbas.wf(),
            all_below(quorum@, self.fbas.validator_count()),
        ensures
            r matches Ok(names) && names_at(self.fbas, quorum@, names@),
    {
        let mut names: Vec<String> = Vec::new();
        let mut i: usize = 0;
        while i < quorum.len()
            invariant
                self.fbas.wf(),
                all_below(quorum@, self.fbas.validator_count()),
                i <= quorum@.len(),
                names@.len() == i,
                forall|k: int| 0 <= k < i ==> (#[trigger] names@[k])@ == self.fbas.names()[quorum@[k] as int],
            decreases quorum@.len() - i,
        {
            let ni = quorum[i];
            match self.fbas.try_get_validator_string(ni) {
                Ok(name) => {
                    names.push(name);
                },
                Err(e) => {
                    assert(self.fbas.vertices()[ni as int] is Validator);
                    return Err(e);
                },
            }
            i = i + 1;
        }
        Ok(names)
    }

    /// The two disjoint quorums that the last run of `solve` found, by the
    /// names of their validators; two empty lists if it found none.
    pub fn get_potential_split(&self) -> (r: Result<(Vec<String>, Vec<String>), FbasError>)
        requires
            self.wf(),
        ensures
            match r {
                Ok((qa, qb)) => match self.status() {
                    SolveStatusView::Sat(a, b) => names_at(self.fbas(), a, qa@) && names_at(
                        self.fbas(),
                        b,
                        qb@,
                    ),
                    _ => qa@.len() == 0 && qb@.len() == 0,
                },
                Err(_) => false,
            },
    {
        match &self.status {
            SolveStatus::SAT((quorum_a, quorum_b)) => {
                assert(self.status@ == SolveStatusView::Sat(quorum_a@, quorum_b@));
                assert(all_below(quorum_a@, self.fbas.validator_count()));
                assert(all_below(quorum_b@, self.fbas.validator_count()));
                let qa_strings = match self.validator_strings(quorum_a) {
                    Ok(names) => names,
                    Err(e) => {
                        return Err(e);
                    },
                };
                let qb_strings = match self.validator_strings(quorum_b) {
                    Ok(names) => names,
                    Err(e) => {
                        return Err(e);
                    },
                };
                Ok((qa_strings, qb_strings))
            },
            _ => Ok((Vec::new(), Vec::new())),
        }
    }

    /// Hands the solver the variables and the formula of the graph.
    fn construct_formula(&mut self) -> (r: Result<(), FbasError>)
        requires
            old(self).fbas.wf(),
            solver_vars(old(self).solver) == 0,
            solver_clauses(old(self).solver).len() == 0,
        ensures
            final(self).fbas == old(self).fbas,
            final(self).status == old(self).status,
            match r {
                Ok(_) => {
                    let g = final(self).fbas.graph_view();
                    &&& g.var_count() <= VAR_LIMIT
                    &&& solver_vars(final(self).solver) == g.var_count()
                    &&& solver_clauses(final(self).solver) == g.formula()
                },
                Err(FbasError::InternalError(_)) => old(self).fbas.graph_view().var_count()
                    > VAR_LIMIT,
                Err(_) => false,
            },
    {
        let ghost g = self.fbas.graph_view();
        proof {
            self.fbas.lemma_graph_view_bounded();
        }
        let n = self.fbas.node_count();
        let fbas_lits = FbasLitsWrapper::new(n);

        // for each vertex one variable for its being in quorum A and one
        // for its being in quorum B
        let mut i: usize = 0;
        while i < n
            invariant
                i <= n <= GRAPH_LIMIT,
                self.fbas == old(self).fbas,
                self.status == old(self).status,
                solver_vars(self.solver) == 2 * i,
                solver_clauses(self.solver).len() == 0,
            decreases n - i,
        {
            solver_new_var(&mut self.solver);
            solver_new_var(&mut self.solver);
            i = i + 1;
        }

        // both quorums are non-empty: at least one validator is in each
        let mut in_a: Vec<Literal> = Vec::new();
        let mut in_b: Vec<Literal> = Vec::new();
        let count = self.fbas.validator_nodes().len();
        let mut k: usize = 0;
        while k < count
            invariant
                self.fbas == old(self).fbas,
                self.fbas.wf(),
                g == self.fbas.graph_view(),
                g.bounded(),
                n == g.len(),
                n <= GRAPH_LIMIT,
                fbas_lits.vertex_count == n,
                count == g.validators.len(),
                k <= count,
                clause_view(in_a@) == Seq::new(
                    k as nat,
                    |i: int| g.member(0, g.validators[i] as int),
                ),
                clause_view(in_b@) == Seq::new(
                    k as nat,
                    |i: int| g.member(1, g.validators[i] as int),
                ),
                forall|i: int| 0 <= i < in_a@.len() ==> (#[trigger] in_a@[i]).var < 2 * n,
                forall|i: int| 0 <= i < in_b@.len() ==> (#[trigger] in_b@[i]).var < 2 * n,
                solver_vars(self.solver) == 2 * n,
                solver_clauses(self.solver).len() == 0,
                self.status == old(self).status,
            decreases count - k,
        {
            let ni = self.fbas.validator_nodes()[k];
            let la = fbas_lits.in_quorum_a(ni);
            let lb = fbas_lits.in_quorum_b(ni);
            proof {
                lemma_clause_view_push(in_a@, la);
                lemma_clause_view_push(in_b@, lb);
                assert(Seq::new((k + 1) as nat, |i: int| g.member(0, g.validators[i] as int))
                    =~= Seq::new(k as nat, |i: int| g.member(0, g.validators[i] as int)).push(
                    la@,
                ));
                assert(Seq::new((k + 1) as nat, |i: int| g.member(1, g.validators[i] as int))
                    =~= Seq::new(k as nat, |i: int| g.member(1, g.validators[i] as int)).push(
                    lb@,
                ));
            }
            in_a.push(la);
            in_b.push(lb);
            k = k + 1;
        }
        solver_add_clause(&mut self.solver, &in_a);
        solver_add_clause(&mut self.solver, &in_b);
        proof {
            assert(solver_clauses(self.solver) =~= seq![g.nonempty_clause(0), g.nonempty_clause(1)]
                + g.disjoint_clauses(0));
        }

        // the quorums do not intersect: no validator is in both
        let mut k: usize = 0;
        while k < count
            invariant
                self.fbas == old(self).fbas,
                self.status == old(self).status,
                self.fbas.wf(),
                g == self.fbas.graph_view(),
                g.bounded(),
                n == g.len(),
                n <= GRAPH_LIMIT,
                fbas_lits.vertex_count == n,
                count == g.validators.len(),
                k <= count,
                solver_vars(self.solver) == 2 * n,
                solver_clauses(self.solver) == seq![g.nonempty_clause(0), g.nonempty_clause(1)]
                    + g.disjoint_clauses(k as nat),
            decreases count - k,
        {
            let ni = self.fbas.validator_nodes()[k];
            let mut clause: Vec<Literal> = Vec::new();
            clause.push(fbas_lits.in_quorum_a(ni).not());
            clause.push(fbas_lits.in_quorum_b(ni).not());
            proof {
                assert(clause_view(clause@) =~= g.disjoint_clause(ni as int));
            }
            solver_add_clause(&mut self.solver, &clause);
            proof {
                assert(solver_clauses(self.solver) =~= seq![
                    g.nonempty_clause(0),
                    g.nonempty_clause(1),
                ] + g.disjoint_clauses((k + 1) as nat));
            }
            k = k + 1;
        }

        // on each side the quorum set relation of every vertex holds
        let next = match add_clauses_for_quorum_relations(
            &self.fbas,
            &fbas_lits,
            &mut self.solver,
            false,
            n + n,
        ) {
            Ok(next) => next,
            Err(e) => {
                return Err(e);
            },
        };
        match add_clauses_for_quorum_relations(&self.fbas, &fbas_lits, &mut self.solver, true, next) {
            Ok(_) => {},
            Err(e) => {
                return Err(e);
            },
        }
        proof {
            assert(solver_clauses(self.solver) =~= g.formula());
        }
        Ok(())
    }
}

} // verus!
