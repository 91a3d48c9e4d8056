//! The SAT solver, `batsat`, behind contracts.

use crate::literals::satisfies;
use crate::literals::clause_view;
use crate::literals::Lit;
use crate::literals::Literal;
use batsat::callbacks::AsyncInterrupt;
use batsat::interface::SolveResult;
use batsat::intmap::AsIndex;
use batsat::lbool;
use batsat::theory::EmptyTheory;
use batsat::Solver;
use batsat::SolverInterface;
use batsat::Var;
use vstd::prelude::*;

verus! {

/// A `batsat::Solver` with `AsyncInterrupt` callbacks: a solver that can be
/// interrupted from another thread. The library sees of it only what the
/// functions below say.
#[verifier::external_body]
pub struct SatSolver {
    inner: Solver<AsyncInterrupt>,
}

/// `batsat::callbacks::AsyncInterrupt`: the callbacks of a solver that
/// stops when the handle that was taken from them is triggered. The
/// library only hands them on to the solver.
#[verifier::external_type_specification]
#[verifier::external_body]
pub struct ExAsyncInterrupt(AsyncInterrupt);

/// The solver can number this many variables.
pub const VAR_LIMIT: usize = 0x7fff_fffe;

/// The number of variables that a solver has handed out. They are numbered
/// from 0 in the order in which they were handed out.
pub uninterp spec fn solver_vars(s: SatSolver) -> nat;

/// The problem of a solver: the clauses that it was given, in the order in
/// which it was given them.
pub uninterp spec fn solver_clauses(s: SatSolver) -> Seq<Seq<Lit>>;

/// The model that a solver found last: for each variable, whether the
/// solver reports it as true.
pub uninterp spec fn solver_model(s: SatSolver) -> Seq<bool>;

/// How a run of the solver ended.
#[derive(Clone, Copy, Debug, PartialEq, Eq, Structural)]
pub enum SolveOutcome {
    Sat,
    Unsat,
    Unknown,
}

/// `Solver::new` with the default options: a solver without variables or
/// clauses, which reports to `cb`.
#[verifier::external_body]
pub(crate) fn solver_new(cb: AsyncInterrupt) -> (s: SatSolver)
    ensures
        solver_vars(s) == 0,
        solver_clauses(s).len() == 0,
{
    SatSolver { inner: Solver::new(Default::default(), cb) }
}

/// `SolverInterface::new_var_default`: hands out the next variable, a
/// decision variable, and returns its number. The solver numbers its
/// variables below `u32::MAX / 2`.
#[verifier::external_body]
pub(crate) fn solver_new_var(s: &mut SatSolver) -> (v: u32)
    requires
        solver_vars(*old(s)) < VAR_LIMIT,
    ensures
        v == solver_vars(*old(s)),
        solver_vars(*final(s)) == solver_vars(*old(s)) + 1,
        solver_clauses(*final(s)) == solver_clauses(*old(s)),
{
    s.inner.new_var_default().idx()
}

/// `SolverInterface::add_clause_reuse`: adds a clause to the problem. Its
/// variables must have been handed out by the solver.
#[verifier::external_body]
pub(crate) fn solver_add_clause(s: &mut SatSolver, clause: &Vec<Literal>)
    requires
        forall|k: int| 0 <= k < clause@.len() ==> (#[trigger] clause@[k]).var < solver_vars(*old(s)),
    ensures
        solver_vars(*final(s)) == solver_vars(*old(s)),
        solver_clauses(*final(s)) == solver_clauses(*old(s)).push(clause_view(clause@)),
{
    let mut lits: Vec<batsat::Lit> = clause.iter().map(
        |l| batsat::Lit::new(Var::from_index(l.var as usize), l.positive),
    ).collect();
    s.inner.add_clause_reuse(&mut lits);
}

/// `SolverInterface::solve_limited_th_full` without a theory or
/// assumptions. The problem stays as it is. Where the solver answers that
/// the problem is satisfiable, its model assigns every variable and no
/// clause is false under it; where it answers that the problem is
/// unsatisfiable, no assignment of its variables satisfies every clause.
/// It may give up at any time, and does so when it is interrupted.
#[verifier::external_body]
pub(crate) fn solver_solve(s: &mut SatSolver) -> (r: SolveOutcome)
    ensures
        solver_vars(*final(s)) == solver_vars(*old(s)),
        solver_clauses(*final(s)) == solver_clauses(*old(s)),
        r == SolveOutcome::Sat ==> {
            &&& solver_model(*final(s)).len() == solver_vars(*final(s))
            &&& satisfies(solver_model(*final(s)), solver_clauses(*final(s)))
        },
        r == SolveOutcome::Unsat ==> forall|m: Seq<bool>|
            m.len() == solver_vars(*final(s)) ==> !#[trigger] satisfies(
                m,
                solver_clauses(*final(s)),
            ),
{
    let mut th = EmptyTheory::new();
    let outcome = match s.inner.solve_limited_th_full(&mut th, &[]) {
        SolveResult::Sat(_) => SolveOutcome::Sat,
        SolveResult::Unsat(_) => SolveOutcome::Unsat,
        SolveResult::Unknown(_) => SolveOutcome::Unknown,
    };
    outcome
}

/// `SolverInterface::value_lit` on the positive literal of a variable:
/// whether the model that the solver found last makes the variable true.
#[verifier::external_body]
pub(crate) fn solver_value(s: &SatSolver, var: u32) -> (b: bool)
    requires
        var < VAR_LIMIT,
    ensures
        b == (var < solver_model(*s).len() && solver_model(*s)[var as int]),
{
    s.inner.value_lit(batsat::Lit::new(Var::from_index(var as usize), true)) == lbool::TRUE
}

} // verus!
