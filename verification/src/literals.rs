//! Literals, clauses and what it means to satisfy them.

use vstd::prelude::*;

verus! {

/// A literal as the contracts speak of it.
pub struct Lit {
    pub var: int,
    pub positive: bool,
}

impl Lit {
    /// The literal of the same variable and the other polarity.
    pub open spec fn negated(self) -> Lit {
        Lit { var: self.var, positive: !self.positive }
    }

    /// Whether the literal is true under the assignment `m`. A variable
    /// that `m` does not reach makes no literal true.
    pub open spec fn holds(self, m: Seq<bool>) -> bool {
        0 <= self.var < m.len() && m[self.var] == self.positive
    }
}

/// Whether some literal of the clause is true under `m`.
pub open spec fn clause_holds(c: Seq<Lit>, m: Seq<bool>) -> bool {
    exists|k: int| 0 <= k < c.len() && (#[trigger] c[k]).holds(m)
}

/// Whether every clause of the formula holds under `m`.
pub open spec fn satisfies(m: Seq<bool>, f: Seq<Seq<Lit>>) -> bool {
    forall|i: int| 0 <= i < f.len() ==> clause_holds(#[trigger] f[i], m)
}

/// The views of the literals of a clause.
pub open spec fn clause_view(c: Seq<Literal>) -> Seq<Lit> {
    Seq::new(c.len(), |k: int| c[k]@)
}

/// A propositional literal: a solver variable together with its polarity.
#[derive(Clone, Copy, Debug, PartialEq, Eq, Structural)]
pub struct Literal {
    pub var: u32,
    pub positive: bool,
}

impl View for Literal {
    type V = Lit;

    open spec fn view(&self) -> Lit {
        Lit { var: self.var as int, positive: self.positive }
    }
}

impl Literal {
    /// The literal of the same variable and the other polarity.
    pub fn not(self) -> (r: Literal)
        ensures
            r@ == self@.negated(),
    {
        Literal { var: self.var, positive: !self.positive }
    }
}

/// The view of a clause with one more literal.
pub proof fn lemma_clause_view_push(c: Seq<Literal>, l: Literal)
    ensures
        clause_view(c.push(l)) == clause_view(c).push(l@),
{
    assert(clause_view(c.push(l)) =~= clause_view(c).push(l@));
}

/// A formula holds under `m` exactly if both its halves do.
pub proof fn lemma_satisfies_concat(m: Seq<bool>, a: Seq<Seq<Lit>>, b: Seq<Seq<Lit>>)
    ensures
        satisfies(m, a + b) <==> satisfies(m, a) && satisfies(m, b),
{
    if satisfies(m, a + b) {
        assert forall|i: int| 0 <= i < a.len() implies clause_holds(#[trigger] a[i], m) by {
            assert((a + b)[i] == a[i]);
        }
        assert forall|i: int| 0 <= i < b.len() implies clause_holds(#[trigger] b[i], m) by {
            assert((a + b)[a.len() + i] == b[i]);
        }
    }
    if satisfies(m, a) && satisfies(m, b) {
        assert forall|i: int| 0 <= i < (a + b).len() implies clause_holds(
            #[trigger] (a + b)[i],
            m,
        ) by {
            if i < a.len() {
                assert((a + b)[i] == a[i]);
            } else {
                assert((a + b)[i] == b[i - a.len()]);
            }
        }
    }
}

/// A formula with one more clause holds under `m` exactly if the formula
/// and the clause do.
pub proof fn lemma_satisfies_push(m: Seq<bool>, a: Seq<Seq<Lit>>, c: Seq<Lit>)
    ensures
        satisfies(m, a.push(c)) <==> satisfies(m, a) && clause_holds(c, m),
{
    assert(a.push(c) =~= a + seq![c]);
    lemma_satisfies_concat(m, a, seq![c]);
    if clause_holds(c, m) {
        assert forall|i: int| 0 <= i < seq![c].len() implies clause_holds(
            #[trigger] seq![c][i],
            m,
        ) by {}
    }
    if satisfies(m, seq![c]) {
        assert(seq![c][0] == c);
    }
}

} // verus!
