//! Quorum sets as validators declare them, and the map from validators to
//! their quorum sets.

use crate::error::FbasError;
use crate::keys::key_lt;
use crate::keys::key_order;
use crate::keys::keys_increasing;
use crate::keys::lemma_key_lt_asymmetric;
use crate::keys::lemma_key_lt_transitive;
use crate::keys::KeyOrder;
use std::rc::Rc;
use vstd::prelude::*;

verus! {

/// The deepest nesting of quorum sets that the graph builder accepts.
pub const QUORUM_SET_MAX_DEPTH: u32 = 4;

/// A quorum set as a validator declares it: `threshold` of the members,
/// validators and inner sets taken together, must agree.
#[derive(Debug, Hash, PartialEq, Eq, PartialOrd, Ord)]
pub struct InternalScpQuorumSet {
    pub threshold: u32,
    pub validators: Vec<String>,
    pub inner_sets: Vec<InternalScpQuorumSet>,
}

/// The texts of names.
pub open spec fn name_views(names: Seq<String>) -> Seq<Seq<char>> {
    Seq::new(names.len(), |i: int| names[i]@)
}

/// Those among the first `n` of `names` that are none of `keys`, in
/// order, each as often as it occurs.
pub open spec fn unknown_names(keys: Seq<Seq<char>>, names: Seq<String>, n: nat) -> Seq<Seq<char>>
    decreases n,
{
    if n == 0 || n > names.len() {
        Seq::empty()
    } else {
        let rest = unknown_names(keys, names, (n - 1) as nat);
        if keys.contains(names[n - 1]@) {
            rest
        } else {
            rest.push(names[n - 1]@)
        }
    }
}

/// What a quorum set holds.
pub struct QuorumSetTree {
    pub threshold: u32,
    pub validators: Seq<Seq<char>>,
    pub inner_sets: Seq<QuorumSetTree>,
}

impl View for InternalScpQuorumSet {
    type V = QuorumSetTree;

    open spec fn view(&self) -> QuorumSetTree {
        self.tree()
    }
}

impl Clone for InternalScpQuorumSet {
    fn clone(&self) -> (r: Self)
        ensures
            r@ == self@,
        decreases self,
    {
        let mut validators: Vec<String> = Vec::new();
        let mut i: usize = 0;
        while i < self.validators.len()
            invariant
                i <= self.validators@.len(),
                validators@.len() == i,
                forall|k: int| 0 <= k < i ==> (#[trigger] validators@[k])@ == self.validators@[k]@,
            decreases self.validators@.len() - i,
        {
            validators.push(self.validators[i].clone());
            i = i + 1;
        }
        let mut inner_sets: Vec<InternalScpQuorumSet> = Vec::new();
        let mut j: usize = 0;
        while j < self.inner_sets.len()
            invariant
                j <= self.inner_sets@.len(),
                inner_sets@.len() == j,
                forall|k: int| 0 <= k < j ==> (#[trigger] inner_sets@[k])@ == self.inner_sets@[k]@,
            decreases self.inner_sets@.len() - j,
        {
            inner_sets.push(self.inner_sets[j].clone());
            j = j + 1;
        }
        let r = InternalScpQuorumSet { threshold: self.threshold, validators, inner_sets };
        proof {
            assert(r.tree().validators =~= self.tree().validators);
            assert(r.tree().inner_sets =~= self.tree().inner_sets);
        }
        r
    }
}

impl InternalScpQuorumSet {
    /// What the quorum set holds.
    pub open spec fn tree(self) -> QuorumSetTree
        decreases self,
    {
        QuorumSetTree {
            threshold: self.threshold,
            validators: Seq::new(self.validators@.len(), |i: int| self.validators@[i]@),
            inner_sets: Seq::new(
                self.inner_sets@.len(),
                |i: int|
                    if 0 <= i < self.inner_sets@.len() {
                        self.inner_sets@[i].tree()
                    } else {
                        arbitrary()
                    },
            ),
        }
    }

    /// The validators that the first `n` inner sets name, at any level,
    /// and that are none of `keys`.
    pub open spec fn unknown_inner(self, keys: Seq<Seq<char>>, n: nat) -> Seq<Seq<char>>
        decreases self, n,
    {
        if n == 0 || n > self.inner_sets@.len() {
            Seq::empty()
        } else {
            self.unknown_inner(keys, (n - 1) as nat) + self.inner_sets@[n - 1].unknown(keys)
        }
    }

    /// The validators that the set names, at any level, and that are none
    /// of `keys`: first those among its own validators, then those of its
    /// inner sets, in order.
    pub open spec fn unknown(self, keys: Seq<Seq<char>>) -> Seq<Seq<char>>
        decreases self, self.inner_sets@.len() + 1,
    {
        unknown_names(keys, self.validators@, self.validators@.len()) + self.unknown_inner(
            keys,
            self.inner_sets@.len(),
        )
    }

    /// The greatest height among the first `n` inner sets.
    pub open spec fn inner_height(self, n: nat) -> nat
        decreases self, n,
    {
        if n == 0 || n > self.inner_sets@.len() {
            0
        } else {
            let rest = self.inner_height((n - 1) as nat);
            let last = self.inner_sets@[n - 1].height();
            if rest >= last {
                rest
            } else {
                last
            }
        }
    }

    /// The number of nesting levels: 1 for a set without inner sets.
    pub open spec fn height(self) -> nat
        decreases self, self.inner_sets@.len() + 1,
    {
        1 + self.inner_height(self.inner_sets@.len())
    }

    /// The footprints of the first `n` inner sets, added up.
    pub open spec fn inner_footprint(self, n: nat) -> nat
        decreases self, n,
    {
        if n == 0 || n > self.inner_sets@.len() {
            0
        } else {
            self.inner_footprint((n - 1) as nat) + self.inner_sets@[n - 1].footprint()
        }
    }

    /// An upper bound on the vertices and edges that this set, at all its
    /// levels, adds to a trust graph: two for each set, the vertex and the
    /// edge that leads to it, and one for each validator entry.
    pub open spec fn footprint(self) -> nat
        decreases self, self.inner_sets@.len() + 1,
    {
        2 + self.validators@.len() + self.inner_footprint(self.inner_sets@.len())
    }

    /// Every inner set is at most as high as `inner_height` says.
    pub proof fn lemma_inner_height_bounds(self, n: nat, i: int)
        requires
            0 <= i < n <= self.inner_sets@.len(),
        ensures
            self.inner_sets@[i].height() <= self.inner_height(n),
        decreases n,
    {
        if i < n - 1 {
            self.lemma_inner_height_bounds((n - 1) as nat, i);
        }
    }

    /// Whether the set has at most `limit` nesting levels.
    pub fn height_within(&self, limit: u32) -> (r: bool)
        ensures
            r == (self.height() <= limit),
        decreases self,
    {
        if limit == 0 {
            return false;
        }
        let mut i: usize = 0;
        while i < self.inner_sets.len()
            invariant
                limit > 0,
                i <= self.inner_sets@.len(),
                self.inner_height(i as nat) <= limit - 1,
            decreases self.inner_sets@.len() - i,
        {
            if !self.inner_sets[i].height_within(limit - 1) {
                proof {
                    self.lemma_inner_height_bounds(self.inner_sets@.len() as nat, i as int);
                }
                return false;
            }
            i = i + 1;
        }
        true
    }

    /// The footprint, unless it exceeds `limit`.
    pub fn footprint_within(&self, limit: usize) -> (r: Option<usize>)
        ensures
            match r {
                Some(n) => n == self.footprint() && n <= limit,
                None => self.footprint() > limit,
            },
        decreases self,
    {
        if limit < 2 || self.validators.len() > limit - 2 {
            return None;
        }
        let mut total: usize = 2 + self.validators.len();
        let mut i: usize = 0;
        while i < self.inner_sets.len()
            invariant
                i <= self.inner_sets@.len(),
                total == 2 + self.validators@.len() + self.inner_footprint(i as nat),
                total <= limit,
            decreases self.inner_sets@.len() - i,
        {
            match self.inner_sets[i].footprint_within(limit - total) {
                Some(n) => {
                    total = total + n;
                },
                None => {
                    proof {
                        self.lemma_inner_footprint_monotone(
                            (i + 1) as nat,
                            self.inner_sets@.len() as nat,
                        );
                    }
                    return None;
                },
            }
            i = i + 1;
        }
        Some(total)
    }

    /// The sum over more inner sets is not smaller.
    pub proof fn lemma_inner_footprint_monotone(self, m: nat, n: nat)
        requires
            m <= n <= self.inner_sets@.len(),
        ensures
            self.inner_footprint(m) <= self.inner_footprint(n),
        decreases n,
    {
        if m < n {
            self.lemma_inner_footprint_monotone(m, (n - 1) as nat);
        }
    }
}

/// The quorum sets of a network, by validator. The validators are kept in
/// the order of `key_lt`, each once. A quorum set is shared with whoever
/// else holds it.
#[derive(Debug)]
pub struct QuorumSetMap {
    names: Vec<String>,
    sets: Vec<Rc<InternalScpQuorumSet>>,
}

impl QuorumSetMap {
    /// The validators, in order.
    pub closed spec fn keys(self) -> Seq<Seq<char>> {
        Seq::new(self.names@.len(), |i: int| self.names@[i]@)
    }

    /// The quorum sets, each at the place of its validator in `keys`.
    pub closed spec fn sets(self) -> Seq<InternalScpQuorumSet> {
        Seq::new(self.sets@.len(), |i: int| *self.sets@[i])
    }

    pub open spec fn wf(self) -> bool {
        &&& self.keys().len() == self.sets().len()
        &&& keys_increasing(self.keys())
    }

    /// What the map holds: for each validator what its quorum set holds.
    pub open spec fn trees(self) -> Map<Seq<char>, QuorumSetTree> {
        Map::new(|k: Seq<char>| self@.dom().contains(k), |k: Seq<char>| self@[k]@)
    }

    /// The map as a mathematical map.
    pub open spec fn view(self) -> Map<Seq<char>, InternalScpQuorumSet> {
        Map::new(
            |k: Seq<char>| self.keys().contains(k),
            |k: Seq<char>| self.sets()[self.keys().index_of(k)],
        )
    }

    /// The footprints of the first `n` quorum sets, added up.
    pub open spec fn footprint_upto(self, n: nat) -> nat
        decreases n,
    {
        if n == 0 || n > self.sets().len() {
            0
        } else {
            self.footprint_upto((n - 1) as nat) + self.sets()[n - 1].footprint()
        }
    }

    /// An upper bound on the vertices and edges of the trust graph of this
    /// map: one vertex for each validator, and the footprint of each quorum
    /// set.
    pub open spec fn graph_footprint(self) -> nat {
        self.keys().len() + self.footprint_upto(self.sets().len())
    }

    /// Some quorum set is nested more deeply than `QUORUM_SET_MAX_DEPTH`.
    pub open spec fn too_deep(self) -> bool {
        exists|i: int|
            0 <= i < self.sets().len() && #[trigger] self.sets()[i].height()
                > QUORUM_SET_MAX_DEPTH
    }

    pub fn new() -> (r: Self)
        ensures
            r.wf(),
            r.keys().len() == 0,
            r@ == Map::<Seq<char>, InternalScpQuorumSet>::empty(),
    {
        let r = QuorumSetMap { names: Vec::new(), sets: Vec::new() };
        assert(r@ =~= Map::<Seq<char>, InternalScpQuorumSet>::empty());
        r
    }

    pub fn len(&self) -> (n: usize)
        requires
            self.wf(),
        ensures
            n == self.keys().len(),
    {
        self.names.len()
    }

    /// The validators that the first `n` quorum sets name and that the map
    /// does not hold.
    pub open spec fn unknown_upto(self, n: nat) -> Seq<Seq<char>>
        decreases n,
    {
        if n == 0 || n > self.sets().len() {
            Seq::empty()
        } else {
            self.unknown_upto((n - 1) as nat) + self.sets()[n - 1].unknown(self.keys())
        }
    }

    /// Appends to `out` the validators that `q` names, at any level, and
    /// that the map does not hold.
    fn collect_unknown(&self, q: &InternalScpQuorumSet, out: &mut Vec<String>)
        requires
            self.wf(),
        ensures
            name_views(final(out)@) == name_views(old(out)@) + q.unknown(self.keys()),
        decreases q,
    {
        let ghost start = name_views(out@);
        let mut i: usize = 0;
        proof {
            assert(start + unknown_names(self.keys(), q.validators@, 0) =~= start);
        }
        while i < q.validators.len()
            invariant
                self.wf(),
                i <= q.validators@.len(),
                name_views(out@) == start + unknown_names(self.keys(), q.validators@, i as nat),
            decreases q.validators@.len() - i,
        {
            if self.position(q.validators[i].as_str()).is_none() {
                let name = q.validators[i].clone();
                proof {
                    let seen = unknown_names(self.keys(), q.validators@, i as nat);
                    assert(name@ == q.validators@[i as int]@);
                    assert(unknown_names(self.keys(), q.validators@, (i + 1) as nat) == seen.push(
                        name@,
                    ));
                    assert(name_views(out@.push(name)) =~= name_views(out@).push(name@));
                    assert((start + seen).push(name@) =~= start + seen.push(name@));
                }
                out.push(name);
            }
            i = i + 1;
        }
        let ghost own = name_views(out@);
        let mut j: usize = 0;
        proof {
            assert(own + q.unknown_inner(self.keys(), 0) =~= own);
        }
        while j < q.inner_sets.len()
            invariant
                self.wf(),
                j <= q.inner_sets@.len(),
                own == start + unknown_names(self.keys(), q.validators@, q.validators@.len()),
                name_views(out@) == own + q.unknown_inner(self.keys(), j as nat),
            decreases q.inner_sets@.len() - j,
        {
            self.collect_unknown(&q.inner_sets[j], out);
            proof {
                assert(name_views(out@) =~= own + q.unknown_inner(self.keys(), (j + 1) as nat));
            }
            j = j + 1;
        }
        proof {
            assert(name_views(out@) =~= start + q.unknown(self.keys()));
        }
    }

    /// The validators that the quorum sets of the map name and that the
    /// map does not hold: those that the graph builder passes over. They
    /// come in the order in which the builder meets them, each as often
    /// as it is named.
    pub fn unknown_validators(&self) -> (r: Vec<String>)
        requires
            self.wf(),
        ensures
            name_views(r@) == self.unknown_upto(self.sets().len()),
    {
        let mut r: Vec<String> = Vec::new();
        let mut i: usize = 0;
        proof {
            assert(name_views(r@) =~= self.unknown_upto(0));
        }
        while i < self.sets.len()
            invariant
                self.wf(),
                i <= self.sets().len(),
                name_views(r@) == self.unknown_upto(i as nat),
            decreases self.sets().len() - i,
        {
            let set: &InternalScpQuorumSet = &*self.sets[i];
            self.collect_unknown(set, &mut r);
            i = i + 1;
        }
        r
    }

    /// The footprints of all quorum sets, added up, unless the sum exceeds
    /// `limit`.
    pub fn footprint_within(&self, limit: usize) -> (r: Option<usize>)
        requires
            self.wf(),
        ensures
            match r {
                Some(n) => n == self.footprint_upto(self.sets().len()) && n <= limit,
                None => self.footprint_upto(self.sets().len()) > limit,
            },
    {
        let mut total: usize = 0;
        let mut i: usize = 0;
        while i < self.sets.len()
            invariant
                i <= self.sets().len(),
                total == self.footprint_upto(i as nat),
                total <= limit,
            decreases self.sets().len() - i,
        {
            let set: &InternalScpQuorumSet = &*self.sets[i];
            match set.footprint_within(limit - total) {
                Some(n) => {
                    total = total + n;
                },
                None => {
                    proof {
                        self.lemma_footprint_monotone((i + 1) as nat, self.sets().len());
                    }
                    return None;
                },
            }
            i = i + 1;
        }
        Some(total)
    }

    /// The sum over more quorum sets is not smaller.
    pub proof fn lemma_footprint_monotone(self, m: nat, n: nat)
        requires
            m <= n <= self.sets().len(),
        ensures
            self.footprint_upto(m) <= self.footprint_upto(n),
        decreases n,
    {
        if m < n {
            self.lemma_footprint_monotone(m, (n - 1) as nat);
        }
    }

    /// In a well-formed map every validator is found at its own place.
    pub proof fn lemma_lookup(self, i: int)
        requires
            self.wf(),
            0 <= i < self.keys().len(),
        ensures
            self@.dom().contains(self.keys()[i]),
            self@[self.keys()[i]] == self.sets()[i],
    {
        let k = self.keys()[i];
        let j = self.keys().index_of(k);
        if j < i {
            lemma_key_lt_asymmetric(self.keys()[j], self.keys()[i]);
        }
        if i < j {
            lemma_key_lt_asymmetric(self.keys()[i], self.keys()[j]);
        }
    }

    /// The validator at place `i`.
    pub fn key_at(&self, i: usize) -> (r: &String)
        requires
            self.wf(),
            i < self.keys().len(),
        ensures
            r@ == self.keys()[i as int],
    {
        &self.names[i]
    }

    /// The quorum set of the validator at place `i`.
    pub fn set_at(&self, i: usize) -> (r: &InternalScpQuorumSet)
        requires
            self.wf(),
            i < self.keys().len(),
        ensures
            *r == self.sets()[i as int],
    {
        &*self.sets[i]
    }

    /// The place of a validator among the keys, if it is one of them.
    pub fn position(&self, key: &str) -> (r: Option<usize>)
        requires
            self.wf(),
        ensures
            match r {
                Some(i) => i < self.keys().len() && self.keys()[i as int] == key@,
                None => !self.keys().contains(key@),
            },
    {
        let mut lo: usize = 0;
        let mut hi: usize = self.names.len();
        while lo < hi
            invariant
                self.wf(),
                lo <= hi <= self.keys().len(),
                forall|k: int| 0 <= k < lo ==> key_lt(#[trigger] self.keys()[k], key@),
                forall|k: int| hi <= k < self.keys().len() ==> key_lt(key@, #[trigger] self.keys()[k]),
            decreases hi - lo,
        {
            let mid = lo + (hi - lo) / 2;
            match key_order(self.names[mid].as_str(), key) {
                KeyOrder::Same => {
                    return Some(mid);
                },
                KeyOrder::Before => {
                    assert forall|k: int| 0 <= k < mid + 1 implies key_lt(
                        #[trigger] self.keys()[k],
                        key@,
                    ) by {
                        if k < mid {
                            lemma_key_lt_transitive(self.keys()[k], self.keys()[mid as int], key@);
                        }
                    }
                    lo = mid + 1;
                },
                KeyOrder::After => {
                    assert forall|k: int| mid <= k < self.keys().len() implies key_lt(
                        key@,
                        #[trigger] self.keys()[k],
                    ) by {
                        if mid < k {
                            lemma_key_lt_transitive(key@, self.keys()[mid as int], self.keys()[k]);
                        }
                    }
                    hi = mid;
                },
            }
        }
        proof {
            if self.keys().contains(key@) {
                let k = self.keys().index_of(key@);
                if k < lo {
                    lemma_key_lt_asymmetric(self.keys()[k], key@);
                } else {
                    lemma_key_lt_asymmetric(key@, self.keys()[k]);
                }
            }
        }
        None
    }

    /// The quorum set that a validator declares, if the map holds one.
    pub fn get(&self, key: &str) -> (r: Option<&InternalScpQuorumSet>)
        requires
            self.wf(),
        ensures
            match r {
                Some(q) => self@.dom().contains(key@) && *q == self@[key@],
                None => !self@.dom().contains(key@),
            },
    {
        match self.position(key) {
            Some(i) => {
                proof {
                    self.lemma_lookup(i as int);
                }
                Some(&*self.sets[i])
            },
            None => None,
        }
    }

    /// Enters the quorum set of one more validator, which the map then
    /// shares with the caller. A validator that the map holds already is
    /// refused, and the map stays as it was.
    pub fn insert(&mut self, key: String, quorum_set: Rc<InternalScpQuorumSet>) -> (r: Result<
        (),
        FbasError,
    >)
        requires
            old(self).wf(),
        ensures
            final(self).wf(),
            match r {
                Ok(_) => {
                    &&& !old(self)@.dom().contains(key@)
                    &&& final(self)@ == old(self)@.insert(key@, *quorum_set)
                },
                Err(FbasError::DuplicateValidator(k)) => {
                    &&& old(self)@.dom().contains(key@)
                    &&& k@ == key@
                    &&& final(self).keys() == old(self).keys()
                    &&& final(self).sets() == old(self).sets()
                },
                Err(_) => false,
            },
    {
        let mut p: usize = 0;
        while p < self.names.len()
            invariant
                self.wf(),
                *self == *old(self),
                p <= self.keys().len(),
                forall|k: int| 0 <= k < p ==> key_lt(#[trigger] self.keys()[k], key@),
            ensures
                p < self.keys().len() ==> key_lt(key@, self.keys()[p as int]),
            decreases self.keys().len() - p,
        {
            match key_order(self.names[p].as_str(), key.as_str()) {
                KeyOrder::Before => {
                    p = p + 1;
                },
                KeyOrder::Same => {
                    assert(self.keys()[p as int] == key@);
                    return Err(FbasError::DuplicateValidator(key));
                },
                KeyOrder::After => {
                    break ;
                },
            }
        }
        let ghost before = *self;
        proof {
            assert forall|k: int| p <= k < before.keys().len() implies key_lt(
                key@,
                #[trigger] before.keys()[k],
            ) by {
                if p < k {
                    lemma_key_lt_transitive(key@, before.keys()[p as int], before.keys()[k]);
                }
            }
            if before.keys().contains(key@) {
                let k = before.keys().index_of(key@);
                if k < p {
                    lemma_key_lt_asymmetric(before.keys()[k], key@);
                } else {
                    lemma_key_lt_asymmetric(key@, before.keys()[k]);
                }
            }
        }
        self.names.insert(p, key);
        self.sets.insert(p, quorum_set);
        proof {
            assert(self.keys() =~= before.keys().insert(p as int, key@));
            assert(self.sets() =~= before.sets().insert(p as int, *quorum_set));
            assert(self.wf());
            assert forall|k: Seq<char>| #[trigger] self@.dom().contains(k) <==> before@.insert(
                key@,
                *quorum_set,
            ).dom().contains(k) by {
                assert(self.keys()[p as int] == key@);
                if before.keys().contains(k) {
                    let j = before.keys().index_of(k);
                    if j < p {
                        assert(self.keys()[j] == k);
                    } else {
                        assert(self.keys()[j + 1] == k);
                    }
                    assert(self.keys().contains(k));
                }
                if k == key@ {
                    assert(self.keys().contains(k));
                }
                if self.keys().contains(k) {
                    let j = self.keys().index_of(k);
                    if j < p {
                        assert(before.keys()[j] == k);
                        assert(before.keys().contains(k));
                    } else if j > p {
                        assert(before.keys()[j - 1] == k);
                        assert(before.keys().contains(k));
                    }
                }
            }
            assert forall|k: Seq<char>| #[trigger] self@.dom().contains(k) implies self@[k]
                == before@.insert(key@, *quorum_set)[k] by {
                let j = self.keys().index_of(k);
                self.lemma_lookup(j);
                if j < p {
                    before.lemma_lookup(j);
                } else if j > p {
                    before.lemma_lookup(j - 1);
                    lemma_key_lt_asymmetric(key@, before.keys()[j - 1]);
                }
            }
            assert(self@ =~= before@.insert(key@, *quorum_set));
        }
        Ok(())
    }
}

} // verus!
