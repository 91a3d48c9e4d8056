//! The trust graph of a federated Byzantine agreement system: validators
//! and the quorum sets they declare, each distinct quorum set kept once.

use crate::encoding::GraphView;
use crate::error::FbasError;
use crate::graph::edge_total;
use crate::graph::graph_add_edge;
use crate::graph::graph_add_node;
use crate::graph::graph_neighbors;
use crate::graph::graph_new;
use crate::graph::graph_node_count;
use crate::graph::graph_node_weight;
use crate::graph::graph_update_edge;
use crate::graph::node_weights;
use crate::graph::successors;
use crate::index_set::increasing;
use crate::index_set::lemma_sorted_indices;
use crate::index_set::lemma_sorted_indices_insert;
use crate::index_set::sorted_indices;
use crate::index_set::insert_sorted;
use crate::index_set::same_indices;
use crate::keys::keys_increasing;
use crate::keys::lemma_key_lt_asymmetric;
use crate::quorum_set::InternalScpQuorumSet;
use crate::quorum_set::QuorumSetMap;
use crate::quorum_set::QUORUM_SET_MAX_DEPTH;
use crate::ordered::indices_of;
use petgraph::graph::Graph;
use petgraph::Directed;
use std::collections::BTreeSet;
use vstd::prelude::*;

verus! {

/// The greatest number of vertices and edges, taken together, that a trust
/// graph may hold.
pub const GRAPH_LIMIT: usize = 0x3fff_ffff;

/// A quorum set in the graph: a threshold over validator vertices and over
/// the vertices of inner quorum sets. Two quorum sets with the same
/// threshold and the same members are equal.
#[derive(Debug, Clone, PartialEq, PartialOrd, Eq, Ord, Default)]
pub struct Qset {
    pub threshold: u32,
    pub validators: BTreeSet<usize>,
    pub inner_qsets: BTreeSet<usize>,
}

/// A vertex of the trust graph.
#[derive(Debug)]
pub enum Vertex {
    Validator(String),
    QSet(Qset),
}

/// What a `Qset` holds: its threshold and its members in increasing
/// order.
pub struct QsetView {
    pub threshold: u32,
    pub validators: Seq<usize>,
    pub inner_qsets: Seq<usize>,
}

/// What a `Vertex` holds.
pub enum VertexView {
    Validator(Seq<char>),
    QSet(QsetView),
}

impl QsetView {
    /// The members, validators first.
    pub open spec fn members(self) -> Seq<usize> {
        self.validators + self.inner_qsets
    }
}

impl View for Qset {
    type V = QsetView;

    open spec fn view(&self) -> QsetView {
        QsetView {
            threshold: self.threshold,
            validators: sorted_indices(self.validators@),
            inner_qsets: sorted_indices(self.inner_qsets@),
        }
    }
}

impl View for Vertex {
    type V = VertexView;

    open spec fn view(&self) -> VertexView {
        match self {
            Vertex::Validator(name) => VertexView::Validator(name@),
            Vertex::QSet(q) => VertexView::QSet(q@),
        }
    }
}

impl Vertex {
    /// The number of successors that must agree: what a quorum set
    /// declares, and 1 for a validator, which has its quorum set as its
    /// one successor.
    pub fn get_threshold(&self) -> (t: u32)
        ensures
            t == vertex_threshold(self@),
    {
        match self {
            Vertex::Validator(_) => 1,
            Vertex::QSet(qset) => qset.threshold,
        }
    }
}

pub open spec fn vertex_threshold(v: VertexView) -> u32 {
    match v {
        VertexView::Validator(_) => 1,
        VertexView::QSet(q) => q.threshold,
    }
}

/// What an `Fbas` holds: its vertices, and for each validator the vertex
/// of its quorum set.
pub struct FbasView {
    pub vertices: Seq<VertexView>,
    pub roots: Seq<usize>,
}

/// The index of a validator among the known ones.
pub open spec fn key_index(keys: Seq<Seq<char>>, name: Seq<char>) -> Option<usize> {
    if keys.contains(name) {
        Some(keys.index_of(name) as usize)
    } else {
        None
    }
}

/// The indices of those among the first `n` of `names` that are known
/// validators; the others are left out.
pub open spec fn known_indices(keys: Seq<Seq<char>>, names: Seq<String>, n: nat) -> Seq<usize>
    decreases n,
{
    if n == 0 || n > names.len() {
        Seq::empty()
    } else {
        let acc = known_indices(keys, names, (n - 1) as nat);
        match key_index(keys, names[n - 1]@) {
            Some(i) => insert_sorted(acc, i),
            None => acc,
        }
    }
}

/// The index of a vertex equal to `v`, if there is one.
pub open spec fn find_vertex(vs: Seq<VertexView>, v: VertexView) -> Option<usize> {
    if vs.contains(v) {
        Some(vs.index_of(v) as usize)
    } else {
        None
    }
}

/// Interning: the vertices after `q` and the sets below it have been
/// entered into `vs`, and the index of the vertex that stands for `q`. A
/// quorum set that is equal to one already there shares its vertex.
pub open spec fn intern(vs: Seq<VertexView>, keys: Seq<Seq<char>>, q: InternalScpQuorumSet) -> (
    Seq<VertexView>,
    usize,
)
    decreases q, q.inner_sets@.len() + 1,
{
    let (vs1, inner) = intern_inner(vs, keys, q, q.inner_sets@.len());
    let v = VertexView::QSet(
        QsetView {
            threshold: q.threshold,
            validators: known_indices(keys, q.validators@, q.validators@.len()),
            inner_qsets: inner,
        },
    );
    match find_vertex(vs1, v) {
        Some(i) => (vs1, i),
        None => (vs1.push(v), vs1.len() as usize),
    }
}

/// The vertices after the first `n` inner sets of `q` have been interned,
/// and the indices of their vertices.
pub open spec fn intern_inner(
    vs: Seq<VertexView>,
    keys: Seq<Seq<char>>,
    q: InternalScpQuorumSet,
    n: nat,
) -> (Seq<VertexView>, Seq<usize>)
    decreases q, n,
{
    if n == 0 || n > q.inner_sets@.len() {
        (vs, Seq::empty())
    } else {
        let (vs1, acc) = intern_inner(vs, keys, q, (n - 1) as nat);
        let (vs2, i) = intern(vs1, keys, q.inner_sets@[n - 1]);
        (vs2, insert_sorted(acc, i))
    }
}

/// One validator vertex for each key, in the order of the keys.
pub open spec fn validator_vertices(keys: Seq<Seq<char>>) -> Seq<VertexView> {
    Seq::new(keys.len(), |i: int| VertexView::Validator(keys[i]))
}

/// The graph after the quorum sets of the first `n` validators have been
/// interned.
pub open spec fn build_upto(keys: Seq<Seq<char>>, sets: Seq<InternalScpQuorumSet>, n: nat) -> FbasView
    decreases n,
{
    if n == 0 || n > sets.len() {
        FbasView { vertices: validator_vertices(keys), roots: Seq::empty() }
    } else {
        let before = build_upto(keys, sets, (n - 1) as nat);
        let (vs, r) = intern(before.vertices, keys, sets[n - 1]);
        FbasView { vertices: vs, roots: before.roots.push(r) }
    }
}

/// The graph of a network: the validators in the order of their keys, then
/// the quorum sets in the order in which a walk through the validators'
/// declarations, inner sets before the set that holds them, completes them.
pub open spec fn build(keys: Seq<Seq<char>>, sets: Seq<InternalScpQuorumSet>) -> FbasView {
    build_upto(keys, sets, sets.len())
}

/// A key that stands at place `p` of increasing keys has index `p`.
pub proof fn lemma_key_index(keys: Seq<Seq<char>>, name: Seq<char>, p: int)
    requires
        keys_increasing(keys),
        0 <= p < keys.len(),
        keys[p] == name,
    ensures
        keys.contains(name),
        keys.index_of(name) == p,
{
    let j = keys.index_of(name);
    if j < p {
        lemma_key_lt_asymmetric(keys[j], keys[p]);
    }
    if p < j {
        lemma_key_lt_asymmetric(keys[p], keys[j]);
    }
}

/// Gives node `idx` an edge to each of `targets`, in turn, unless it has
/// that edge already. With `fresh` the node has edges to `prefix` only, and
/// none of the targets is among them or occurs twice; without it the node
/// has edges to `prefix`, which holds all the targets.
fn add_edges(
    g: &mut Graph<u32, (), Directed, u32>,
    idx: usize,
    targets: &Vec<usize>,
    Ghost(prefix): Ghost<Seq<usize>>,
    Ghost(fresh): Ghost<bool>,
)
    requires
        idx < node_weights(*old(g)).len() <= u32::MAX,
        forall|k: int| 0 <= k < targets@.len() ==> #[trigger] targets@[k] < node_weights(*old(g)).len(),
        edge_total(*old(g)) + targets@.len() < u32::MAX,
        successors(*old(g), idx as int) == prefix.reverse(),
        fresh ==> (prefix + targets@).no_duplicates(),
        !fresh ==> forall|k: int| 0 <= k < targets@.len() ==> prefix.contains(#[trigger] targets@[k]),
    ensures
        node_weights(*final(g)) == node_weights(*old(g)),
        forall|c: int| c != idx ==> #[trigger] successors(*final(g), c) == successors(*old(g), c),
        fresh ==> successors(*final(g), idx as int) == (prefix + targets@).reverse(),
        fresh ==> edge_total(*final(g)) == edge_total(*old(g)) + targets@.len(),
        !fresh ==> successors(*final(g), idx as int) == successors(*old(g), idx as int),
        !fresh ==> edge_total(*final(g)) == edge_total(*old(g)),
{
    let mut k: usize = 0;
    while k < targets.len()
        invariant
            k <= targets@.len(),
            idx < node_weights(*g).len() <= u32::MAX,
            node_weights(*g) == node_weights(*old(g)),
            forall|j: int| 0 <= j < targets@.len() ==> #[trigger] targets@[j] < node_weights(*g).len(),
            edge_total(*old(g)) + targets@.len() < u32::MAX,
            forall|c: int| c != idx ==> #[trigger] successors(*g, c) == successors(*old(g), c),
            fresh ==> (prefix + targets@).no_duplicates(),
            fresh ==> successors(*g, idx as int) == (prefix + targets@.take(k as int)).reverse(),
            fresh ==> edge_total(*g) == edge_total(*old(g)) + k,
            !fresh ==> forall|j: int|
                0 <= j < targets@.len() ==> prefix.contains(#[trigger] targets@[j]),
            !fresh ==> successors(*g, idx as int) == prefix.reverse(),
            !fresh ==> edge_total(*g) == edge_total(*old(g)),
            successors(*old(g), idx as int) == prefix.reverse(),
        decreases targets@.len() - k,
    {
        let t = targets[k];
        let ghost cur = successors(*g, idx as int);
        proof {
            if fresh {
                let all = prefix + targets@;
                let seen = prefix + targets@.take(k as int);
                assert(all[prefix.len() + k] == t);
                assert(!cur.contains(t)) by {
                    if cur.contains(t) {
                        let j = cur.index_of(t);
                        assert(cur[j] == seen[seen.len() - 1 - j]);
                        assert(seen[seen.len() - 1 - j] == all[seen.len() - 1 - j]);
                    }
                }
            } else {
                assert(prefix.contains(t));
                let j = prefix.index_of(t);
                assert(prefix.reverse()[prefix.len() - 1 - j] == t);
            }
        }
        graph_update_edge(g, idx, t);
        proof {
            if fresh {
                assert(seq![t] + (prefix + targets@.take(k as int)).reverse() =~= (prefix
                    + targets@.take(k + 1)).reverse());
            }
        }
        k = k + 1;
    }
    proof {
        assert(targets@.take(targets@.len() as int) =~= targets@);
    }
}

/// The trust graph.
#[derive(Debug)]
pub struct Fbas {
    graph: Graph<u32, (), Directed, u32>,
    vertices: Vec<Vertex>,
    validators: Vec<usize>,
}

impl Default for Fbas {
    /// The graph of a network without validators.
    fn default() -> (r: Fbas)
        ensures
            r.wf(),
            r.vertices().len() == 0,
            r.validator_count() == 0,
    {
        Fbas::empty()
    }
}

impl Fbas {
    /// The vertices, by index.
    pub closed spec fn vertices(self) -> Seq<VertexView> {
        Seq::new(self.vertices@.len(), |i: int| self.vertices@[i]@)
    }

    /// The indices of the validator vertices.
    pub closed spec fn validators(self) -> Seq<usize> {
        self.validators@
    }

    /// The threshold of each vertex, as the graph holds it.
    pub closed spec fn thresholds(self) -> Seq<u32> {
        node_weights(self.graph)
    }

    /// The successors of vertex `a`, in the order in which the graph lists
    /// them.
    pub closed spec fn successors(self, a: int) -> Seq<usize> {
        successors(self.graph, a)
    }

    /// The number of vertices and edges, taken together.
    pub closed spec fn size(self) -> nat {
        node_weights(self.graph).len() + edge_total(self.graph)
    }

    /// The number of validators.
    pub open spec fn validator_count(self) -> nat {
        self.validators().len()
    }

    /// The names of the validators, by index.
    pub open spec fn names(self) -> Seq<Seq<char>> {
        Seq::new(
            self.validator_count(),
            |i: int|
                match self.vertices()[i] {
                    VertexView::Validator(name) => name,
                    VertexView::QSet(_) => Seq::empty(),
                },
        )
    }

    /// What holds of a graph while it is built: all that `wf` asks for, but
    /// only the first `rooted` validators have their edge to their quorum
    /// set, and the others have no edge yet.
    pub open spec fn inv(self, rooted: nat) -> bool {
        let vs = self.vertices();
        let count = self.validator_count();
        &&& self.thresholds().len() == vs.len()
        &&& self.size() <= GRAPH_LIMIT
        &&& rooted <= count <= vs.len()
        &&& forall|i: int| 0 <= i < count ==> self.validators()[i] == i
        &&& forall|i: int|
            0 <= i < count ==> #[trigger] vs[i] is Validator && self.thresholds()[i] == 1
        &&& keys_increasing(self.names())
        &&& forall|i: int|
            0 <= i < rooted ==> (#[trigger] self.successors(i)).len() == 1 && count
                <= self.successors(i)[0] < vs.len()
        &&& forall|i: int|
            rooted <= i < count || vs.len() <= i ==> (#[trigger] self.successors(i)).len() == 0
        &&& forall|i: int| count <= i < vs.len() ==> self.qset_ok(i)
        &&& forall|i: int, j: int| count <= i < j < vs.len() ==> vs[i] != vs[j]
    }

    /// Vertex `i` is a quorum set whose members are validators and quorum
    /// sets that were there before it, and the graph holds its threshold
    /// and an edge to each member.
    pub open spec fn qset_ok(self, i: int) -> bool {
        let vs = self.vertices();
        let count = self.validator_count();
        &&& vs[i] matches VertexView::QSet(q)
        &&& self.thresholds()[i] == q.threshold
        &&& increasing(q.validators)
        &&& increasing(q.inner_qsets)
        &&& forall|k: int| 0 <= k < q.validators.len() ==> #[trigger] q.validators[k] < count
        &&& forall|k: int|
            0 <= k < q.inner_qsets.len() ==> count <= #[trigger] q.inner_qsets[k] < i
        &&& self.successors(i) == q.members().reverse()
    }

    /// The graph is complete: every validator has the edge to its quorum
    /// set.
    pub open spec fn wf(self) -> bool {
        self.inv(self.validator_count())
    }

    /// The vertex of each validator's quorum set.
    pub open spec fn roots(self) -> Seq<usize> {
        Seq::new(self.validator_count(), |i: int| self.successors(i)[0])
    }

    pub open spec fn view(self) -> FbasView {
        FbasView { vertices: self.vertices(), roots: self.roots() }
    }

    /// What the formula reads of the graph.
    pub open spec fn graph_view(self) -> GraphView {
        GraphView {
            thresholds: self.thresholds(),
            successors: Seq::new(self.thresholds().len(), |a: int| self.successors(a)),
            validators: self.validators(),
        }
    }

    /// In a complete graph the edges and the validators stay within the
    /// graph.
    pub proof fn lemma_graph_view_bounded(self)
        requires
            self.wf(),
        ensures
            self.graph_view().bounded(),
            self.graph_view().len() == self.vertices().len(),
            self.graph_view().len() <= GRAPH_LIMIT,
    {
        let g = self.graph_view();
        let count = self.validator_count();
        assert forall|v: int, k: int|
            0 <= v < g.len() && 0 <= k < g.successors[v].len() implies (
        #[trigger] g.successors[v][k]) < g.len() by {
            if v < count {
                assert(self.successors(v).len() == 1);
            } else {
                assert(self.qset_ok(v));
                let q = self.vertices()[v]->QSet_0;
                let m = q.members();
                assert(self.successors(v)[k] == m[m.len() - 1 - k]);
                let p = m.len() - 1 - k;
                if p < q.validators.len() {
                    assert(m[p] == q.validators[p]);
                } else {
                    assert(m[p] == q.inner_qsets[p - q.validators.len()]);
                }
            }
        }
    }

    /// A complete graph has the shape that the quorums of a graph are
    /// defined for.
    pub proof fn lemma_graph_view_structured(self)
        requires
            self.wf(),
        ensures
            self.graph_view().structured(),
            self.graph_view().count() == self.validator_count(),
    {
        self.lemma_graph_view_bounded();
        let g = self.graph_view();
        let count = self.validator_count();
        assert forall|v: int| 0 <= v < g.count() implies {
            &&& #[trigger] g.thresholds[v] == 1
            &&& g.successors[v].len() == 1
            &&& g.count() <= g.successors[v][0]
        } by {
            assert(self.vertices()[v] is Validator);
            assert(self.successors(v).len() == 1);
        }
        assert forall|v: int, k: int|
            g.count() <= v < g.len() && 0 <= k < g.successors[v].len() implies (
        #[trigger] g.successors[v][k]) < v by {
            assert(self.qset_ok(v));
            let q = self.vertices()[v]->QSet_0;
            let m = q.members();
            let p = m.len() - 1 - k;
            assert(self.successors(v)[k] == m[p]);
            if p < q.validators.len() {
                assert(m[p] == q.validators[p]);
            } else {
                assert(m[p] == q.inner_qsets[p - q.validators.len()]);
            }
        }
    }

    /// What the formula reads of a complete graph is fixed by its
    /// vertices and by the quorum sets of its validators.
    pub proof fn lemma_graph_view_of_view(self, other: Fbas)
        requires
            self.wf(),
            other.wf(),
            self@ == other@,
            self.validator_count() == other.validator_count(),
        ensures
            self.graph_view() == other.graph_view(),
    {
        let g = self.graph_view();
        let h = other.graph_view();
        let count = self.validator_count();
        assert(g.validators =~= h.validators);
        assert forall|i: int| 0 <= i < g.thresholds.len() implies g.thresholds[i]
            == h.thresholds[i] by {
            if i >= count {
                assert(self.qset_ok(i));
                assert(other.qset_ok(i));
            } else {
                assert(self.vertices()[i] is Validator);
                assert(other.vertices()[i] is Validator);
            }
        }
        assert(g.thresholds =~= h.thresholds);
        assert forall|i: int| 0 <= i < g.successors.len() implies g.successors[i]
            == h.successors[i] by {
            if i >= count {
                assert(self.qset_ok(i));
                assert(other.qset_ok(i));
            } else {
                assert(self.roots()[i] == other.roots()[i]);
                assert(self.successors(i).len() == 1);
                assert(other.successors(i).len() == 1);
                assert(self.successors(i) =~= other.successors(i));
            }
        }
        assert(g.successors =~= h.successors);
    }

    /// The number of vertices, as the graph counts them.
    pub fn node_count(&self) -> (n: usize)
        ensures
            n == self.thresholds().len(),
    {
        graph_node_count(&self.graph)
    }

    /// The threshold of vertex `ni`, or nothing where the graph has no
    /// such vertex.
    pub fn node_threshold(&self, ni: usize) -> (t: Option<u32>)
        requires
            ni <= u32::MAX,
        ensures
            t == if ni < self.thresholds().len() {
                Some(self.thresholds()[ni as int])
            } else {
                None
            },
    {
        graph_node_weight(&self.graph, ni)
    }

    /// The successors of vertex `ni`, in the order in which the graph
    /// lists them.
    pub fn neighbors(&self, ni: usize) -> (r: Vec<usize>)
        requires
            ni <= u32::MAX,
        ensures
            r@ == self.successors(ni as int),
    {
        graph_neighbors(&self.graph, ni)
    }

    /// The validator vertices.
    pub fn validator_nodes(&self) -> (r: &Vec<usize>)
        ensures
            r@ == self.validators(),
    {
        &self.validators
    }

    /// No vertex has an edge.
    pub open spec fn edgeless(self) -> bool {
        forall|a: int| (#[trigger] self.successors(a)).len() == 0
    }

    fn empty() -> (r: Fbas)
        ensures
            r.inv(0),
            r.edgeless(),
            r.vertices().len() == 0,
            r.validator_count() == 0,
            r.size() == 0,
    {
        Fbas { graph: graph_new(), vertices: Vec::new(), validators: Vec::new() }
    }

    /// Appends the vertex of one more validator. Validators are added
    /// before any quorum set, in the order of their names.
    fn add_validator(&mut self, v: String) -> (idx: usize)
        requires
            old(self).inv(0),
            old(self).edgeless(),
            old(self).validator_count() == old(self).vertices().len(),
            old(self).size() < GRAPH_LIMIT,
            forall|i: int|
                0 <= i < old(self).validator_count() ==> crate::keys::key_lt(
                    #[trigger] old(self).names()[i],
                    v@,
                ),
        ensures
            final(self).inv(0),
            final(self).edgeless(),
            final(self).vertices() == old(self).vertices().push(VertexView::Validator(v@)),
            final(self).names() == old(self).names().push(v@),
            final(self).validator_count() == final(self).vertices().len(),
            final(self).size() == old(self).size() + 1,
            idx == old(self).validator_count(),
    {
        let idx = graph_add_node(&mut self.graph, 1);
        self.vertices.push(Vertex::Validator(v));
        self.validators.push(idx);
        proof {
            assert(self.vertices() =~= old(self).vertices().push(VertexView::Validator(v@)));
            assert(self.names() =~= old(self).names().push(v@));
            assert forall|a: int| (#[trigger] self.successors(a)).len() == 0 by {
                assert(old(self).successors(a).len() == 0);
            }
        }
        idx
    }

    /// The name of the validator at vertex `ni`, if that vertex is a
    /// validator.
    pub fn get_validator(&self, ni: usize) -> (r: Option<&String>)
        ensures
            match r {
                Some(name) => ni < self.vertices().len() && self.vertices()[ni as int]
                    == VertexView::Validator(name@),
                None => ni >= self.vertices().len() || self.vertices()[ni as int] is QSet,
            },
    {
        if ni >= self.vertices.len() {
            return None;
        }
        match &self.vertices[ni] {
            Vertex::Validator(v) => Some(v),
            _ => None,
        }
    }

    /// The name of the validator at vertex `ni`; an error where that
    /// vertex is no validator.
    pub fn try_get_validator_string(&self, ni: usize) -> (r: Result<String, FbasError>)
        ensures
            match r {
                Ok(name) => ni < self.vertices().len() && self.vertices()[ni as int]
                    == VertexView::Validator(name@),
                Err(FbasError::InternalError(_)) => ni >= self.vertices().len()
                    || self.vertices()[ni as int] is QSet,
                Err(_) => false,
            },
    {
        match self.get_validator(ni) {
            Some(name) => Ok(name.clone()),
            None => Err(FbasError::InternalError("Node index is not a validator")),
        }
    }

    /// The number of vertices.
    pub fn vertex_count(&self) -> (n: usize)
        ensures
            n == self.vertices().len(),
    {
        self.vertices.len()
    }

    /// `r` is what building the graph of `qsm` gives: the graph of `build`,
    /// unless a quorum set is too deep or the graph could exceed
    /// `GRAPH_LIMIT`.
    pub open spec fn built(qsm: QuorumSetMap, r: Result<Fbas, FbasError>) -> bool {
        match r {
            Ok(fbas) => {
                &&& qsm.graph_footprint() <= GRAPH_LIMIT
                &&& !qsm.too_deep()
                &&& fbas.wf()
                &&& fbas.names() == qsm.keys()
                &&& fbas@ == build(qsm.keys(), qsm.sets())
            },
            Err(FbasError::QuorumSetTooDeep) => {
                &&& qsm.graph_footprint() <= GRAPH_LIMIT
                &&& qsm.too_deep()
            },
            Err(FbasError::InternalError(_)) => qsm.graph_footprint() > GRAPH_LIMIT,
            Err(_) => false,
        }
    }

    /// Builds the trust graph of a network. The validators come first, in
    /// the order of their keys; then each validator's quorum set is
    /// interned and the validator linked to it.
    ///
    /// A map with a quorum set of more than `QUORUM_SET_MAX_DEPTH` levels
    /// is refused, and so is one whose graph could exceed `GRAPH_LIMIT`.
    pub fn from_quorum_set_map(qsm: &QuorumSetMap) -> (r: Result<Fbas, FbasError>)
        requires
            qsm.wf(),
        ensures
            Self::built(*qsm, r),
    {
        let n = qsm.len();
        let budget = match qsm.footprint_within(GRAPH_LIMIT) {
            Some(b) => b,
            None => {
                return Err(FbasError::InternalError("Quorum set map too large"));
            },
        };
        if n > GRAPH_LIMIT - budget {
            return Err(FbasError::InternalError("Quorum set map too large"));
        }
        let ghost keys = qsm.keys();
        let ghost sets = qsm.sets();
        let mut fbas = Fbas::empty();

        let mut i: usize = 0;
        while i < n
            invariant
                qsm.wf(),
                keys == qsm.keys(),
                n == keys.len(),
                n <= GRAPH_LIMIT,
                i <= n,
                fbas.inv(0),
                fbas.edgeless(),
                fbas.validator_count() == i,
                fbas.vertices().len() == i,
                fbas.size() == i,
                fbas.names() == keys.take(i as int),
                fbas.vertices() == validator_vertices(keys).take(i as int),
            decreases n - i,
        {
            let name = qsm.key_at(i).clone();
            fbas.add_validator(name);
            proof {
                assert(fbas.names() =~= keys.take(i + 1));
                assert(fbas.vertices() =~= validator_vertices(keys).take(i + 1));
            }
            i = i + 1;
        }
        proof {
            assert(keys.take(n as int) =~= keys);
            assert(validator_vertices(keys).take(n as int) =~= validator_vertices(keys));
            assert(Seq::new(0, |i: int| fbas.successors(i)[0]) =~= Seq::<usize>::empty());
        }

        let mut k: usize = 0;
        while k < n
            invariant
                qsm.wf(),
                keys == qsm.keys(),
                sets == qsm.sets(),
                n == keys.len(),
                n + qsm.footprint_upto(n as nat) <= GRAPH_LIMIT,
                k <= n,
                fbas.inv(k as nat),
                fbas.validator_count() == n,
                fbas.names() == keys,
                fbas.size() <= n + qsm.footprint_upto(k as nat),
                fbas.vertices() == build_upto(keys, sets, k as nat).vertices,
                Seq::new(k as nat, |i: int| fbas.successors(i)[0]) == build_upto(
                    keys,
                    sets,
                    k as nat,
                ).roots,
                forall|j: int| 0 <= j < k ==> (#[trigger] sets[j]).height() <= QUORUM_SET_MAX_DEPTH,
            decreases n - k,
        {
            proof {
                qsm.lemma_footprint_monotone((k + 1) as nat, n as nat);
            }
            let ghost prev = fbas;
            match fbas.process_scp_quorum_set(qsm.set_at(k), 0, qsm, Ghost(k as nat)) {
                Ok(q_idx) => {
                    let ghost mid = fbas;
                    graph_add_edge(&mut fbas.graph, k, q_idx);
                    proof {
                        assert(mid.successors(k as int).len() == 0);
                        assert(fbas.successors(k as int) =~= seq![q_idx]);
                        assert forall|i: int|
                            fbas.validator_count() <= i < fbas.vertices().len() implies fbas.qset_ok(
                            i,
                        ) by {
                            assert(mid.qset_ok(i));
                            assert(fbas.successors(i) == mid.successors(i));
                        }
                        assert forall|i: int|
                            k + 1 <= i < n || fbas.vertices().len()
                                <= i implies (#[trigger] fbas.successors(i)).len() == 0 by {
                            assert(mid.successors(i).len() == 0);
                        }
                        assert forall|i: int| 0 <= i < k + 1 implies (#[trigger] fbas.successors(
                            i,
                        )).len() == 1 && n <= fbas.successors(i)[0] < fbas.vertices().len() by {
                            if i < k {
                                assert(mid.successors(i).len() == 1);
                                assert(prev.successors(i).len() == 1);
                            }
                        }
                        assert(Seq::new((k + 1) as nat, |i: int| fbas.successors(i)[0]) =~= Seq::new(
                            k as nat,
                            |i: int| prev.successors(i)[0],
                        ).push(q_idx)) by {
                            assert forall|i: int| 0 <= i < k implies fbas.successors(i)
                                == prev.successors(i) by {
                                assert(mid.successors(i) == prev.successors(i));
                            }
                        }
                    }
                },
                Err(e) => {
                    return Err(e);
                },
            }
            k = k + 1;
        }
        proof {
            assert(fbas.roots() =~= Seq::new(n as nat, |i: int| fbas.successors(i)[0]));
            if qsm.too_deep() {
                let j = choose|j: int|
                    0 <= j < qsm.sets().len() && #[trigger] qsm.sets()[j].height()
                        > QUORUM_SET_MAX_DEPTH;
                assert(sets[j].height() <= QUORUM_SET_MAX_DEPTH);
            }
        }
        Ok(fbas)
    }

    /// Interns a quorum set: the sets below it first, then the set itself,
    /// which gets a vertex of its own unless an equal one is there already.
    /// Validators that the network does not know are left out.
    fn process_scp_quorum_set(
        &mut self,
        qset: &InternalScpQuorumSet,
        curr_depth: u32,
        known_validators: &QuorumSetMap,
        Ghost(rooted): Ghost<nat>,
    ) -> (r: Result<usize, FbasError>)
        requires
            old(self).inv(rooted),
            known_validators.wf(),
            old(self).names() == known_validators.keys(),
            curr_depth <= QUORUM_SET_MAX_DEPTH,
            old(self).size() + qset.footprint() <= GRAPH_LIMIT + 1,
        ensures
            match r {
                Ok(idx) => {
                    &&& curr_depth + qset.height() <= QUORUM_SET_MAX_DEPTH
                    &&& final(self).inv(rooted)
                    &&& (final(self).vertices(), idx) == intern(
                        old(self).vertices(),
                        known_validators.keys(),
                        *qset,
                    )
                    &&& final(self).validators() == old(self).validators()
                    &&& final(self).names() == old(self).names()
                    &&& final(self).size() + 1 <= old(self).size() + qset.footprint()
                    &&& final(self).validator_count() <= idx < final(self).vertices().len()
                    &&& old(self).vertices().len() <= final(self).vertices().len()
                    &&& forall|i: int|
                        0 <= i < final(self).validator_count() ==> #[trigger] final(self).successors(i) == old(self).successors(i)
                },
                Err(e) => {
                    &&& e is QuorumSetTooDeep
                    &&& curr_depth + qset.height() > QUORUM_SET_MAX_DEPTH
                    &&& curr_depth == QUORUM_SET_MAX_DEPTH ==> *final(self) == *old(self)
                },
            },
        decreases qset,
    {
        if curr_depth == QUORUM_SET_MAX_DEPTH {
            return Err(FbasError::QuorumSetTooDeep);
        }
        let ghost keys = known_validators.keys();
        let ghost vs0 = self.vertices();
        let ghost size0 = self.size();
        let ghost count = self.validator_count();
        assert(keys.len() == count);

        let mut new_qset = Qset {
            threshold: qset.threshold,
            validators: BTreeSet::new(),
            inner_qsets: BTreeSet::new(),
        };
        let ghost mut known: Seq<usize> = Seq::empty();
        let mut i: usize = 0;
        proof {
            assert(known.to_set() =~= new_qset.validators@);
        }
        while i < qset.validators.len()
            invariant
                i <= qset.validators@.len(),
                known_validators.wf(),
                keys == known_validators.keys(),
                keys.len() == count,
                new_qset.threshold == qset.threshold,
                new_qset.inner_qsets@ == Set::<usize>::empty(),
                known == known_indices(keys, qset.validators@, i as nat),
                increasing(known),
                known.to_set() == new_qset.validators@,
                forall|y: usize| known.contains(y) ==> y < count,
                known.len() <= i,
            decreases qset.validators@.len() - i,
        {
            match known_validators.position(qset.validators[i].as_str()) {
                Some(idx) => {
                    proof {
                        lemma_key_index(keys, qset.validators@[i as int]@, idx as int);
                        lemma_sorted_indices_insert(known, idx);
                        known = insert_sorted(known, idx);
                    }
                    new_qset.validators.insert(idx);
                },
                None => {},
            }
            i = i + 1;
        }

        let ghost mut inner: Seq<usize> = Seq::empty();
        let mut j: usize = 0;
        proof {
            assert(inner.to_set() =~= new_qset.inner_qsets@);
        }
        while j < qset.inner_sets.len()
            invariant
                j <= qset.inner_sets@.len(),
                new_qset.threshold == qset.threshold,
                new_qset.validators@ == known.to_set(),
                inner.to_set() == new_qset.inner_qsets@,
                self.inv(rooted),
                known_validators.wf(),
                keys == known_validators.keys(),
                self.names() == keys,
                count == self.validator_count(),
                curr_depth < QUORUM_SET_MAX_DEPTH,
                (self.vertices(), inner) == intern_inner(vs0, keys, *qset, j as nat),
                increasing(inner),
                forall|y: usize| inner.contains(y) ==> count <= y < self.vertices().len(),
                inner.len() <= j,
                self.size() + j <= size0 + qset.inner_footprint(j as nat),
                size0 + qset.footprint() <= GRAPH_LIMIT + 1,
                curr_depth + 1 + qset.inner_height(j as nat) <= QUORUM_SET_MAX_DEPTH,
                self.validators() == old(self).validators(),
                vs0.len() <= self.vertices().len(),
                forall|i: int|
                    0 <= i < count ==> #[trigger] self.successors(i) == old(self).successors(i),
            decreases qset.inner_sets@.len() - j,
        {
            proof {
                qset.lemma_inner_footprint_monotone((j + 1) as nat, qset.inner_sets@.len());
            }
            let ghost prev = *self;
            match self.process_scp_quorum_set(
                &qset.inner_sets[j],
                curr_depth + 1,
                known_validators,
                Ghost(rooted),
            ) {
                Ok(qidx) => {
                    proof {
                        lemma_sorted_indices_insert(inner, qidx);
                        inner = insert_sorted(inner, qidx);
                    }
                    new_qset.inner_qsets.insert(qidx);
                    proof {
                        assert forall|i: int| 0 <= i < count implies #[trigger] self.successors(i)
                            == old(self).successors(i) by {
                            assert(prev.successors(i) == old(self).successors(i));
                        }
                    }
                },
                Err(e) => {
                    proof {
                        qset.lemma_inner_height_bounds(qset.inner_sets@.len(), j as int);
                    }
                    return Err(e);
                },
            }
            j = j + 1;
        }

        let validators = indices_of(&new_qset.validators);
        let inner_qsets = indices_of(&new_qset.inner_qsets);
        proof {
            lemma_sorted_indices(known);
            lemma_sorted_indices(inner);
        }
        let found = self.find_qset(qset.threshold, &validators, &inner_qsets, Ghost(rooted));
        let ghost target = QsetView {
            threshold: qset.threshold,
            validators: validators@,
            inner_qsets: inner_qsets@,
        };
        let ghost mid = *self;
        let ghost fresh = found is None;
        let idx = match found {
            Some(idx) => idx,
            None => graph_add_node(&mut self.graph, qset.threshold),
        };
        proof {
            assert forall|k: int| 0 <= k < validators@.len() implies #[trigger] validators@[k]
                < count by {
                assert(validators@.contains(validators@[k]));
            }
            assert forall|k: int| 0 <= k < inner_qsets@.len() implies count
                <= #[trigger] inner_qsets@[k] < mid.vertices().len() by {
                assert(inner_qsets@.contains(inner_qsets@[k]));
            }
            if fresh {
                assert(mid.successors(idx as int).len() == 0);
                assert(successors(self.graph, idx as int) =~= Seq::<usize>::empty().reverse());
                assert((Seq::<usize>::empty() + validators@) =~= validators@);
            } else {
                assert(mid.vertices()[idx as int] == VertexView::QSet(target));
                assert(mid.qset_ok(idx as int));
                assert forall|k: int| 0 <= k < validators@.len() implies target.members().contains(
                    #[trigger] validators@[k],
                ) by {
                    assert(target.members()[k] == validators@[k]);
                }
                assert forall|k: int| 0 <= k < inner_qsets@.len() implies target.members().contains(
                    #[trigger] inner_qsets@[k],
                ) by {
                    assert(target.members()[validators@.len() + k] == inner_qsets@[k]);
                }
            }
        }
        let ghost first = if fresh {
            Seq::<usize>::empty()
        } else {
            target.members()
        };
        let ghost second = if fresh {
            validators@
        } else {
            target.members()
        };
        add_edges(&mut self.graph, idx, &validators, Ghost(first), Ghost(fresh));
        add_edges(&mut self.graph, idx, &inner_qsets, Ghost(second), Ghost(fresh));
        if found.is_none() {
            self.vertices.push(Vertex::QSet(new_qset));
        }
        proof {
            let vs = self.vertices();
            if fresh {
                assert(vs =~= mid.vertices().push(VertexView::QSet(target)));
            } else {
                assert(vs =~= mid.vertices());
            }
            assert(self.names() =~= mid.names());
            assert forall|i: int| count <= i < vs.len() implies self.qset_ok(i) by {
                if i < mid.vertices().len() {
                    assert(mid.qset_ok(i));
                    if i != idx {
                        assert(self.successors(i) == mid.successors(i));
                    }
                }
            }
            assert forall|i: int|
                rooted <= i < count || vs.len() <= i implies (#[trigger] self.successors(
                i,
            )).len() == 0 by {
                assert(mid.successors(i).len() == 0);
            }
            assert forall|i: int| 0 <= i < rooted implies (#[trigger] self.successors(i)).len()
                == 1 && count <= self.successors(i)[0] < vs.len() by {
                assert(mid.successors(i).len() == 1);
            }
            assert forall|i: int| 0 <= i < count implies #[trigger] self.successors(i) == old(self).successors(i) by {
                assert(mid.successors(i) == old(self).successors(i));
            }
        }
        Ok(idx)
    }

    /// The vertex of a quorum set with this threshold and these members.
    fn find_qset(
        &self,
        threshold: u32,
        validators: &Vec<usize>,
        inner_qsets: &Vec<usize>,
        Ghost(rooted): Ghost<nat>,
    ) -> (r: Option<usize>)
        requires
            self.inv(rooted),
        ensures
            r == find_vertex(
                self.vertices(),
                VertexView::QSet(
                    QsetView {
                        threshold,
                        validators: validators@,
                        inner_qsets: inner_qsets@,
                    },
                ),
            ),
            r matches Some(i) ==> self.validator_count() <= i < self.vertices().len(),
    {
        let ghost target = VertexView::QSet(
            QsetView { threshold, validators: validators@, inner_qsets: inner_qsets@ },
        );
        let mut i: usize = self.validators.len();
        while i < self.vertices.len()
            invariant
                self.inv(rooted),
                self.validator_count() <= i <= self.vertices().len(),
                forall|k: int| 0 <= k < i ==> self.vertices()[k] != target,
                target == VertexView::QSet(
                    QsetView { threshold, validators: validators@, inner_qsets: inner_qsets@ },
                ),
            decreases self.vertices().len() - i,
        {
            match &self.vertices[i] {
                Vertex::QSet(q) => {
                    if q.threshold == threshold && same_indices(
                        &indices_of(&q.validators),
                        validators,
                    ) && same_indices(&indices_of(&q.inner_qsets), inner_qsets) {
                        proof {
                            assert(self.vertices()[i as int] == target);
                            let j = self.vertices().index_of(target);
                            assert(self.vertices()[j] == target);
                        }
                        return Some(i);
                    }
                },
                _ => {},
            }
            i = i + 1;
        }
        None
    }
}

} // verus!
