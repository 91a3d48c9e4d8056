//! The adjacency structure of the trust graph, kept in a `petgraph` graph
//! whose node weights are thresholds.

use petgraph::graph::Graph;
use petgraph::graph::NodeIndex;
use petgraph::Directed;
use vstd::prelude::*;

verus! {

/// `petgraph::graph::Graph`, of which the library sees only what the
/// functions below say.
#[verifier::external_type_specification]
#[verifier::external_body]
#[verifier::reject_recursive_types(N)]
#[verifier::reject_recursive_types(E)]
#[verifier::reject_recursive_types(Ty)]
#[verifier::reject_recursive_types(Ix)]
pub struct ExGraph<N, E, Ty, Ix>(Graph<N, E, Ty, Ix>);

/// `petgraph::Directed`, the marker of graphs with directed edges.
#[verifier::external_type_specification]
#[verifier::external_body]
pub struct ExDirected(Directed);

/// The weights of the nodes of a graph, by node index.
pub uninterp spec fn node_weights(g: Graph<u32, (), Directed, u32>) -> Seq<u32>;

/// The targets of the edges that leave node `a`, in the order in which the
/// graph lists them: the edge added last comes first.
pub uninterp spec fn successors(g: Graph<u32, (), Directed, u32>, a: int) -> Seq<usize>;

/// The number of edges of a graph.
pub uninterp spec fn edge_total(g: Graph<u32, (), Directed, u32>) -> nat;

/// `Graph::new`: a graph without nodes or edges.
#[verifier::external_body]
pub(crate) fn graph_new() -> (g: Graph<u32, (), Directed, u32>)
    ensures
        node_weights(g).len() == 0,
        edge_total(g) == 0,
        forall|a: int| (#[trigger] successors(g, a)).len() == 0,
{
    Graph::new()
}

/// `Graph::node_count`: the number of nodes.
#[verifier::external_body]
pub(crate) fn graph_node_count(g: &Graph<u32, (), Directed, u32>) -> (n: usize)
    ensures
        n == node_weights(*g).len(),
{
    g.node_count()
}

/// `Graph::node_weight`: the weight of node `a`, or nothing where the graph
/// has no such node.
#[verifier::external_body]
pub(crate) fn graph_node_weight(g: &Graph<u32, (), Directed, u32>, a: usize) -> (w: Option<u32>)
    requires
        a <= u32::MAX,
    ensures
        w == if a < node_weights(*g).len() {
            Some(node_weights(*g)[a as int])
        } else {
            None
        },
{
    g.node_weight(NodeIndex::new(a)).copied()
}

/// `Graph::neighbors`: the targets of the edges that leave `a`, the edge
/// added last first.
#[verifier::external_body]
pub(crate) fn graph_neighbors(g: &Graph<u32, (), Directed, u32>, a: usize) -> (r: Vec<usize>)
    requires
        a <= u32::MAX,
    ensures
        r@ == successors(*g, a as int),
{
    g.neighbors(NodeIndex::new(a)).map(|n| n.index()).collect()
}

/// `Graph::add_node`: appends a node with the given weight and no edges,
/// and returns its index. The graph must have room for it: with `u32`
/// indices it holds fewer than `u32::MAX` nodes.
#[verifier::external_body]
pub(crate) fn graph_add_node(g: &mut Graph<u32, (), Directed, u32>, weight: u32) -> (idx: usize)
    requires
        node_weights(*old(g)).len() < u32::MAX,
    ensures
        idx == node_weights(*old(g)).len(),
        node_weights(*final(g)) == node_weights(*old(g)).push(weight),
        edge_total(*final(g)) == edge_total(*old(g)),
        forall|a: int| #[trigger] successors(*final(g), a) == successors(*old(g), a),
{
    g.add_node(weight).index()
}

/// `Graph::add_edge`: adds an edge from `a` to `b`, which then is the first
/// that `a` lists. Both nodes must exist, and the graph must have room for
/// the edge.
#[verifier::external_body]
pub(crate) fn graph_add_edge(g: &mut Graph<u32, (), Directed, u32>, a: usize, b: usize)
    requires
        a < node_weights(*old(g)).len(),
        b < node_weights(*old(g)).len(),
        node_weights(*old(g)).len() <= u32::MAX,
        edge_total(*old(g)) < u32::MAX,
    ensures
        node_weights(*final(g)) == node_weights(*old(g)),
        edge_total(*final(g)) == edge_total(*old(g)) + 1,
        successors(*final(g), a as int) == seq![b] + successors(*old(g), a as int),
        forall|c: int| c != a ==> #[trigger] successors(*final(g), c) == successors(*old(g), c),
{
    g.add_edge(NodeIndex::new(a), NodeIndex::new(b), ());
}

/// `Graph::update_edge`: adds an edge from `a` to `b` unless `a` has one
/// already, in which case the graph keeps its shape. Both nodes must exist,
/// and the graph must have room for the edge.
#[verifier::external_body]
pub(crate) fn graph_update_edge(g: &mut Graph<u32, (), Directed, u32>, a: usize, b: usize)
    requires
        a < node_weights(*old(g)).len(),
        b < node_weights(*old(g)).len(),
        node_weights(*old(g)).len() <= u32::MAX,
        edge_total(*old(g)) < u32::MAX,
    ensures
        node_weights(*final(g)) == node_weights(*old(g)),
        forall|c: int| c != a ==> #[trigger] successors(*final(g), c) == successors(*old(g), c),
        successors(*old(g), a as int).contains(b) ==> {
            &&& edge_total(*final(g)) == edge_total(*old(g))
            &&& successors(*final(g), a as int) == successors(*old(g), a as int)
        },
        !successors(*old(g), a as int).contains(b) ==> {
            &&& edge_total(*final(g)) == edge_total(*old(g)) + 1
            &&& successors(*final(g), a as int) == seq![b] + successors(*old(g), a as int)
        },
{
    g.update_edge(NodeIndex::new(a), NodeIndex::new(b), ());
}

} // verus!
