use vstd::prelude::*;
use crate::graph::{Edge, GraphEdge, Node};
use petgraph::graph::{EdgeIndex, NodeIndex};
use petgraph::visit::EdgeRef;

verus! {

/// petgraph's adjacency-list graph, opaque here: what it holds is named by
/// `store_nodes` and `store_edges`.
#[verifier::external_type_specification]
#[verifier::external_body]
#[verifier::reject_recursive_types(N)]
#[verifier::reject_recursive_types(E)]
#[verifier::reject_recursive_types(Ty)]
#[verifier::reject_recursive_types(Ix)]
pub struct ExGraph<N, E, Ty, Ix>(petgraph::Graph<N, E, Ty, Ix>);

/// petgraph's marker for directed edges.
#[verifier::external_type_specification]
#[verifier::external_body]
pub struct ExDirected(petgraph::Directed);

/// The node and edge store: a directed petgraph graph with `usize` indices.
pub type GraphStore = petgraph::Graph<Node, Edge, petgraph::Directed, usize>;

/// The node weights of a store, by index.
pub uninterp spec fn store_nodes(g: GraphStore) -> Seq<Node>;

/// The edges of a store, by index: endpoints and weight.
pub uninterp spec fn store_edges(g: GraphStore) -> Seq<GraphEdge>;

/// The edges into `n`, newest first: source and weight of each.
pub open spec fn incoming_of(edges: Seq<GraphEdge>, n: usize) -> Seq<(usize, Edge)>
    decreases edges.len(),
{
    if edges.len() == 0 {
        Seq::empty()
    } else {
        let rest = incoming_of(edges.drop_last(), n);
        if edges.last().target == n {
            seq![(edges.last().source, edges.last().kind)].add(rest)
        } else {
            rest
        }
    }
}

/// Relies on `Graph::default`, which is `with_capacity(0, 0)`: no nodes,
/// no edges.
#[verifier::external_body]
pub(crate) fn store_new() -> (r: GraphStore)
    ensures
        store_nodes(r) == Seq::<Node>::empty(),
        store_edges(r) == Seq::<GraphEdge>::empty(),
{
    petgraph::Graph::default()
}

/// Relies on `Graph::add_node`: pushes the weight and returns its index.
/// With `usize` indices its capacity check never fails.
#[verifier::external_body]
pub(crate) fn store_add_node(g: &mut GraphStore, n: Node) -> (r: usize)
    ensures
        r == store_nodes(*old(g)).len(),
        store_nodes(*final(g)) == store_nodes(*old(g)).push(n),
        store_edges(*final(g)) == store_edges(*old(g)),
{
    g.add_node(n).index()
}

/// Relies on `Graph::add_edge`: pushes an edge from `a` to `b`. It panics
/// when an endpoint is not a node, which `requires` rules out.
#[verifier::external_body]
pub(crate) fn store_add_edge(g: &mut GraphStore, a: usize, b: usize, kind: Edge)
    requires
        a < store_nodes(*old(g)).len(),
        b < store_nodes(*old(g)).len(),
    ensures
        store_nodes(*final(g)) == store_nodes(*old(g)),
        store_edges(*final(g)) == store_edges(*old(g)).push(GraphEdge { source: a, target: b, kind }),
{
    g.add_edge(NodeIndex::new(a), NodeIndex::new(b), kind);
}

/// Relies on `Graph::node_count`: the number of nodes.
#[verifier::external_body]
pub(crate) fn store_node_count(g: &GraphStore) -> (r: usize)
    ensures
        r == store_nodes(*g).len(),
{
    g.node_count()
}

/// Relies on `Graph::edge_count`: the number of edges.
#[verifier::external_body]
pub(crate) fn store_edge_count(g: &GraphStore) -> (r: usize)
    ensures
        r == store_edges(*g).len(),
{
    g.edge_count()
}

/// Relies on `Graph::node_weight`: the weight of node `i`, if it exists.
#[verifier::external_body]
pub(crate) fn store_node_weight(g: &GraphStore, i: usize) -> (r: Option<&Node>)
    ensures
        i < store_nodes(*g).len() ==> r == Some(&store_nodes(*g)[i as int]),
        i >= store_nodes(*g).len() ==> r is None,
{
    g.node_weight(NodeIndex::new(i))
}

/// Relies on `Graph::node_weight_mut`: replaces the weight of node `i`.
#[verifier::external_body]
pub(crate) fn store_set_node_weight(g: &mut GraphStore, i: usize, n: Node)
    requires
        i < store_nodes(*old(g)).len(),
    ensures
        store_nodes(*final(g)) == store_nodes(*old(g)).update(i as int, n),
        store_edges(*final(g)) == store_edges(*old(g)),
{
    if let Some(w) = g.node_weight_mut(NodeIndex::new(i)) {
        *w = n;
    }
}

/// Relies on `Graph::edges_directed` with `Incoming`: on a directed graph
/// it walks the list of edges into `n`, to which `add_edge` prepends each
/// new edge, so the newest comes first.
#[verifier::external_body]
pub(crate) fn store_incoming(g: &GraphStore, n: usize) -> (r: Vec<(usize, Edge)>)
    requires
        n < store_nodes(*g).len(),
    ensures
        r@ == incoming_of(store_edges(*g), n),
{
    g.edges_directed(NodeIndex::new(n), petgraph::Direction::Incoming)
        .map(|e| (e.source().index(), *e.weight()))
        .collect()
}

/// Relies on `Graph::edge_endpoints`: source and target of edge `i`.
#[verifier::external_body]
pub(crate) fn store_edge_endpoints(g: &GraphStore, i: usize) -> (r: Option<(usize, usize)>)
    ensures
        i < store_edges(*g).len() ==> r == Some(
            (store_edges(*g)[i as int].source, store_edges(*g)[i as int].target),
        ),
        i >= store_edges(*g).len() ==> r is None,
{
    g.edge_endpoints(EdgeIndex::new(i)).map(|(a, b)| (a.index(), b.index()))
}

/// Relies on `Graph::edge_weight`: the weight of edge `i`.
#[verifier::external_body]
pub(crate) fn store_edge_weight(g: &GraphStore, i: usize) -> (r: Option<Edge>)
    ensures
        i < store_edges(*g).len() ==> r == Some(store_edges(*g)[i as int].kind),
        i >= store_edges(*g).len() ==> r is None,
{
    g.edge_weight(EdgeIndex::new(i)).copied()
}

} // verus!
