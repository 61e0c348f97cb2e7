//! The boundary to `petgraph`: the directed graph that holds a flow network,
//! and the maximum-flow routine that is run on it.
//!
//! Nothing in this file is proved.  Each item states what the `petgraph`
//! source shows, and the rest of the library is verified against these
//! statements.

use crate::flow::is_maximum_flow;
use crate::flow_network::NodeLabel;
use petgraph::graph::{DiGraph, Graph, NodeIndex};
use petgraph::Directed;
use vstd::prelude::*;

verus! {

/// `petgraph::graph::Graph`, an adjacency-list graph whose nodes and edges
/// are numbered in the order in which they were added.
#[verifier::external_type_specification]
#[verifier::external_body]
#[verifier::reject_recursive_types(N)]
#[verifier::reject_recursive_types(E)]
#[verifier::reject_recursive_types(Ty)]
#[verifier::reject_recursive_types(Ix)]
pub struct ExGraph<N, E, Ty, Ix>(Graph<N, E, Ty, Ix>);

/// `petgraph::Directed`, the marker of graphs whose edges have a direction.
#[verifier::external_type_specification]
#[verifier::external_body]
pub struct ExDirected(Directed);

/// The node weights of a graph, by node index.
pub uninterp spec fn graph_nodes(g: Graph<NodeLabel, usize, Directed, u32>) -> Seq<NodeLabel>;

/// The edges of a graph, by edge index: the index of the node an edge
/// leaves, the index of the node it enters, and its weight.
pub uninterp spec fn graph_edges(g: Graph<NodeLabel, usize, Directed, u32>) -> Seq<
    (usize, usize, usize),
>;

/// `Graph::new`: a directed graph with no nodes and no edges.
#[verifier::external_body]
pub(crate) fn empty_graph() -> (g: DiGraph<NodeLabel, usize>)
    ensures
        graph_nodes(g) == Seq::<NodeLabel>::empty(),
        graph_edges(g) == Seq::<(usize, usize, usize)>::empty(),
{
    DiGraph::new()
}

/// `Graph::add_node`: appends a node and returns its index, which is the
/// number of nodes there were before.  Edges are untouched.  `petgraph`
/// panics when the index would not fit its 32-bit index type.
#[verifier::external_body]
pub(crate) fn add_node(g: &mut DiGraph<NodeLabel, usize>, label: NodeLabel) -> (index: usize)
    requires
        graph_nodes(*old(g)).len() < u32::MAX,
    ensures
        graph_nodes(*final(g)) == graph_nodes(*old(g)).push(label),
        graph_edges(*final(g)) == graph_edges(*old(g)),
        index == graph_nodes(*old(g)).len(),
{
    g.add_node(label).index()
}

/// `Graph::add_edge`: appends an edge between two existing nodes and returns
/// its index, which is the number of edges there were before.  Nodes are
/// untouched.  `petgraph` panics when an endpoint does not exist or when the
/// index would not fit its 32-bit index type.
#[verifier::external_body]
pub(crate) fn add_edge(
    g: &mut DiGraph<NodeLabel, usize>,
    from: usize,
    to: usize,
    capacity: usize,
) -> (index: usize)
    requires
        graph_nodes(*old(g)).len() <= u32::MAX,
        from < graph_nodes(*old(g)).len(),
        to < graph_nodes(*old(g)).len(),
        graph_edges(*old(g)).len() < u32::MAX,
    ensures
        graph_nodes(*final(g)) == graph_nodes(*old(g)),
        graph_edges(*final(g)) == graph_edges(*old(g)).push((from, to, capacity)),
        index == graph_edges(*old(g)).len(),
{
    g.add_edge(NodeIndex::new(from), NodeIndex::new(to), capacity).index()
}

/// `Graph::node_count`.
#[verifier::external_body]
pub(crate) fn node_count(g: &DiGraph<NodeLabel, usize>) -> (count: usize)
    ensures
        count == graph_nodes(*g).len(),
{
    g.node_count()
}

/// `Graph::edge_count`.
#[verifier::external_body]
pub(crate) fn edge_count(g: &DiGraph<NodeLabel, usize>) -> (count: usize)
    ensures
        count == graph_edges(*g).len(),
{
    g.edge_count()
}

/// Indexing a `Graph` by a node index (`graph[node]`): the weight of an
/// existing node.  `petgraph` panics when the node does not exist.
#[verifier::external_body]
pub(crate) fn node_label(g: &DiGraph<NodeLabel, usize>, index: usize) -> (label: NodeLabel)
    requires
        index < graph_nodes(*g).len(),
        graph_nodes(*g).len() <= u32::MAX,
    ensures
        label == graph_nodes(*g)[index as int],
{
    g[NodeIndex::new(index)]
}

/// `Graph::raw_edges` with `Edge::source`, `Edge::target` and the public
/// field `weight`: the endpoints and the weight of an existing edge.
#[verifier::external_body]
pub(crate) fn edge_at(g: &DiGraph<NodeLabel, usize>, index: usize) -> (edge: (usize, usize, usize))
    requires
        index < graph_edges(*g).len(),
    ensures
        edge == graph_edges(*g)[index as int],
{
    let e = &g.raw_edges()[index];
    (e.source().index(), e.target().index(), e.weight)
}

/// `petgraph::algo::ford_fulkerson`: a maximum flow from `source` to `sink`,
/// as its value and the flow on each edge by edge index.
///
/// The claim is that of the routine's documentation, spelled out: the flows
/// stay within the capacities, every node but the two terminals passes on
/// what it takes in, the value is what leaves the source on balance, and no
/// flow on the graph has a larger value.  Which of several maximum flows
/// comes back is not stated.
///
/// The routine indexes by node, so both terminals must exist; it adds flows
/// up in `usize`, and with capacities of at most one the sums stay below the
/// number of edges.
#[verifier::external_body]
pub(crate) fn maximum_flow(g: &DiGraph<NodeLabel, usize>, source: usize, sink: usize) -> (result: (
    usize,
    Vec<usize>,
))
    requires
        graph_nodes(*g).len() <= u32::MAX,
        source < graph_nodes(*g).len(),
        sink < graph_nodes(*g).len(),
        source != sink,
        forall|i: int| 0 <= i < graph_edges(*g).len() ==> (#[trigger] graph_edges(*g)[i]).2 <= 1,
    ensures
        is_maximum_flow(
            graph_edges(*g),
            graph_nodes(*g).len(),
            source as int,
            sink as int,
            result.0 as int,
            result.1@,
        ),
{
    petgraph::algo::ford_fulkerson(g, NodeIndex::new(source), NodeIndex::new(sink))
}

} // verus!
