//! The directed graph of MAC addresses that links form, kept in a petgraph
//! `Graph` whose node weights are the node positions and whose edge weights
//! are link positions.
use vstd::prelude::*;
use petgraph::graph::{Graph, NodeIndex};
use petgraph::Directed;

verus! {

#[verifier::external_type_specification]
#[verifier::external_body]
#[verifier::reject_recursive_types(N)]
#[verifier::reject_recursive_types(E)]
#[verifier::reject_recursive_types(Ty)]
#[verifier::reject_recursive_types(Ix)]
pub struct ExGraph<N, E, Ty, Ix>(Graph<N, E, Ty, Ix>);

#[verifier::external_type_specification]
#[verifier::external_body]
pub struct ExDirected(Directed);

/// The node weights of a graph, by node index.
pub uninterp spec fn graph_nodes(g: Graph<u64, u64>) -> Seq<u64>;

/// The edges of a graph as (source index, target index, weight), by edge index.
pub uninterp spec fn graph_edges(g: Graph<u64, u64>) -> Seq<(int, int, u64)>;

/// Some edge of `edges` runs from `a` to `b`.
pub open spec fn has_edge(edges: Seq<(int, int, u64)>, a: int, b: int) -> bool {
    exists|e: int| 0 <= e < edges.len() && (#[trigger] edges[e]).0 == a && edges[e].1 == b
}

/// A walk along `edges` leads from `a` to `b` (in no steps when they are equal).
pub open spec fn reachable(edges: Seq<(int, int, u64)>, a: int, b: int) -> bool {
    exists|p: Seq<int>| p.len() >= 1 && p[0] == a && p.last() == b && forall|i: int| 0 <= i < p.len() - 1
        ==> #[trigger] has_edge(edges, p[i], p[i + 1])
}

/// Relies on petgraph's `Graph::new`: a directed graph without nodes or edges.
#[verifier::external_body]
pub(crate) fn graph_new() -> (g: Graph<u64, u64>)
    ensures
        graph_nodes(g).len() == 0,
        graph_edges(g).len() == 0,
{
    Graph::new()
}

/// Relies on `Graph::add_node`: the node is appended and its index is the
/// former node count; it panics only at the `u32` index limit.
#[verifier::external_body]
pub(crate) fn graph_add_node(g: &mut Graph<u64, u64>, w: u64) -> (r: usize)
    requires
        graph_nodes(*old(g)).len() < u32::MAX,
    ensures
        graph_nodes(*final(g)) == graph_nodes(*old(g)).push(w),
        graph_edges(*final(g)) == graph_edges(*old(g)),
        r == graph_nodes(*old(g)).len(),
{
    g.add_node(w).index()
}

/// Relies on `Graph::add_edge`: the edge is appended and its index is the
/// former edge count; it panics on a missing node or at the `u32` limit.
#[verifier::external_body]
pub(crate) fn graph_add_edge(g: &mut Graph<u64, u64>, a: usize, b: usize, w: u64) -> (r: usize)
    requires
        a < graph_nodes(*old(g)).len(),
        b < graph_nodes(*old(g)).len(),
        graph_nodes(*old(g)).len() < u32::MAX,
        graph_edges(*old(g)).len() < u32::MAX,
    ensures
        graph_edges(*final(g)) == graph_edges(*old(g)).push((a as int, b as int, w)),
        graph_nodes(*final(g)) == graph_nodes(*old(g)),
        r == graph_edges(*old(g)).len(),
{
    g.add_edge(NodeIndex::new(a), NodeIndex::new(b), w).index()
}

/// Relies on `Graph::find_edge`: an edge from `a` to `b` if there is one.
#[verifier::external_body]
pub(crate) fn graph_find_edge(g: &Graph<u64, u64>, a: usize, b: usize) -> (r: Option<usize>)
    requires
        a < graph_nodes(*g).len(),
        b < graph_nodes(*g).len(),
        graph_nodes(*g).len() < u32::MAX,
    ensures
        match r {
            Some(e) => e < graph_edges(*g).len() && graph_edges(*g)[e as int].0 == a && graph_edges(*g)[e as int].1 == b,
            None => !has_edge(graph_edges(*g), a as int, b as int),
        },
{
    g.find_edge(NodeIndex::new(a), NodeIndex::new(b)).map(|e| e.index())
}

/// Relies on `Graph::neighbors_undirected`: the other end of each edge from
/// or to `a`; it walks the outgoing list, then the incoming list without
/// self-loops, so every such edge contributes its other end.
#[verifier::external_body]
pub(crate) fn graph_neighbors_undirected(g: &Graph<u64, u64>, a: usize) -> (r: Vec<usize>)
    requires
        a < graph_nodes(*g).len(),
        graph_nodes(*g).len() < u32::MAX,
    ensures
        forall|k: int| 0 <= k < r@.len() ==> has_edge(graph_edges(*g), a as int, #[trigger] r@[k] as int)
            || has_edge(graph_edges(*g), r@[k] as int, a as int),
        forall|e: int| 0 <= e < graph_edges(*g).len() && (#[trigger] graph_edges(*g)[e]).0 == a ==> r@.contains(
            graph_edges(*g)[e].1 as usize,
        ),
        forall|e: int| 0 <= e < graph_edges(*g).len() && (#[trigger] graph_edges(*g)[e]).1 == a ==> r@.contains(
            graph_edges(*g)[e].0 as usize,
        ),
{
    g.neighbors_undirected(NodeIndex::new(a)).map(|n| n.index()).collect()
}

/// Relies on `petgraph::algo::has_path_connecting`: whether a depth-first
/// walk along outgoing edges from `a` visits `b`.
#[verifier::external_body]
pub(crate) fn graph_has_path(g: &Graph<u64, u64>, a: usize, b: usize) -> (r: bool)
    requires
        a < graph_nodes(*g).len(),
        b < graph_nodes(*g).len(),
        graph_nodes(*g).len() < u32::MAX,
    ensures
        r == reachable(graph_edges(*g), a as int, b as int),
{
    petgraph::algo::has_path_connecting(g, NodeIndex::new(a), NodeIndex::new(b), None)
}

/// Relies on `Graph::edge_count`: the number of edges.
#[verifier::external_body]
pub(crate) fn graph_edge_count(g: &Graph<u64, u64>) -> (r: usize)
    ensures
        r == graph_edges(*g).len(),
{
    g.edge_count()
}

/// Relies on `Graph::clear`: all nodes and edges are removed.
#[verifier::external_body]
pub(crate) fn graph_clear(g: &mut Graph<u64, u64>)
    ensures
        graph_nodes(*final(g)).len() == 0,
        graph_edges(*final(g)).len() == 0,
{
    g.clear()
}

} // verus!
