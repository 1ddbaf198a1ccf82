//! The directed graph that carries the constraint edges, kept in
//! petgraph's `DiGraph` behind a small trusted boundary.
//!
//! Nodes are identified by their insertion index (petgraph hands indices
//! out in insertion order, starting at 0).  The graph's contents are
//! named by two spec functions: its node count and the multiset of its
//! directed edges, as pairs of node indices.

use vstd::prelude::*;
use vstd::multiset::Multiset;
use crate::model::{has_cycle, is_topo_order};

verus! {

#[verifier::external_type_specification]
#[verifier::external_body]
#[verifier::reject_recursive_types(N)]
#[verifier::reject_recursive_types(E)]
#[verifier::reject_recursive_types(Ty)]
#[verifier::reject_recursive_types(Ix)]
pub struct ExGraph<N, E, Ty, Ix>(petgraph::graph::Graph<N, E, Ty, Ix>);

#[verifier::external_type_specification]
#[verifier::external_body]
pub struct ExDirected(petgraph::Directed);

/// How many nodes the graph holds; its node indices are
/// `0 .. graph_nodes(g)`.
pub uninterp spec fn graph_nodes(g: petgraph::graph::DiGraph<(), ()>) -> nat;

/// The directed edges the graph holds, as pairs of node indices;
/// parallel edges are counted separately.
pub uninterp spec fn graph_edges(g: petgraph::graph::DiGraph<(), ()>) -> Multiset<(int, int)>;

/// Relies on petgraph's `DiGraph::new`: a new graph has no nodes and no
/// edges.
#[verifier::external_body]
pub(crate) fn graph_new() -> (g: petgraph::graph::DiGraph<(), ()>)
    ensures
        graph_nodes(g) == 0,
        graph_edges(g) == Multiset::<(int, int)>::empty(),
{
    petgraph::graph::DiGraph::new()
}

/// Relies on petgraph's `Graph::add_node`: the new node gets the next
/// free index and the edges stay untouched.  `add_node` panics only when
/// the node count reaches the limit of the `u32` index type, which the
/// precondition rules out.
#[verifier::external_body]
pub(crate) fn graph_add_node(g: &mut petgraph::graph::DiGraph<(), ()>) -> (idx: usize)
    requires
        graph_nodes(*old(g)) < 0xFFFF_FFFF,
    ensures
        idx as int == graph_nodes(*old(g)),
        graph_nodes(*final(g)) == graph_nodes(*old(g)) + 1,
        graph_edges(*final(g)) == graph_edges(*old(g)),
{
    g.add_node(()).index()
}

/// Relies on petgraph's `Graph::add_edge`: it appends one directed edge
/// from `a` to `b` (parallel edges are allowed) and touches nothing
/// else.  `add_edge` panics only on a node index out of bounds or when
/// the edge count reaches the limit of the `u32` index type; the
/// preconditions rule both out.
#[verifier::external_body]
pub(crate) fn graph_add_edge(g: &mut petgraph::graph::DiGraph<(), ()>, a: usize, b: usize)
    requires
        (a as int) < graph_nodes(*old(g)),
        (b as int) < graph_nodes(*old(g)),
        graph_edges(*old(g)).len() < 0xFFFF_FFFF,
    ensures
        graph_nodes(*final(g)) == graph_nodes(*old(g)),
        graph_edges(*final(g)) == graph_edges(*old(g)).insert((a as int, b as int)),
{
    g.add_edge(petgraph::graph::NodeIndex::new(a), petgraph::graph::NodeIndex::new(b), ());
}

/// Relies on petgraph's `algo::toposort`: `Ok` carries every node
/// exactly once, each strictly before the targets of its outgoing
/// edges; `Err` is returned only when the graph has a directed cycle.
#[verifier::external_body]
pub(crate) fn graph_toposort(g: &petgraph::graph::DiGraph<(), ()>) -> (r: Option<Vec<usize>>)
    ensures
        r matches Some(order) ==> is_topo_order(graph_edges(*g), graph_nodes(*g), order@),
        r is None ==> has_cycle(graph_edges(*g)),
{
    petgraph::algo::toposort(g, None).ok().map(|order| order.into_iter().map(|ix| ix.index()).collect())
}

} // verus!
