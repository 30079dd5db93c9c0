//! The nodes of a query graph and the order of an operator's children.

use crate::chain::block::Height;
use petgraph::graph::{Graph, NodeIndex};
use petgraph::visit::EdgeRef;
use vstd::prelude::*;

verus! {

/// A closed range `[lo, hi]` of values of one dimension.
#[derive(Debug, Clone, Copy, PartialEq, Eq, Structural)]
pub struct Range {
    pub lo: u32,
    pub hi: u32,
}

/// A node of a query graph.
#[derive(Debug, Clone)]
pub enum DagNode {
    /// The objects of a block whose value in dimension `dim` lies in `range`.
    Range { dim: u8, range: Range, blk_height: Height },
    /// The objects of a block that carry `keyword`.
    Keyword { keyword: String, blk_height: Height },
    /// All objects of a block.
    BlkRt { blk_height: Height },
    /// The union of the two children.
    Union,
    /// The intersection of the two children.
    Intersec,
    /// The first child without the second.
    Diff,
}

/// An edge of a query graph, from an operator to one of its children.
#[derive(Debug, Clone, Copy, PartialEq, Eq, Structural)]
pub struct DagEdge {
    pub source: u32,
    pub target: u32,
    /// Whether the target is the operator's first child.
    pub first: bool,
}

#[verifier::external_type_specification]
#[verifier::external_body]
#[verifier::reject_recursive_types(N)]
#[verifier::reject_recursive_types(E)]
#[verifier::reject_recursive_types(Ty)]
#[verifier::reject_recursive_types(Ix)]
pub struct ExGraph<N, E, Ty, Ix>(Graph<N, E, Ty, Ix>);

#[verifier::external_type_specification]
#[verifier::external_body]
pub struct ExDirected(petgraph::Directed);

/// The nodes of a graph, by index.
pub uninterp spec fn dag_nodes(g: Graph<DagNode, bool>) -> Seq<DagNode>;

/// The edges of a graph, in the order in which they were added.
pub uninterp spec fn dag_edges(g: Graph<DagNode, bool>) -> Seq<DagEdge>;

/// `Graph::node_count`: the number of nodes.
#[verifier::external_body]
pub(crate) fn graph_node_count(g: &Graph<DagNode, bool>) -> (n: usize)
    ensures
        n == dag_nodes(*g).len(),
{
    g.node_count()
}

/// `Graph::node_weight` at the index made by `NodeIndex::new`: the node at
/// `i`, or nothing where the graph has no such node.
#[verifier::external_body]
pub(crate) fn graph_node(g: &Graph<DagNode, bool>, i: u32) -> (node: Option<&DagNode>)
    ensures
        node == if i < dag_nodes(*g).len() {
            Some(&dag_nodes(*g)[i as int])
        } else {
            None
        },
{
    g.node_weight(NodeIndex::new(i as usize))
}

/// `Graph::edge_references`: all edges in the order of their indices, each
/// with its source, its target and its weight.
#[verifier::external_body]
pub(crate) fn graph_edges(g: &Graph<DagNode, bool>) -> (edges: Vec<DagEdge>)
    ensures
        edges@ == dag_edges(*g),
{
    g.edge_references().map(
        |e| DagEdge {
            source: e.source().index() as u32,
            target: e.target().index() as u32,
            first: *e.weight(),
        },
    ).collect()
}

/// The edges that leave `node`, in the order of `edges`.
pub open spec fn out_edges(edges: Seq<DagEdge>, node: u32) -> Seq<DagEdge>
    decreases edges.len(),
{
    if edges.len() == 0 {
        Seq::empty()
    } else if edges.last().source == node {
        out_edges(edges.drop_last(), node).push(edges.last())
    } else {
        out_edges(edges.drop_last(), node)
    }
}

/// The two children of an operator, first child first: the node has
/// exactly two outgoing edges, to two different nodes other than itself, and
/// exactly one of them is marked as leading to the first child.
pub open spec fn children_of(edges: Seq<DagEdge>, node: u32) -> Option<(u32, u32)> {
    let out = out_edges(edges, node);
    if out.len() == 2 && out[0].first != out[1].first && out[0].target != out[1].target
        && out[0].target != node && out[1].target != node {
        if out[0].first {
            Some((out[0].target, out[1].target))
        } else {
            Some((out[1].target, out[0].target))
        }
    } else {
        None
    }
}

/// The two children of the operator at `node`, first child first.
pub fn children(edges: &Vec<DagEdge>, node: u32) -> (r: Option<(u32, u32)>)
    ensures
        r == children_of(edges@, node),
{
    let mut out: Vec<DagEdge> = Vec::new();
    let mut k: usize = 0;
    while k < edges.len()
        invariant
            k <= edges.len(),
            out@ == out_edges(edges@.take(k as int), node),
        decreases edges.len() - k,
    {
        proof {
            assert(edges@.take(k + 1).drop_last() =~= edges@.take(k as int));
        }
        if edges[k].source == node {
            out.push(edges[k]);
        }
        k += 1;
    }
    proof {
        assert(edges@.take(edges@.len() as int) =~= edges@);
    }
    if out.len() == 2 && out[0].first != out[1].first && out[0].target != out[1].target
        && out[0].target != node && out[1].target != node {
        if out[0].first {
            Some((out[0].target, out[1].target))
        } else {
            Some((out[1].target, out[0].target))
        }
    } else {
        None
    }
}

} // verus!
