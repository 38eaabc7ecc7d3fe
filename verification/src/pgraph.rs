//! The trusted boundary to the petgraph crate.
//!
//! The concrete graph object the materializer produces is a
//! `petgraph::graph::Graph`. That type is opaque to the verifier, so its
//! contents are named by two uninterpreted functions per edge kind — the node
//! labels in index order and the edges as index pairs in insertion order —
//! and each method the materializer calls is wrapped in a function whose
//! contract states, over those names, what petgraph's source shows the call
//! does.

use vstd::prelude::*;

verus! {

#[verifier::external_type_specification]
#[verifier::external_body]
#[verifier::reject_recursive_types(N)]
#[verifier::reject_recursive_types(E)]
#[verifier::reject_recursive_types(Ty)]
#[verifier::reject_recursive_types(Ix)]
pub struct ExGraph<N, E, Ty, Ix>(petgraph::graph::Graph<N, E, Ty, Ix>);

#[verifier::external_type_specification]
#[verifier::external_body]
pub struct ExDirected(petgraph::Directed);

#[verifier::external_type_specification]
#[verifier::external_body]
pub struct ExUndirected(petgraph::Undirected);

/// A directed petgraph graph whose nodes carry a string label and whose
/// edges carry a unit payload, with the default index type.
pub type LabeledDigraph = petgraph::graph::Graph<String, (), petgraph::Directed, u32>;

/// The undirected counterpart of `LabeledDigraph`.
pub type LabeledUngraph = petgraph::graph::Graph<String, (), petgraph::Undirected, u32>;

/// Nodes cannot reach the index reserved as petgraph's end sentinel for the
/// `u32` index type; the same bound holds for edges.
pub open spec fn index_limit() -> int {
    0xffff_ffff
}

/// The node labels of a directed graph, in node-index order.
pub uninterp spec fn digraph_nodes(g: LabeledDigraph) -> Seq<Seq<char>>;

/// The edges of a directed graph as `(source, target)` node-index pairs, in
/// insertion order.
pub uninterp spec fn digraph_edges(g: LabeledDigraph) -> Seq<(int, int)>;

/// The node labels of an undirected graph, in node-index order.
pub uninterp spec fn ungraph_nodes(g: LabeledUngraph) -> Seq<Seq<char>>;

/// The edges of an undirected graph as index pairs in insertion order, each
/// kept as the `(a, b)` orientation it was inserted with.
pub uninterp spec fn ungraph_edges(g: LabeledUngraph) -> Seq<(int, int)>;

/// Relies on petgraph's `Graph::new`: a fresh graph has no nodes and no
/// edges.
#[verifier::external_body]
pub fn digraph_new() -> (g: LabeledDigraph)
    ensures
        digraph_nodes(g) == Seq::<Seq<char>>::empty(),
        digraph_edges(g) == Seq::<(int, int)>::empty(),
{
    petgraph::graph::Graph::new()
}

/// Relies on petgraph's `Graph::add_node`: it appends one node and returns
/// its index, which equals the previous node count. It panics only when the
/// node count has reached the index type's capacity, which the caller is
/// required to stay under.
#[verifier::external_body]
pub fn digraph_add_node(g: &mut LabeledDigraph, label: String) -> (ix: usize)
    requires
        digraph_nodes(*old(g)).len() < index_limit(),
    ensures
        digraph_nodes(*final(g)) == digraph_nodes(*old(g)).push(label@),
        digraph_edges(*final(g)) == digraph_edges(*old(g)),
        ix == digraph_nodes(*old(g)).len(),
{
    g.add_node(label).index()
}

/// Relies on petgraph's `Graph::add_edge`: it appends one edge from `a` to
/// `b` and leaves the nodes unchanged. It panics only on an endpoint that is
/// no node index or when the edge count has reached the index type's
/// capacity, both of which the caller is required to exclude.
#[verifier::external_body]
pub fn digraph_add_edge(g: &mut LabeledDigraph, a: usize, b: usize)
    requires
        a < digraph_nodes(*old(g)).len(),
        b < digraph_nodes(*old(g)).len(),
        digraph_edges(*old(g)).len() < index_limit(),
    ensures
        digraph_nodes(*final(g)) == digraph_nodes(*old(g)),
        digraph_edges(*final(g)) == digraph_edges(*old(g)).push((a as int, b as int)),
{
    g.add_edge(
        petgraph::graph::NodeIndex::new(a),
        petgraph::graph::NodeIndex::new(b),
        (),
    );
}

/// Relies on petgraph's `Graph::new_undirected`: a fresh graph has no nodes
/// and no edges.
#[verifier::external_body]
pub fn ungraph_new() -> (g: LabeledUngraph)
    ensures
        ungraph_nodes(g) == Seq::<Seq<char>>::empty(),
        ungraph_edges(g) == Seq::<(int, int)>::empty(),
{
    petgraph::graph::Graph::new_undirected()
}

/// Relies on petgraph's `Graph::add_node`, as for the directed kind.
#[verifier::external_body]
pub fn ungraph_add_node(g: &mut LabeledUngraph, label: String) -> (ix: usize)
    requires
        ungraph_nodes(*old(g)).len() < index_limit(),
    ensures
        ungraph_nodes(*final(g)) == ungraph_nodes(*old(g)).push(label@),
        ungraph_edges(*final(g)) == ungraph_edges(*old(g)),
        ix == ungraph_nodes(*old(g)).len(),
{
    g.add_node(label).index()
}

/// Relies on petgraph's `Graph::add_edge`, as for the directed kind.
#[verifier::external_body]
pub fn ungraph_add_edge(g: &mut LabeledUngraph, a: usize, b: usize)
    requires
        a < ungraph_nodes(*old(g)).len(),
        b < ungraph_nodes(*old(g)).len(),
        ungraph_edges(*old(g)).len() < index_limit(),
    ensures
        ungraph_nodes(*final(g)) == ungraph_nodes(*old(g)),
        ungraph_edges(*final(g)) == ungraph_edges(*old(g)).push((a as int, b as int)),
{
    g.add_edge(
        petgraph::graph::NodeIndex::new(a),
        petgraph::graph::NodeIndex::new(b),
        (),
    );
}

} // verus!
