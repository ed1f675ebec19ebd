//! Directed graphs of declaration indices, kept in a `petgraph` graph, and
//! their topological order.
use vstd::prelude::*;
use petgraph::graph::Graph;
use petgraph::Directed;

verus! {

#[verifier::external_type_specification]
#[verifier::external_body]
#[verifier::reject_recursive_types(N)]
#[verifier::reject_recursive_types(E)]
#[verifier::reject_recursive_types(D)]
#[verifier::reject_recursive_types(Ix)]
pub struct ExGraph<N, E, D, Ix>(Graph<N, E, D, Ix>);

#[verifier::external_type_specification]
#[verifier::external_body]
pub struct ExDirected(Directed);

/// A directed graph whose nodes carry `usize` weights, indexed by `usize`.
pub type IndexGraph = Graph<usize, (), Directed, usize>;

/// The weights of the nodes, in order of insertion; a node's index is its
/// position here.
pub uninterp spec fn graph_nodes(g: IndexGraph) -> Seq<usize>;

/// The edges `(from, to)`, in order of insertion.
pub uninterp spec fn graph_edges(g: IndexGraph) -> Seq<(usize, usize)>;

/// Whether `order` holds each index below `n` exactly once.
pub open spec fn is_perm(order: Seq<usize>, n: nat) -> bool {
    &&& order.no_duplicates()
    &&& forall|k: int| 0 <= k < order.len() ==> order[k] < n
    &&& forall|i: usize| i < n ==> order.contains(i)
}

/// Whether every edge goes from an earlier to a later position of `order`.
pub open spec fn edges_respected(edges: Seq<(usize, usize)>, order: Seq<usize>) -> bool {
    forall|k: int, i: int, j: int|
        0 <= k < edges.len() && 0 <= i < order.len() && 0 <= j < order.len() && edges[k] == (
            order[i],
            order[j],
        ) ==> i < j
}

/// A walk along edges, of at least one step, from `c` back to `c`.
pub open spec fn is_cycle_through(edges: Seq<(usize, usize)>, path: Seq<usize>, c: usize) -> bool {
    &&& path.len() >= 2
    &&& path[0] == c
    &&& path.last() == c
    &&& forall|i: int| 0 <= i < path.len() - 1 ==> edges.contains((path[i], #[trigger] path[i + 1]))
}

/// Relies on `Graph::default` (`Graph::with_capacity(0, 0)`): a graph with no
/// nodes and no edges.
#[verifier::external_body]
pub fn graph_new() -> (g: IndexGraph)
    ensures
        graph_nodes(g) == Seq::<usize>::empty(),
        graph_edges(g) == Seq::<(usize, usize)>::empty(),
{
    Graph::default()
}

/// Relies on `Graph::add_node`: appends a node and returns its index (with
/// `usize` indices it never runs out of them).
#[verifier::external_body]
pub fn graph_add_node(g: &mut IndexGraph, weight: usize) -> (r: usize)
    ensures
        graph_nodes(*final(g)) == graph_nodes(*old(g)).push(weight),
        graph_edges(*final(g)) == graph_edges(*old(g)),
        r == graph_nodes(*old(g)).len(),
{
    g.add_node(weight).index()
}

/// Relies on `Graph::add_edge`: appends an edge between existing nodes.
#[verifier::external_body]
pub fn graph_add_edge(g: &mut IndexGraph, from: usize, to: usize)
    requires
        from < graph_nodes(*old(g)).len(),
        to < graph_nodes(*old(g)).len(),
    ensures
        graph_nodes(*final(g)) == graph_nodes(*old(g)),
        graph_edges(*final(g)) == graph_edges(*old(g)).push((from, to)),
{
    g.add_edge(petgraph::graph::NodeIndex::new(from), petgraph::graph::NodeIndex::new(to), ());
}

/// Relies on `petgraph::algo::toposort`: on an acyclic graph, every node once,
/// each before its successors; otherwise (`Cycle::node_id`) a node that
/// participates in a cycle, so that no such order exists.
#[verifier::external_body]
pub fn graph_toposort(g: &IndexGraph) -> (r: Result<Vec<usize>, usize>)
    ensures
        r matches Ok(order) ==> order@.len() == graph_nodes(*g).len() && is_perm(
            order@,
            graph_nodes(*g).len(),
        ) && edges_respected(
            graph_edges(*g),
            order@,
        ),
        r matches Err(c) ==> c < graph_nodes(*g).len() && (exists|path: Seq<usize>|
            is_cycle_through(graph_edges(*g), path, c)) && forall|order: Seq<usize>|
            is_perm(order, graph_nodes(*g).len()) ==> !edges_respected(graph_edges(*g), order),
{
    match petgraph::algo::toposort(&*g, None) {
        Ok(nodes) => Ok(nodes.into_iter().map(|n| n.index()).collect()),
        Err(cycle) => Err(cycle.node_id().index()),
    }
}

} // verus!
