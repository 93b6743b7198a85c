//! The directed graph of the `petgraph` crate, with integers for nodes and edges.
//!
//! A node is found by its position, an edge leads from one position to another. Removing
//! a node moves the last one into its place.
use petgraph::graph::{DiGraph, NodeIndex};
use petgraph::Direction;
use vstd::prelude::*;

verus! {

#[verifier::external_type_specification]
#[verifier::external_body]
#[verifier::reject_recursive_types(N)]
#[verifier::reject_recursive_types(E)]
#[verifier::reject_recursive_types(Ty)]
#[verifier::reject_recursive_types(Ix)]
pub struct ExGraph<N, E, Ty, Ix>(petgraph::graph::Graph<N, E, Ty, Ix>);

#[verifier::external_type_specification]
#[verifier::external_body]
pub struct ExDirected(petgraph::Directed);

/// The weights of the nodes, by position.
pub uninterp spec fn graph_nodes(g: DiGraph<u64, u64>) -> Seq<u64>;

/// The edges in the order in which they were added: where each starts, where it ends,
/// and its weight.
pub uninterp spec fn graph_edges(g: DiGraph<u64, u64>) -> Seq<(int, int, u64)>;

// ---------------------------------------------------------------------------
// What can be said of edges
// ---------------------------------------------------------------------------

/// The edges that start at a node, the newest first.
pub open spec fn outgoing<A>(edges: Seq<(A, A, u64)>, a: A) -> Seq<(A, A, u64)>
    decreases edges.len(),
{
    if edges.len() == 0 {
        Seq::empty()
    } else {
        let before = outgoing(edges.drop_last(), a);
        if edges.last().0 == a {
            Seq::empty().push(edges.last()) + before
        } else {
            before
        }
    }
}

/// The edges that end at a node, the newest first.
pub open spec fn incoming<A>(edges: Seq<(A, A, u64)>, a: A) -> Seq<(A, A, u64)>
    decreases edges.len(),
{
    if edges.len() == 0 {
        Seq::empty()
    } else {
        let before = incoming(edges.drop_last(), a);
        if edges.last().1 == a {
            Seq::empty().push(edges.last()) + before
        } else {
            before
        }
    }
}

pub open spec fn starts<A>(edges: Seq<(A, A, u64)>) -> Seq<A> {
    Seq::new(edges.len(), |i: int| edges[i].0)
}

pub open spec fn ends<A>(edges: Seq<(A, A, u64)>) -> Seq<A> {
    Seq::new(edges.len(), |i: int| edges[i].1)
}

pub open spec fn weights<A>(edges: Seq<(A, A, u64)>) -> Seq<u64> {
    Seq::new(edges.len(), |i: int| edges[i].2)
}

/// The edges that neither start nor end at a node.
pub open spec fn without<A>(edges: Seq<(A, A, u64)>, a: A) -> Seq<(A, A, u64)>
    decreases edges.len(),
{
    if edges.len() == 0 {
        Seq::empty()
    } else {
        let before = without(edges.drop_last(), a);
        let e = edges.last();
        if e.0 == a || e.1 == a {
            before
        } else {
            before.push(e)
        }
    }
}

/// An edge leads from one node to another.
pub open spec fn leads<A>(edges: Seq<(A, A, u64)>, a: A, b: A) -> bool {
    exists|k: int| 0 <= k < edges.len() && (#[trigger] edges[k]).0 == a && edges[k].1 == b
}

/// An edge leads from the `i`-th node of a path to the next one.
pub open spec fn steps<A>(edges: Seq<(A, A, u64)>, p: Seq<A>, i: int) -> bool {
    leads(edges, p[i], p[i + 1])
}

/// A path along edges that comes back to where it started.
pub open spec fn is_round_trip<A>(edges: Seq<(A, A, u64)>, p: Seq<A>) -> bool {
    &&& p.len() >= 2
    &&& p[0] == p.last()
    &&& forall|i: int| 0 <= i < p.len() - 1 ==> #[trigger] steps(edges, p, i)
}

/// The edges form a cycle somewhere.
pub open spec fn cyclic<A>(edges: Seq<(A, A, u64)>) -> bool {
    exists|p: Seq<A>| is_round_trip(edges, p)
}

/// A position once the node at `a` is gone and the last one has taken its place.
pub open spec fn moved(x: int, a: int, last: int) -> int {
    if x == last {
        a
    } else {
        x
    }
}

pub open spec fn moved_edges(edges: Seq<(int, int, u64)>, a: int, last: int) -> Seq<
    (int, int, u64),
> {
    Seq::new(
        edges.len(),
        |i: int| (moved(edges[i].0, a, last), moved(edges[i].1, a, last), edges[i].2),
    )
}

// ---------------------------------------------------------------------------
// Calls into `petgraph`
// ---------------------------------------------------------------------------

/// Calls `petgraph::graph::Graph::new`: a graph without nodes and edges.
#[verifier::external_body]
pub(crate) fn new_graph() -> (g: DiGraph<u64, u64>)
    ensures
        graph_nodes(g) == Seq::<u64>::empty(),
        graph_edges(g) == Seq::<(int, int, u64)>::empty(),
{
    DiGraph::new()
}

/// Calls `Graph::node_count`.
#[verifier::external_body]
pub(crate) fn node_count(g: &DiGraph<u64, u64>) -> (n: usize)
    ensures
        n == graph_nodes(*g).len(),
{
    g.node_count()
}

/// Calls `Graph::edge_count`.
#[verifier::external_body]
pub(crate) fn edge_count(g: &DiGraph<u64, u64>) -> (n: usize)
    ensures
        n == graph_edges(*g).len(),
{
    g.edge_count()
}

/// Calls `Graph::add_node`: the node comes last. The call panics on a graph with as many
/// nodes as a 32-bit index can tell apart.
#[verifier::external_body]
pub(crate) fn add_node(g: &mut DiGraph<u64, u64>, weight: u64) -> (i: usize)
    requires
        graph_nodes(*old(g)).len() < u32::MAX,
    ensures
        i == graph_nodes(*old(g)).len(),
        graph_nodes(*final(g)) == graph_nodes(*old(g)).push(weight),
        graph_edges(*final(g)) == graph_edges(*old(g)),
{
    g.add_node(weight).index()
}

/// Calls `Graph::add_edge`: the edge is the newest one. The call panics where a node is
/// missing, and on a graph with as many edges as a 32-bit index can tell apart.
#[verifier::external_body]
pub(crate) fn add_edge(g: &mut DiGraph<u64, u64>, a: usize, b: usize, weight: u64)
    requires
        a < graph_nodes(*old(g)).len(),
        b < graph_nodes(*old(g)).len(),
        graph_edges(*old(g)).len() < u32::MAX,
    ensures
        graph_nodes(*final(g)) == graph_nodes(*old(g)),
        graph_edges(*final(g)) == graph_edges(*old(g)).push((a as int, b as int, weight)),
{
    g.add_edge(NodeIndex::new(a), NodeIndex::new(b), weight);
}

/// Calls `Graph::remove_node`: the node goes with all its edges, and the last node takes
/// its position. The other edges keep their order.
#[verifier::external_body]
pub(crate) fn remove_node(g: &mut DiGraph<u64, u64>, a: usize)
    requires
        a < graph_nodes(*old(g)).len(),
    ensures
        graph_nodes(*final(g)) == graph_nodes(*old(g)).update(
            a as int,
            graph_nodes(*old(g)).last(),
        ).drop_last(),
        graph_edges(*final(g)) == moved_edges(
            without(graph_edges(*old(g)), a as int),
            a as int,
            graph_nodes(*old(g)).len() - 1,
        ),
{
    g.remove_node(NodeIndex::new(a));
}

/// Calls `Graph::node_weight`.
#[verifier::external_body]
pub(crate) fn node_weight(g: &DiGraph<u64, u64>, a: usize) -> (r: Option<u64>)
    requires
        a < graph_nodes(*g).len(),
    ensures
        r == Some(graph_nodes(*g)[a as int]),
{
    g.node_weight(NodeIndex::new(a)).copied()
}

/// Calls `Graph::edges` and keeps the weights: those of the edges that start at a node,
/// the newest first.
#[verifier::external_body]
pub(crate) fn edges(g: &DiGraph<u64, u64>, a: usize) -> (r: Vec<u64>)
    requires
        a < graph_nodes(*g).len(),
    ensures
        r@ == weights(outgoing(graph_edges(*g), a as int)),
{
    g.edges(NodeIndex::new(a)).map(|e| *e.weight()).collect()
}

/// Calls `Graph::edges_directed` for incoming edges and keeps the weights: those of the
/// edges that end at a node, the newest first.
#[verifier::external_body]
pub(crate) fn edges_directed(g: &DiGraph<u64, u64>, a: usize) -> (r: Vec<u64>)
    requires
        a < graph_nodes(*g).len(),
    ensures
        r@ == weights(incoming(graph_edges(*g), a as int)),
{
    g.edges_directed(NodeIndex::new(a), Direction::Incoming).map(|e| *e.weight()).collect()
}

/// The positions as mathematical integers.
pub open spec fn positions(v: Seq<usize>) -> Seq<int> {
    Seq::new(v.len(), |i: int| v[i] as int)
}

/// Calls `Graph::neighbors`: where the edges that start at a node end, the newest edge
/// first.
#[verifier::external_body]
pub(crate) fn neighbors(g: &DiGraph<u64, u64>, a: usize) -> (r: Vec<usize>)
    requires
        a < graph_nodes(*g).len(),
    ensures
        positions(r@) == ends(outgoing(graph_edges(*g), a as int)),
{
    g.neighbors(NodeIndex::new(a)).map(|i| i.index()).collect()
}

/// Calls `Graph::neighbors_directed` for incoming edges: where the edges that end at a
/// node start, the newest edge first.
#[verifier::external_body]
pub(crate) fn neighbors_directed(g: &DiGraph<u64, u64>, a: usize) -> (r: Vec<usize>)
    requires
        a < graph_nodes(*g).len(),
    ensures
        positions(r@) == starts(incoming(graph_edges(*g), a as int)),
{
    g.neighbors_directed(NodeIndex::new(a), Direction::Incoming).map(|i| i.index()).collect()
}

/// Calls `petgraph::algo::is_cyclic_directed`: whether the edges form a cycle. The call
/// is recursive; how deep a graph may be before the stack is exhausted is not stated.
#[verifier::external_body]
pub(crate) fn is_cyclic_directed(g: &DiGraph<u64, u64>) -> (r: bool)
    ensures
        r == cyclic(graph_edges(*g)),
{
    petgraph::algo::is_cyclic_directed(g)
}

// ---------------------------------------------------------------------------
// Laws
// ---------------------------------------------------------------------------

/// The edges of a node, read from the oldest on, are all those that start or end at it;
/// without a node all edges stay that do not touch it.
pub proof fn edges_are_all_listed<A>(edges: Seq<(A, A, u64)>, a: A)
    ensures
        outgoing(edges, a).reverse() == edges.filter(|e: (A, A, u64)| e.0 == a),
        incoming(edges, a).reverse() == edges.filter(|e: (A, A, u64)| e.1 == a),
        without(edges, a) == edges.filter(|e: (A, A, u64)| e.0 != a && e.1 != a),
    decreases edges.len(),
{
    reveal(Seq::filter);
    let starts_here = |e: (A, A, u64)| e.0 == a;
    let ends_here = |e: (A, A, u64)| e.1 == a;
    if edges.len() > 0 {
        let rest = edges.drop_last();
        let e = edges.last();
        edges_are_all_listed(rest, a);
        assert((Seq::empty().push(e) + outgoing(rest, a)).reverse() =~= outgoing(
            rest,
            a,
        ).reverse().push(e));
        assert((Seq::empty().push(e) + incoming(rest, a)).reverse() =~= incoming(
            rest,
            a,
        ).reverse().push(e));
    } else {
        assert(outgoing(edges, a).reverse() =~= edges.filter(starts_here));
        assert(incoming(edges, a).reverse() =~= edges.filter(ends_here));
    }
}

/// Edges that all lead upward form no cycle; an edge from a node to itself does, and so do
/// two that lead back and forth.
pub proof fn upward_edges_form_no_cycle(edges: Seq<(u64, u64, u64)>, i: int, j: int)
    ensures
        (forall|k: int| 0 <= k < edges.len() ==> (#[trigger] edges[k]).0 < edges[k].1) ==> !cyclic(
            edges,
        ),
        0 <= i < edges.len() && edges[i].0 == edges[i].1 ==> cyclic(edges),
        0 <= i < edges.len() && 0 <= j < edges.len() && edges[i].0 == edges[j].1 && edges[i].1
            == edges[j].0 ==> cyclic(edges),
{
    if forall|k: int| 0 <= k < edges.len() ==> (#[trigger] edges[k]).0 < edges[k].1 {
        if cyclic(edges) {
            let p = choose|p: Seq<u64>| is_round_trip(edges, p);
            climbs(edges, p, p.len() - 1);
        }
    }
    if 0 <= i < edges.len() && edges[i].0 == edges[i].1 {
        let p = seq![edges[i].0, edges[i].0];
        assert(leads(edges, p[0], p[1]));
        assert(steps(edges, p, 0));
        assert(is_round_trip(edges, p));
    }
    if 0 <= i < edges.len() && 0 <= j < edges.len() && edges[i].0 == edges[j].1 && edges[i].1
        == edges[j].0 {
        let p = seq![edges[i].0, edges[i].1, edges[i].0];
        assert(leads(edges, p[0], p[1]));
        assert(leads(edges, p[1], p[2]));
        assert(steps(edges, p, 0) && steps(edges, p, 1));
        assert(is_round_trip(edges, p));
    }
}

proof fn climbs(edges: Seq<(u64, u64, u64)>, p: Seq<u64>, n: int)
    requires
        is_round_trip(edges, p),
        1 <= n < p.len(),
        forall|k: int| 0 <= k < edges.len() ==> (#[trigger] edges[k]).0 < edges[k].1,
    ensures
        p[0] < p[n],
    decreases n,
{
    assert(steps(edges, p, n - 1));
    let k = choose|k: int|
        0 <= k < edges.len() && (#[trigger] edges[k]).0 == p[n - 1] && edges[k].1 == p[n];
    assert(edges[k].0 < edges[k].1);
    if n > 1 {
        climbs(edges, p, n - 1);
    }
}

} // verus!
