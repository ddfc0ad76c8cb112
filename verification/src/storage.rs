//! Trusted boundary to the stable multigraph of the petgraph crate.
//!
//! The diagram keeps its vertices and edges in a petgraph stable undirected
//! multigraph with `usize` indices, whose index space cannot be exhausted.
//! Verus does not read petgraph, so this module declares the storage type
//! and gives each method the library calls a small wrapper whose contract
//! states, over two uninterpreted content maps, what petgraph's source and
//! documentation show. Everything above this module is verified against
//! these contracts.

use crate::vertex::{EdgeType, Vertex};
use petgraph::visit::{EdgeRef, IntoEdgeReferences, IntoNodeReferences};
use vstd::prelude::*;

verus! {

/// Declares petgraph's stable graph type so that it can stand in fields.
#[verifier::external_type_specification]
#[verifier::external_body]
#[verifier::reject_recursive_types(N)]
#[verifier::reject_recursive_types(E)]
#[verifier::reject_recursive_types(Ty)]
#[verifier::reject_recursive_types(Ix)]
pub struct ExStableGraph<N, E, Ty, Ix>(petgraph::stable_graph::StableGraph<N, E, Ty, Ix>);

/// Declares petgraph's marker type for undirected edges.
#[verifier::external_type_specification]
#[verifier::external_body]
pub struct ExUndirected(petgraph::Undirected);

/// The concrete storage the diagram uses: an undirected stable multigraph
/// of vertices and edge tags.
pub type Store = petgraph::stable_graph::StableGraph<
    Vertex,
    EdgeType,
    petgraph::Undirected,
    usize,
>;

/// The live vertices the storage holds, as a map from handle to payload.
pub uninterp spec fn store_nodes(s: Store) -> Map<nat, Vertex>;

/// The live edges the storage holds, as a map from handle to the two
/// endpoints (in insertion order) and the edge tag.
pub uninterp spec fn store_edges(s: Store) -> Map<nat, (nat, nat, EdgeType)>;

/// Whether an edge record connects the unordered pair `{a, b}`.
pub open spec fn edge_connects(rec: (nat, nat, EdgeType), a: nat, b: nat) -> bool {
    (rec.0 == a && rec.1 == b) || (rec.0 == b && rec.1 == a)
}

/// The restriction of an edge map to the edges that avoid vertex `h`.
pub open spec fn edges_avoiding(m: Map<nat, (nat, nat, EdgeType)>, h: nat) -> Map<
    nat,
    (nat, nat, EdgeType),
> {
    Map::new(|e: nat| m.dom().contains(e) && m[e].0 != h && m[e].1 != h, |e: nat| m[e])
}

/// A node map with nothing in it.
pub open spec fn no_nodes() -> Map<nat, Vertex> {
    Map::empty()
}

/// An edge map with nothing in it.
pub open spec fn no_edges() -> Map<nat, (nat, nat, EdgeType)> {
    Map::empty()
}

/// Relies on StableGraph::with_capacity: a graph with no nodes and no edges.
#[verifier::external_body]
pub(crate) fn store_new(capacity: usize) -> (r: Store)
    ensures
        store_nodes(r) == no_nodes(),
        store_edges(r) == no_edges(),
{
    petgraph::stable_graph::StableGraph::with_capacity(capacity, capacity)
}

/// Relies on StableGraph::add_node: adds one node and returns its index,
/// which was not live before the call; edges are untouched.
#[verifier::external_body]
pub(crate) fn store_add_node(s: &mut Store, v: Vertex) -> (h: usize)
    ensures
        !store_nodes(*old(s)).dom().contains(h as nat),
        store_nodes(*final(s)) == store_nodes(*old(s)).insert(h as nat, v),
        store_edges(*final(s)) == store_edges(*old(s)),
{
    s.add_node(v).index()
}

/// Relies on StableGraph::add_edge: adds one edge between two live nodes
/// (parallel edges are permitted) and returns its index, which was not live
/// before the call; nodes are untouched.
#[verifier::external_body]
pub(crate) fn store_add_edge(s: &mut Store, a: usize, b: usize, ty: EdgeType) -> (e: usize)
    requires
        store_nodes(*old(s)).dom().contains(a as nat),
        store_nodes(*old(s)).dom().contains(b as nat),
    ensures
        !store_edges(*old(s)).dom().contains(e as nat),
        store_edges(*final(s)) == store_edges(*old(s)).insert(e as nat, (a as nat, b as nat, ty)),
        store_nodes(*final(s)) == store_nodes(*old(s)),
{
    s.add_edge(
        petgraph::graph::NodeIndex::new(a),
        petgraph::graph::NodeIndex::new(b),
        ty,
    ).index()
}

/// Relies on StableGraph::remove_node: removes the node if it is live,
/// together with every edge incident to it, and leaves every other node and
/// every other edge unchanged.
#[verifier::external_body]
pub(crate) fn store_remove_node(s: &mut Store, h: usize) -> (r: Option<Vertex>)
    ensures
        match r {
            Some(v) => store_nodes(*old(s)).contains_pair(h as nat, v),
            None => !store_nodes(*old(s)).dom().contains(h as nat),
        },
        store_nodes(*final(s)) == store_nodes(*old(s)).remove(h as nat),
        store_edges(*final(s)) == edges_avoiding(store_edges(*old(s)), h as nat),
{
    s.remove_node(petgraph::graph::NodeIndex::new(h))
}

/// Relies on StableGraph::remove_edge: removes the edge if it is live and
/// returns its tag; every node and every other edge is unchanged.
#[verifier::external_body]
pub(crate) fn store_remove_edge(s: &mut Store, e: usize) -> (r: Option<EdgeType>)
    ensures
        match r {
            Some(t) => store_edges(*old(s)).dom().contains(e as nat) && store_edges(*old(s))[e
                as nat].2 == t,
            None => !store_edges(*old(s)).dom().contains(e as nat),
        },
        store_edges(*final(s)) == store_edges(*old(s)).remove(e as nat),
        store_nodes(*final(s)) == store_nodes(*old(s)),
{
    s.remove_edge(petgraph::graph::EdgeIndex::new(e))
}

/// Relies on StableGraph::find_edge: the index of some live edge between the
/// two endpoints, in either orientation, or None when no such edge is live.
#[verifier::external_body]
pub(crate) fn store_find_edge(s: &Store, a: usize, b: usize) -> (r: Option<usize>)
    ensures
        match r {
            Some(e) => store_edges(*s).dom().contains(e as nat) && edge_connects(
                store_edges(*s)[e as nat],
                a as nat,
                b as nat,
            ),
            None => forall|e: nat|
                store_edges(*s).dom().contains(e) ==> !edge_connects(
                    #[trigger] store_edges(*s)[e],
                    a as nat,
                    b as nat,
                ),
        },
{
    s.find_edge(petgraph::graph::NodeIndex::new(a), petgraph::graph::NodeIndex::new(b)).map(
        |e: petgraph::graph::EdgeIndex<usize>| e.index(),
    )
}

/// Relies on StableGraph::node_weight: the payload of the node if it is
/// live, and None otherwise.
#[verifier::external_body]
pub(crate) fn store_node_weight(s: &Store, h: usize) -> (r: Option<Vertex>)
    ensures
        match r {
            Some(v) => store_nodes(*s).contains_pair(h as nat, v),
            None => !store_nodes(*s).dom().contains(h as nat),
        },
{
    s.node_weight(petgraph::graph::NodeIndex::new(h)).copied()
}

/// Relies on StableGraph::node_count: the number of live nodes.
#[verifier::external_body]
pub(crate) fn store_node_count(s: &Store) -> (n: usize)
    ensures
        n as nat == store_nodes(*s).dom().len(),
{
    s.node_count()
}

/// Relies on StableGraph::edge_count: the number of live edges.
#[verifier::external_body]
pub(crate) fn store_edge_count(s: &Store) -> (n: usize)
    ensures
        n as nat == store_edges(*s).dom().len(),
{
    s.edge_count()
}

/// Relies on StableGraph::node_references: every live node exactly once,
/// in ascending handle order.
#[verifier::external_body]
pub(crate) fn store_node_list(s: &Store) -> (r: Vec<(usize, Vertex)>)
    ensures
        r@.len() == store_nodes(*s).dom().len(),
        forall|i: int|
            0 <= i < r@.len() ==> store_nodes(*s).contains_pair(
                (#[trigger] r@[i]).0 as nat,
                r@[i].1,
            ),
        forall|i: int, j: int| 0 <= i < j < r@.len() ==> #[trigger] r@[i].0 < #[trigger] r@[j].0,
        forall|k: nat|
            #[trigger] store_nodes(*s).dom().contains(k) ==> exists|i: int|
                0 <= i < r@.len() && (#[trigger] r@[i]).0 as nat == k,
{
    s.node_references().map(|p: (petgraph::graph::NodeIndex<usize>, &Vertex)| (p.0.index(), *p.1))
        .collect()
}

/// Relies on StableGraph::edge_references: every live edge exactly once, in
/// ascending handle order, as (handle, source, target, tag).
#[verifier::external_body]
pub(crate) fn store_edge_list(s: &Store) -> (r: Vec<(usize, usize, usize, EdgeType)>)
    ensures
        r@.len() == store_edges(*s).dom().len(),
        forall|i: int|
            0 <= i < r@.len() ==> store_edges(*s).contains_pair(
                (#[trigger] r@[i]).0 as nat,
                (r@[i].1 as nat, r@[i].2 as nat, r@[i].3),
            ),
        forall|i: int, j: int| 0 <= i < j < r@.len() ==> #[trigger] r@[i].0 < #[trigger] r@[j].0,
        forall|k: nat|
            #[trigger] store_edges(*s).dom().contains(k) ==> exists|i: int|
                0 <= i < r@.len() && (#[trigger] r@[i]).0 as nat == k,
{
    s.edge_references().map(
        |e: petgraph::stable_graph::EdgeReference<'_, EdgeType, usize>| (
            e.id().index(),
            e.source().index(),
            e.target().index(),
            *e.weight(),
        ),
    ).collect()
}

} // verus!
