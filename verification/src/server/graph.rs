//! The undirected graph of users (nodes) and chats (edges, weighted by
//! chat id) is a `petgraph::Graph`; the items here are its interface to
//! verified code. Nodes and edges are named by their position, as
//! petgraph's `NodeIndex` and `EdgeIndex` number them.

use petgraph::graph::{EdgeIndex, Graph, NodeIndex};
use petgraph::visit::EdgeRef;
use petgraph::Undirected;
use vstd::prelude::*;
use crate::server::client::Client;

verus! {

/// The graph type of petgraph, opaque to verified code.
#[verifier::external_type_specification]
#[verifier::external_body]
#[verifier::reject_recursive_types(N)]
#[verifier::reject_recursive_types(E)]
#[verifier::reject_recursive_types(Ty)]
#[verifier::reject_recursive_types(Ix)]
pub struct ExGraph<N, E, Ty, Ix>(Graph<N, E, Ty, Ix>);

/// petgraph's marker for undirected edges.
#[verifier::external_type_specification]
#[verifier::external_body]
pub struct ExUndirected(Undirected);

/// The users of the network, by node position.
pub type Network = Graph<Client, i32, Undirected>;

/// The node weights of a network, in node order (the order of
/// `add_node`).
pub uninterp spec fn network_nodes(g: Graph<Client, i32, Undirected>) -> Seq<(i32, Seq<char>, bool)>;

/// The edges of a network in the order of `add_edge`: the two endpoints
/// as given and the weight.
pub uninterp spec fn network_edges(g: Graph<Client, i32, Undirected>) -> Seq<(usize, usize, i32)>;

/// The edges where node `a` was given first, newest first: each as its
/// position and weight.
pub open spec fn edges_from(es: Seq<(usize, usize, i32)>, a: usize) -> Seq<(usize, i32)>
    decreases es.len(),
{
    if es.len() == 0 {
        Seq::empty()
    } else {
        let rest = edges_from(es.drop_last(), a);
        if es.last().0 == a {
            seq![((es.len() - 1) as usize, es.last().2)] + rest
        } else {
            rest
        }
    }
}

/// The edges where node `a` was given second but not first, newest first.
pub open spec fn edges_to(es: Seq<(usize, usize, i32)>, a: usize) -> Seq<(usize, i32)>
    decreases es.len(),
{
    if es.len() == 0 {
        Seq::empty()
    } else {
        let rest = edges_to(es.drop_last(), a);
        if es.last().1 == a && es.last().0 != a {
            seq![((es.len() - 1) as usize, es.last().2)] + rest
        } else {
            rest
        }
    }
}

/// The edges at node `a` in the order `Graph::edges` walks them in an
/// undirected graph: those that list `a` first, then the others, each
/// part newest first; a self-loop once.
pub open spec fn incident_edges(es: Seq<(usize, usize, i32)>, a: usize) -> Seq<(usize, i32)> {
    edges_from(es, a) + edges_to(es, a)
}

/// `Graph::new_undirected`: a network with no nodes and no edges.
#[verifier::external_body]
pub(crate) fn network_new() -> (g: Network)
    ensures
        network_nodes(g) == Seq::<(i32, Seq<char>, bool)>::empty(),
        network_edges(g) == Seq::<(usize, usize, i32)>::empty(),
{
    Graph::new_undirected()
}

/// `Graph::add_node`: appends a node and gives its position. petgraph
/// numbers nodes with `u32` and panics at `u32::MAX` nodes.
#[verifier::external_body]
pub(crate) fn network_add_node(g: &mut Network, weight: Client) -> (i: usize)
    requires
        network_nodes(*old(g)).len() < 0xffff_ffff,
    ensures
        i == network_nodes(*old(g)).len(),
        network_nodes(*final(g)) == network_nodes(*old(g)).push(weight@),
        network_edges(*final(g)) == network_edges(*old(g)),
{
    g.add_node(weight).index()
}

/// `Graph::add_edge`: appends an edge between two existing nodes. petgraph
/// panics when a node does not exist or at `u32::MAX` edges.
#[verifier::external_body]
pub(crate) fn network_add_edge(g: &mut Network, a: usize, b: usize, weight: i32)
    requires
        a < network_nodes(*old(g)).len(),
        b < network_nodes(*old(g)).len(),
        network_nodes(*old(g)).len() < 0xffff_ffff,
        network_edges(*old(g)).len() < 0xffff_ffff,
    ensures
        network_nodes(*final(g)) == network_nodes(*old(g)),
        network_edges(*final(g)) == network_edges(*old(g)).push((a, b, weight)),
{
    g.add_edge(NodeIndex::new(a), NodeIndex::new(b), weight);
}

/// `Graph::node_count`.
#[verifier::external_body]
pub(crate) fn network_node_count(g: &Network) -> (n: usize)
    ensures
        n == network_nodes(*g).len(),
{
    g.node_count()
}

/// `Graph::edge_count`.
#[verifier::external_body]
pub(crate) fn network_edge_count(g: &Network) -> (n: usize)
    ensures
        n == network_edges(*g).len(),
{
    g.edge_count()
}

/// `Graph::index` by node: the weight of an existing node.
#[verifier::external_body]
pub(crate) fn network_node(g: &Network, i: usize) -> (w: &Client)
    requires
        i < network_nodes(*g).len(),
        network_nodes(*g).len() < 0xffff_ffff,
    ensures
        w@ == network_nodes(*g)[i as int],
{
    &g[NodeIndex::new(i)]
}

/// `Graph::index_mut` by node: the weight of an existing node, to change;
/// the rest of the graph stays as it is.
#[verifier::external_body]
pub(crate) fn network_node_mut(g: &mut Network, i: usize) -> (w: &mut Client)
    requires
        i < network_nodes(*old(g)).len(),
        network_nodes(*old(g)).len() < 0xffff_ffff,
    ensures
        w@ == network_nodes(*old(g))[i as int],
        network_nodes(*final(g)) == network_nodes(*old(g)).update(i as int, final(w)@),
        network_edges(*final(g)) == network_edges(*old(g)),
{
    &mut g[NodeIndex::new(i)]
}

/// `Graph::edges` of node `a`: each edge's position and weight, in the
/// order petgraph walks them.
#[verifier::external_body]
pub(crate) fn network_edges_at(g: &Network, a: usize) -> (res: Vec<(usize, i32)>)
    requires
        a < network_nodes(*g).len(),
        network_nodes(*g).len() < 0xffff_ffff,
    ensures
        res@ == incident_edges(network_edges(*g), a),
{
    g.edges(NodeIndex::new(a)).map(|e| (e.id().index(), *e.weight())).collect()
}

/// `Graph::edge_endpoints`: the two nodes of edge `e` as they were given,
/// `None` when there is no such edge. petgraph's `EdgeIndex` holds a `u32`
/// and truncates larger positions, so `e` stays below that limit.
#[verifier::external_body]
pub(crate) fn network_edge_endpoints(g: &Network, e: usize) -> (res: Option<(usize, usize)>)
    requires
        network_edges(*g).len() < 0xffff_ffff,
        e < 0xffff_ffff,
    ensures
        e < network_edges(*g).len() ==> res == Some(
            (network_edges(*g)[e as int].0, network_edges(*g)[e as int].1),
        ),
        e >= network_edges(*g).len() ==> res is None,
{
    g.edge_endpoints(EdgeIndex::new(e)).map(|(a, b)| (a.index(), b.index()))
}

} // verus!
