//! The server's users and chats: a graph whose nodes are the users and
//! whose edges are the chats between two users, weighted by chat id, with
//! a map from user id to node.

use std::collections::HashMap;
use vstd::prelude::*;
use crate::server::client::Client;
use crate::server::graph::{
    edges_from, edges_to, incident_edges, network_add_edge, network_add_node, network_edge_endpoints, network_edges,
    network_edges_at, network_new, network_node, network_node_count, network_node_mut, network_nodes,
    Network,
};
use crate::text::{contains_text, int_text, push_i32};
use vstd::string::*;

verus! {

/// A frame to write to the connection of user `to`.
pub struct Outgoing {
    pub to: i32,
    pub frame: String,
}

/// The mathematical value of a `Container`: the node of each user id, the
/// users by node (id, name, logged in), and the chats as edges (two nodes
/// and the chat id).
pub struct ContainerView {
    pub nodes: Map<i32, usize>,
    pub clients: Seq<(i32, Seq<char>, bool)>,
    pub edges: Seq<(usize, usize, i32)>,
}

/// The bookkeeping that every container keeps: each known id names a node
/// holding that id, each edge joins two nodes, and there is room below
/// petgraph's `u32` limit.
pub open spec fn wf(v: ContainerView) -> bool {
    &&& v.clients.len() < 0xffff_ffff
    &&& v.edges.len() < 0xffff_ffff
    &&& forall|id: i32| #[trigger]
        v.nodes.contains_key(id) ==> v.nodes[id] < v.clients.len() && v.clients[v.nodes[id] as int].0
            == id
    &&& forall|k: int| 0 <= k < v.edges.len() ==> (#[trigger] v.edges[k]).0 < v.clients.len()
        && v.edges[k].1 < v.clients.len()
}

/// The container with no users and no chats.
pub open spec fn empty_view() -> ContainerView {
    ContainerView {
        nodes: Map::empty(),
        clients: Seq::empty(),
        edges: Seq::empty(),
    }
}

/// A new node for user `id`; the id now names it.
pub open spec fn add_user_spec(v: ContainerView, id: i32, name: Seq<char>) -> ContainerView {
    ContainerView {
        nodes: v.nodes.insert(id, v.clients.len() as usize),
        clients: v.clients.push((id, name, false)),
        edges: v.edges,
    }
}

/// A new node for user `id` unless the id is known.
pub open spec fn add_if_absent(v: ContainerView, id: i32, name: Seq<char>) -> ContainerView {
    if v.nodes.contains_key(id) {
        v
    } else {
        add_user_spec(v, id, name)
    }
}

/// A new chat `chat_id` between users `id` and `other`.
pub open spec fn add_friends_spec(v: ContainerView, id: i32, other: i32, chat_id: i32) -> ContainerView {
    ContainerView { edges: v.edges.push((v.nodes[id], v.nodes[other], chat_id)), ..v }
}

/// The users without chats, loaded in turn.
pub open spec fn load_lonely(v: ContainerView, lonely: Seq<(i32, Seq<char>)>) -> ContainerView
    decreases lonely.len(),
{
    if lonely.len() == 0 {
        v
    } else {
        add_if_absent(load_lonely(v, lonely.drop_last()), lonely.last().0, lonely.last().1)
    }
}

/// The chats `(id_1, name_1, id_2, name_2, chat_id)`, loaded in turn: both
/// users are added when unknown, then the chat between them.
pub open spec fn load_chats(v: ContainerView, users: Seq<(i32, Seq<char>, i32, Seq<char>, i32)>) -> ContainerView
    decreases users.len(),
{
    if users.len() == 0 {
        v
    } else {
        let u = users.last();
        let w = load_chats(v, users.drop_last());
        add_friends_spec(add_if_absent(add_if_absent(w, u.0, u.1), u.2, u.3), u.0, u.2, u.4)
    }
}

/// The `;id;name` pieces of the users, in node order.
pub open spec fn users_text(cs: Seq<(i32, Seq<char>, bool)>) -> Seq<char>
    decreases cs.len(),
{
    if cs.len() == 0 {
        Seq::empty()
    } else {
        users_text(cs.drop_last()) + seq![';'] + int_text(cs.last().0 as int) + seq![';'] + cs.last().1
    }
}

/// The `id;name` pieces of the users other than `me`, in node order,
/// joined by `;`; empty when there is no other user.
pub open spec fn others_text(cs: Seq<(i32, Seq<char>, bool)>, me: i32) -> Seq<char>
    decreases cs.len(),
{
    if cs.len() == 0 {
        Seq::empty()
    } else {
        let rest = others_text(cs.drop_last(), me);
        let c = cs.last();
        if c.0 == me {
            rest
        } else if rest.len() == 0 {
            int_text(c.0 as int) + seq![';'] + c.1
        } else {
            rest + seq![';'] + int_text(c.0 as int) + seq![';'] + c.1
        }
    }
}

/// A list, or a lone `;` for an empty one.
pub open spec fn list_or_empty(t: Seq<char>) -> Seq<char> {
    if t.len() == 0 {
        seq![';']
    } else {
        t
    }
}

/// The node at the other end of edge `e` from `node`.
pub open spec fn other_end(v: ContainerView, node: usize, e: usize) -> usize {
    let ends = v.edges[e as int];
    if ends.0 == node {
        ends.1
    } else {
        ends.0
    }
}

/// The `;chat_id;name` pieces of the chats at `node`, in the order of
/// `es`.
pub open spec fn friends_text(v: ContainerView, node: usize, es: Seq<(usize, i32)>) -> Seq<char>
    decreases es.len(),
{
    if es.len() == 0 {
        Seq::empty()
    } else {
        let (e, w) = es.last();
        friends_text(v, node, es.drop_last()) + seq![';'] + int_text(w as int) + seq![';']
            + v.clients[other_end(v, node, e) as int].1
    }
}

/// The id of the user at the other end of the first of `es` that is chat
/// `chat_id`; `0` when none is.
pub open spec fn other_of(v: ContainerView, node: usize, es: Seq<(usize, i32)>, chat_id: i32) -> i32
    decreases es.len(),
{
    if es.len() == 0 {
        0
    } else if es[0].1 == chat_id {
        v.clients[other_end(v, node, es[0].0) as int].0
    } else {
        other_of(v, node, es.drop_first(), chat_id)
    }
}

/// The chats at user `id`, in the order the graph walks them.
pub open spec fn chats_of(v: ContainerView, id: i32) -> Seq<(usize, i32)> {
    incident_edges(v.edges, v.nodes[id])
}

proof fn lemma_edges_from_valid(es: Seq<(usize, usize, i32)>, a: usize)
    requires
        es.len() < 0xffff_ffff,
    ensures
        forall|k: int| 0 <= k < edges_from(es, a).len() ==> (#[trigger] edges_from(es, a)[k]).0 < es.len()
            && es[edges_from(es, a)[k].0 as int].0 == a && es[edges_from(es, a)[k].0 as int].2
            == edges_from(es, a)[k].1,
    decreases es.len(),
{
    if es.len() > 0 {
        lemma_edges_from_valid(es.drop_last(), a);
        let r = edges_from(es.drop_last(), a);
        let f = edges_from(es, a);
        assert forall|k: int| 0 <= k < f.len() implies (#[trigger] f[k]).0 < es.len() && es[f[k].0 as int].0
            == a && es[f[k].0 as int].2 == f[k].1 by {
            if es.last().0 == a {
                if k > 0 {
                    assert(f[k] == r[k - 1]);
                    assert(es.drop_last()[r[k - 1].0 as int] == es[r[k - 1].0 as int]);
                }
            } else {
                assert(f[k] == r[k]);
                assert(es.drop_last()[r[k].0 as int] == es[r[k].0 as int]);
            }
        }
    }
}

proof fn lemma_edges_to_valid(es: Seq<(usize, usize, i32)>, a: usize)
    requires
        es.len() < 0xffff_ffff,
    ensures
        forall|k: int| 0 <= k < edges_to(es, a).len() ==> (#[trigger] edges_to(es, a)[k]).0 < es.len()
            && es[edges_to(es, a)[k].0 as int].1 == a && es[edges_to(es, a)[k].0 as int].2
            == edges_to(es, a)[k].1,
    decreases es.len(),
{
    if es.len() > 0 {
        lemma_edges_to_valid(es.drop_last(), a);
        let r = edges_to(es.drop_last(), a);
        let f = edges_to(es, a);
        assert forall|k: int| 0 <= k < f.len() implies (#[trigger] f[k]).0 < es.len() && es[f[k].0 as int].1
            == a && es[f[k].0 as int].2 == f[k].1 by {
            if es.last().1 == a && es.last().0 != a {
                if k > 0 {
                    assert(f[k] == r[k - 1]);
                    assert(es.drop_last()[r[k - 1].0 as int] == es[r[k - 1].0 as int]);
                }
            } else {
                assert(f[k] == r[k]);
                assert(es.drop_last()[r[k].0 as int] == es[r[k].0 as int]);
            }
        }
    }
}

/// Every chat the graph walks at a node is an edge of the graph, at that
/// node, with its chat id.
pub proof fn lemma_incident_valid(v: ContainerView, a: usize)
    requires
        v.edges.len() < 0xffff_ffff,
    ensures
        forall|k: int| 0 <= k < incident_edges(v.edges, a).len() ==> (#[trigger] incident_edges(
            v.edges,
            a,
        )[k]).0 < v.edges.len(),
{
    lemma_edges_from_valid(v.edges, a);
    lemma_edges_to_valid(v.edges, a);
    let f = edges_from(v.edges, a);
    let t = edges_to(v.edges, a);
    assert forall|k: int| 0 <= k < incident_edges(v.edges, a).len() implies (#[trigger] incident_edges(
        v.edges,
        a,
    )[k]).0 < v.edges.len() by {
        if k < f.len() {
            assert(incident_edges(v.edges, a)[k] == f[k]);
        } else {
            assert(incident_edges(v.edges, a)[k] == t[k - f.len()]);
        }
    }
}

/// No chat of the container has id `chat_id`.
pub open spec fn chat_id_unused(v: ContainerView, chat_id: i32) -> bool {
    forall|k: int| 0 <= k < v.edges.len() ==> (#[trigger] v.edges[k]).2 != chat_id
}

proof fn lemma_other_of_skip(v: ContainerView, node: usize, xs: Seq<(usize, i32)>, ys: Seq<(usize, i32)>, chat_id: i32)
    requires
        forall|k: int| 0 <= k < xs.len() ==> (#[trigger] xs[k]).1 != chat_id,
    ensures
        other_of(v, node, xs + ys, chat_id) == other_of(v, node, ys, chat_id),
    decreases xs.len(),
{
    if xs.len() > 0 {
        assert((xs + ys).drop_first() =~= xs.drop_first() + ys);
        assert((xs + ys)[0] == xs[0]);
        lemma_other_of_skip(v, node, xs.drop_first(), ys, chat_id);
    } else {
        assert(xs + ys =~= ys);
    }
}

/// A new chat joins its two users: when its id is fresh, each user finds
/// the other as partner in that chat. This is what lets the server route
/// a message of the chat to the partner.
pub proof fn lemma_chat_partners(v: ContainerView, id: i32, other: i32, chat_id: i32)
    requires
        wf(v),
        v.nodes.contains_key(id),
        v.nodes.contains_key(other),
        v.edges.len() + 1 < 0xffff_ffff,
        chat_id_unused(v, chat_id),
    ensures
        ({
            let w = add_friends_spec(v, id, other, chat_id);
            &&& other_of(w, w.nodes[id], chats_of(w, id), chat_id) == other
            &&& other_of(w, w.nodes[other], chats_of(w, other), chat_id) == id
        }),
{
    let w = add_friends_spec(v, id, other, chat_id);
    let n1 = v.nodes[id];
    let n2 = v.nodes[other];
    let len = v.edges.len();
    assert(w.edges.drop_last() =~= v.edges);
    assert(w.edges.last() == (n1, n2, chat_id));
    assert(((w.edges.len() - 1) as usize) as int == len);
    // the user who opened the chat finds it first
    assert(edges_from(w.edges, n1) == seq![(len as usize, chat_id)] + edges_from(v.edges, n1));
    assert(chats_of(w, id)[0] == (len as usize, chat_id));
    assert(chats_of(w, id).len() > 0);
    assert(other_end(w, n1, len as usize) == n2);
    // the partner finds it after its own chats, none of which is `chat_id`
    if n1 != n2 {
        lemma_edges_from_valid(v.edges, n2);
        assert(edges_from(w.edges, n2) == edges_from(v.edges, n2));
        let xs = edges_from(v.edges, n2);
        assert forall|k: int| 0 <= k < xs.len() implies (#[trigger] xs[k]).1 != chat_id by {
            assert(v.edges[xs[k].0 as int].2 == xs[k].1);
        }
        assert(edges_to(w.edges, n2) == seq![(len as usize, chat_id)] + edges_to(v.edges, n2));
        lemma_other_of_skip(w, n2, xs, edges_to(w.edges, n2), chat_id);
        assert(other_end(w, n2, len as usize) == n1);
        assert(edges_to(w.edges, n2)[0] == (len as usize, chat_id));
    }
}

/// Edge `k` has node `a` as one of its ends.
pub open spec fn at_node(es: Seq<(usize, usize, i32)>, k: int, a: usize) -> bool {
    es[k].0 == a || es[k].1 == a
}

proof fn lemma_edges_from_has(es: Seq<(usize, usize, i32)>, a: usize, k: int)
    requires
        0 <= k < es.len(),
        es.len() < 0xffff_ffff,
        es[k].0 == a,
    ensures
        exists|i: int| 0 <= i < edges_from(es, a).len() && #[trigger] edges_from(es, a)[i] == (k as usize, es[k].2),
    decreases es.len(),
{
    let r = edges_from(es.drop_last(), a);
    if k == es.len() - 1 {
        assert(edges_from(es, a)[0] == (k as usize, es[k].2));
    } else {
        assert(es.drop_last()[k] == es[k]);
        lemma_edges_from_has(es.drop_last(), a, k);
        let i = choose|i: int| 0 <= i < r.len() && #[trigger] r[i] == (k as usize, es[k].2);
        if es.last().0 == a {
            assert(edges_from(es, a)[i + 1] == r[i]);
        } else {
            assert(edges_from(es, a)[i] == r[i]);
        }
    }
}

proof fn lemma_edges_to_has(es: Seq<(usize, usize, i32)>, a: usize, k: int)
    requires
        0 <= k < es.len(),
        es.len() < 0xffff_ffff,
        es[k].1 == a,
        es[k].0 != a,
    ensures
        exists|i: int| 0 <= i < edges_to(es, a).len() && #[trigger] edges_to(es, a)[i] == (k as usize, es[k].2),
    decreases es.len(),
{
    let r = edges_to(es.drop_last(), a);
    if k == es.len() - 1 {
        assert(edges_to(es, a)[0] == (k as usize, es[k].2));
    } else {
        assert(es.drop_last()[k] == es[k]);
        lemma_edges_to_has(es.drop_last(), a, k);
        let i = choose|i: int| 0 <= i < r.len() && #[trigger] r[i] == (k as usize, es[k].2);
        if es.last().1 == a && es.last().0 != a {
            assert(edges_to(es, a)[i + 1] == r[i]);
        } else {
            assert(edges_to(es, a)[i] == r[i]);
        }
    }
}

/// Each chat the graph walks at node `a` is an edge at `a`, with its
/// weight.
proof fn lemma_incident_entries(es: Seq<(usize, usize, i32)>, a: usize)
    requires
        es.len() < 0xffff_ffff,
    ensures
        forall|i: int| 0 <= i < incident_edges(es, a).len() ==> {
            let e = #[trigger] incident_edges(es, a)[i];
            &&& e.0 < es.len()
            &&& at_node(es, e.0 as int, a)
            &&& es[e.0 as int].2 == e.1
        },
{
    lemma_edges_from_valid(es, a);
    lemma_edges_to_valid(es, a);
    let f = edges_from(es, a);
    let t = edges_to(es, a);
    assert forall|i: int| 0 <= i < incident_edges(es, a).len() implies {
        let e = #[trigger] incident_edges(es, a)[i];
        &&& e.0 < es.len()
        &&& at_node(es, e.0 as int, a)
        &&& es[e.0 as int].2 == e.1
    } by {
        if i < f.len() {
            assert(incident_edges(es, a)[i] == f[i]);
        } else {
            assert(incident_edges(es, a)[i] == t[i - f.len()]);
        }
    }
}

proof fn lemma_other_of_first(v: ContainerView, node: usize, xs: Seq<(usize, i32)>, c: i32, k: usize)
    requires
        exists|i: int| 0 <= i < xs.len() && #[trigger] xs[i] == (k, c),
        forall|i: int| 0 <= i < xs.len() && (#[trigger] xs[i]).1 == c ==> xs[i].0 == k,
    ensures
        other_of(v, node, xs, c) == v.clients[other_end(v, node, k) as int].0,
    decreases xs.len(),
{
    if xs[0].1 != c {
        let i = choose|i: int| 0 <= i < xs.len() && #[trigger] xs[i] == (k, c);
        assert(xs.drop_first()[i - 1] == xs[i]);
        assert forall|j: int| 0 <= j < xs.drop_first().len() && (#[trigger] xs.drop_first()[j]).1 == c implies xs.drop_first()[j].0
            == k by {
            assert(xs.drop_first()[j] == xs[j + 1]);
        }
        lemma_other_of_first(v, node, xs.drop_first(), c, k);
    }
}

proof fn lemma_other_of_none(v: ContainerView, node: usize, xs: Seq<(usize, i32)>, c: i32)
    requires
        forall|i: int| 0 <= i < xs.len() ==> (#[trigger] xs[i]).1 != c,
    ensures
        other_of(v, node, xs, c) == 0,
    decreases xs.len(),
{
    if xs.len() > 0 {
        assert forall|j: int| 0 <= j < xs.drop_first().len() implies (#[trigger] xs.drop_first()[j]).1 != c by {
            assert(xs.drop_first()[j] == xs[j + 1]);
        }
        lemma_other_of_none(v, node, xs.drop_first(), c);
    }
}

/// The partner in a chat is the user at the other end of its edge: when
/// chat `k` is the only chat at user `id` with its chat id, `get_other`
/// for that chat id finds the user at the other end of `k` (the user
/// itself for a chat with itself).
pub proof fn lemma_unique_chat_partner(v: ContainerView, id: i32, k: int)
    requires
        wf(v),
        v.nodes.contains_key(id),
        0 <= k < v.edges.len(),
        at_node(v.edges, k, v.nodes[id]),
        forall|j: int| 0 <= j < v.edges.len() && j != k && at_node(v.edges, j, v.nodes[id]) ==> (
        #[trigger] v.edges[j]).2 != v.edges[k].2,
    ensures
        other_of(v, v.nodes[id], chats_of(v, id), v.edges[k].2) == v.clients[other_end(
            v,
            v.nodes[id],
            k as usize,
        ) as int].0,
{
    let a = v.nodes[id];
    let es = v.edges;
    let c = es[k].2;
    let xs = chats_of(v, id);
    lemma_incident_entries(es, a);
    lemma_edges_from_valid(es, a);
    if es[k].0 == a {
        lemma_edges_from_has(es, a, k);
        let i = choose|i: int| 0 <= i < edges_from(es, a).len() && #[trigger] edges_from(es, a)[i] == (k as usize, c);
        assert(xs[i] == edges_from(es, a)[i]);
    } else {
        lemma_edges_to_has(es, a, k);
        let i = choose|i: int| 0 <= i < edges_to(es, a).len() && #[trigger] edges_to(es, a)[i] == (k as usize, c);
        assert(xs[edges_from(es, a).len() + i] == edges_to(es, a)[i]);
    }
    assert forall|i: int| 0 <= i < xs.len() && (#[trigger] xs[i]).1 == c implies xs[i].0 == k as usize by {
        let e = xs[i];
        if e.0 as int != k {
            assert(es[e.0 as int].2 != c);
        }
    }
    lemma_other_of_first(v, a, xs, c, k as usize);
}

/// A user with no chat of id `chat_id` has no partner in it: `get_other`
/// gives `0`.
pub proof fn lemma_no_chat_partner(v: ContainerView, id: i32, chat_id: i32)
    requires
        wf(v),
        v.nodes.contains_key(id),
        forall|j: int| 0 <= j < v.edges.len() && at_node(v.edges, j, v.nodes[id]) ==> (#[trigger] v.edges[j]).2
            != chat_id,
    ensures
        other_of(v, v.nodes[id], chats_of(v, id), chat_id) == 0,
{
    let a = v.nodes[id];
    lemma_incident_entries(v.edges, a);
    let xs = chats_of(v, id);
    assert forall|i: int| 0 <= i < xs.len() implies (#[trigger] xs[i]).1 != chat_id by {
        let e = xs[i];
        assert(v.edges[e.0 as int].2 == e.1);
    }
    lemma_other_of_none(v, a, xs, chat_id);
}

/// No two users hold the same id.
pub open spec fn ids_distinct(cs: Seq<(i32, Seq<char>, bool)>) -> bool {
    forall|p: int, q: int| 0 <= p < q < cs.len() ==> #[trigger] cs[p].0 != #[trigger] cs[q].0
}

/// Every user's id names a node.
pub open spec fn ids_known(v: ContainerView) -> bool {
    forall|p: int| 0 <= p < v.clients.len() ==> v.nodes.contains_key(#[trigger] v.clients[p].0)
}

proof fn lemma_add_if_absent_keeps(v: ContainerView, id: i32, name: Seq<char>)
    requires
        wf(v),
        v.clients.len() + 1 < 0xffff_ffff,
    ensures
        ({
            let w = add_if_absent(v, id, name);
            &&& wf(w)
            &&& w.nodes.contains_key(id)
            &&& w.edges == v.edges
            &&& v.clients.len() <= w.clients.len() <= v.clients.len() + 1
            &&& forall|x: i32| #[trigger] v.nodes.contains_key(x) ==> w.nodes.contains_key(x) && w.nodes[x]
                == v.nodes[x]
            &&& ids_known(v) && ids_distinct(v.clients) ==> ids_known(w) && ids_distinct(w.clients)
        }),
{
    let w = add_if_absent(v, id, name);
    if !v.nodes.contains_key(id) {
        assert forall|x: i32| #[trigger] w.nodes.contains_key(x) implies w.nodes[x] < w.clients.len()
            && w.clients[w.nodes[x] as int].0 == x by {
            if x != id {
                assert(w.clients[w.nodes[x] as int] == v.clients[v.nodes[x] as int]);
            }
        }
        if ids_known(v) && ids_distinct(v.clients) {
            assert forall|p: int, q: int| 0 <= p < q < w.clients.len() implies #[trigger] w.clients[p].0
                != #[trigger] w.clients[q].0 by {
                if q == v.clients.len() {
                    assert(v.nodes.contains_key(v.clients[p].0));
                } else {
                    assert(w.clients[p] == v.clients[p] && w.clients[q] == v.clients[q]);
                }
            }
            assert forall|p: int| 0 <= p < w.clients.len() implies w.nodes.contains_key(#[trigger] w.clients[p].0) by {
                if p < v.clients.len() {
                    assert(w.clients[p] == v.clients[p]);
                }
            }
        }
    }
}

proof fn lemma_add_friends_keeps(v: ContainerView, id: i32, other: i32, chat_id: i32)
    requires
        wf(v),
        v.nodes.contains_key(id),
        v.nodes.contains_key(other),
        v.edges.len() + 1 < 0xffff_ffff,
    ensures
        ({
            let w = add_friends_spec(v, id, other, chat_id);
            &&& wf(w)
            &&& w.nodes == v.nodes
            &&& w.clients == v.clients
            &&& w.edges == v.edges.push((v.nodes[id], v.nodes[other], chat_id))
        }),
{
    let w = add_friends_spec(v, id, other, chat_id);
    assert forall|k: int| 0 <= k < w.edges.len() implies (#[trigger] w.edges[k]).0 < w.clients.len()
        && w.edges[k].1 < w.clients.len() by {
        if k < v.edges.len() {
            assert(w.edges[k] == v.edges[k]);
        }
    }
}

proof fn lemma_load_lonely(lonely: Seq<(i32, Seq<char>)>)
    requires
        lonely.len() + 1 < 0xffff_ffff,
    ensures
        ({
            let w = load_lonely(empty_view(), lonely);
            &&& wf(w)
            &&& w.edges.len() == 0
            &&& w.clients.len() <= lonely.len()
            &&& ids_known(w)
            &&& ids_distinct(w.clients)
            &&& forall|i: int| 0 <= i < lonely.len() ==> w.nodes.contains_key(#[trigger] lonely[i].0)
        }),
    decreases lonely.len(),
{
    if lonely.len() > 0 {
        let init = lonely.drop_last();
        lemma_load_lonely(init);
        let w0 = load_lonely(empty_view(), init);
        lemma_add_if_absent_keeps(w0, lonely.last().0, lonely.last().1);
        let w = load_lonely(empty_view(), lonely);
        assert forall|i: int| 0 <= i < lonely.len() implies w.nodes.contains_key(#[trigger] lonely[i].0) by {
            if i < init.len() {
                assert(init[i] == lonely[i]);
                assert(w0.nodes.contains_key(init[i].0));
            }
        }
    }
}

proof fn lemma_load_chats(base: ContainerView, users: Seq<(i32, Seq<char>, i32, Seq<char>, i32)>)
    requires
        wf(base),
        ids_known(base),
        ids_distinct(base.clients),
        base.clients.len() + 2 * users.len() + 1 < 0xffff_ffff,
        base.edges.len() + users.len() + 1 < 0xffff_ffff,
    ensures
        ({
            let w = load_chats(base, users);
            &&& wf(w)
            &&& ids_known(w)
            &&& ids_distinct(w.clients)
            &&& w.clients.len() <= base.clients.len() + 2 * users.len()
            &&& w.edges.len() == base.edges.len() + users.len()
            &&& forall|x: i32| #[trigger] base.nodes.contains_key(x) ==> w.nodes.contains_key(x) && w.nodes[x]
                == base.nodes[x]
            &&& forall|j: int| 0 <= j < base.edges.len() ==> #[trigger] w.edges[j] == base.edges[j]
            &&& forall|j: int| 0 <= j < users.len() ==> {
                let u = #[trigger] users[j];
                &&& w.nodes.contains_key(u.0)
                &&& w.nodes.contains_key(u.2)
                &&& w.edges[base.edges.len() + j] == (w.nodes[u.0], w.nodes[u.2], u.4)
            }
        }),
    decreases users.len(),
{
    if users.len() > 0 {
        let init = users.drop_last();
        let u = users.last();
        lemma_load_chats(base, init);
        let w0 = load_chats(base, init);
        lemma_add_if_absent_keeps(w0, u.0, u.1);
        let w1 = add_if_absent(w0, u.0, u.1);
        lemma_add_if_absent_keeps(w1, u.2, u.3);
        let w2 = add_if_absent(w1, u.2, u.3);
        lemma_add_friends_keeps(w2, u.0, u.2, u.4);
        let w = load_chats(base, users);
        assert(w == add_friends_spec(w2, u.0, u.2, u.4));
        assert forall|j: int| 0 <= j < users.len() implies {
            let u = #[trigger] users[j];
            &&& w.nodes.contains_key(u.0)
            &&& w.nodes.contains_key(u.2)
            &&& w.edges[base.edges.len() + j] == (w.nodes[u.0], w.nodes[u.2], u.4)
        } by {
            if j < init.len() {
                assert(init[j] == users[j]);
                let x = init[j];
                assert(w0.nodes.contains_key(x.0));
                assert(w0.nodes.contains_key(x.2));
                assert(w.edges[base.edges.len() + j] == w0.edges[base.edges.len() + j]);
            }
        }
        assert forall|j: int| 0 <= j < base.edges.len() implies #[trigger] w.edges[j] == base.edges[j] by {
            assert(w.edges[j] == w0.edges[j]);
        }
    }
}

/// The container built from the database lists every user exactly once:
/// each id of `lonely` and of both ends of each chat in `users` names a
/// node holding that id, and no two nodes hold the same id.
pub proof fn lemma_loaded_users(lonely: Seq<(i32, Seq<char>)>, users: Seq<(i32, Seq<char>, i32, Seq<char>, i32)>)
    requires
        lonely.len() + 2 * users.len() + 1 < 0xffff_ffff,
    ensures
        ({
            let v = load_chats(load_lonely(empty_view(), lonely), users);
            &&& wf(v)
            &&& ids_distinct(v.clients)
            &&& forall|i: int| 0 <= i < lonely.len() ==> v.nodes.contains_key(#[trigger] lonely[i].0)
            &&& forall|j: int| 0 <= j < users.len() ==> v.nodes.contains_key((#[trigger] users[j]).0)
                && v.nodes.contains_key(users[j].2)
            &&& forall|id: i32| #[trigger] v.nodes.contains_key(id) ==> v.clients[v.nodes[id] as int].0 == id
        }),
{
    lemma_load_lonely(lonely);
    let base = load_lonely(empty_view(), lonely);
    lemma_load_chats(base, users);
    let v = load_chats(base, users);
    assert forall|i: int| 0 <= i < lonely.len() implies v.nodes.contains_key(#[trigger] lonely[i].0) by {
        assert(base.nodes.contains_key(lonely[i].0));
    }
}

/// In the container built from the database, when no two chats share an
/// id, the two users of each chat find each other as partners in it.
pub proof fn lemma_loaded_chat_partners(
    lonely: Seq<(i32, Seq<char>)>,
    users: Seq<(i32, Seq<char>, i32, Seq<char>, i32)>,
    j: int,
)
    requires
        lonely.len() + 2 * users.len() + 1 < 0xffff_ffff,
        0 <= j < users.len(),
        forall|p: int, q: int| 0 <= p < q < users.len() ==> (#[trigger] users[p]).4 != (#[trigger] users[q]).4,
    ensures
        ({
            let v = load_chats(load_lonely(empty_view(), lonely), users);
            let u = users[j];
            &&& v.nodes.contains_key(u.0)
            &&& v.nodes.contains_key(u.2)
            &&& other_of(v, v.nodes[u.0], chats_of(v, u.0), u.4) == u.2
            &&& other_of(v, v.nodes[u.2], chats_of(v, u.2), u.4) == u.0
        }),
{
    lemma_load_lonely(lonely);
    let base = load_lonely(empty_view(), lonely);
    lemma_load_chats(base, users);
    let v = load_chats(base, users);
    let u = users[j];
    assert(v.edges[j] == (v.nodes[u.0], v.nodes[u.2], u.4));
    assert forall|k: int| 0 <= k < v.edges.len() && k != j implies (#[trigger] v.edges[k]).2 != v.edges[j].2 by {
        assert(v.edges[k] == v.edges[0 + k]);
        if k < j {
            assert(users[k].4 != users[j].4);
        } else {
            assert(users[j].4 != users[k].4);
        }
    }
    lemma_unique_chat_partner(v, u.0, j);
    lemma_unique_chat_partner(v, u.2, j);
}

proof fn lemma_contains_suffix(a: Seq<char>, p: Seq<char>)
    ensures
        contains_text(a + p, p),
{
    assert((a + p).subrange(a.len() as int, (a.len() + p.len()) as int) =~= p);
}

proof fn lemma_contains_extend(a: Seq<char>, b: Seq<char>, p: Seq<char>)
    requires
        contains_text(a, p),
    ensures
        contains_text(a + b, p),
{
    let i = choose|i: int| 0 <= i && i + p.len() <= a.len() && #[trigger] a.subrange(i, i + p.len()) == p;
    assert((a + b).subrange(i, i + p.len()) =~= a.subrange(i, i + p.len()));
}

/// The piece of the friends list for one chat: `;chat_id;partner name`.
pub open spec fn friend_piece(v: ContainerView, node: usize, entry: (usize, i32)) -> Seq<char> {
    seq![';'] + int_text(entry.1 as int) + seq![';'] + v.clients[other_end(v, node, entry.0) as int].1
}

/// Every chat at a user is in the user's friends list: the list holds
/// `;chat_id;name` for each chat the graph walks at the user's node, with
/// the partner's name.
pub proof fn lemma_friends_lists_every_chat(v: ContainerView, node: usize, es: Seq<(usize, i32)>)
    ensures
        forall|k: int| 0 <= k < es.len() ==> contains_text(friends_text(v, node, es), #[trigger] friend_piece(v, node, es[k])),
    decreases es.len(),
{
    if es.len() > 0 {
        let init = es.drop_last();
        lemma_friends_lists_every_chat(v, node, init);
        let f = friends_text(v, node, init);
        let piece = friend_piece(v, node, es.last());
        assert(friends_text(v, node, es) =~= f + piece);
        lemma_contains_suffix(f, piece);
        assert forall|k: int| 0 <= k < es.len() implies contains_text(friends_text(v, node, es), #[trigger] friend_piece(v, node, es[k])) by {
            if k < init.len() {
                assert(es[k] == init[k]);
                lemma_contains_extend(f, piece, friend_piece(v, node, init[k]));
            }
        }
    }
}

proof fn lemma_friends_text_names_only(v: ContainerView, w: ContainerView, node: usize, es: Seq<(usize, i32)>)
    requires
        w.edges == v.edges,
        w.clients.len() == v.clients.len(),
        forall|x: int| 0 <= x < v.clients.len() ==> (#[trigger] w.clients[x]).1 == v.clients[x].1,
        forall|k: int| 0 <= k < es.len() ==> (#[trigger] es[k]).0 < v.edges.len(),
        forall|k: int| 0 <= k < v.edges.len() ==> (#[trigger] v.edges[k]).0 < v.clients.len() && v.edges[k].1 < v.clients.len(),
    ensures
        friends_text(w, node, es) == friends_text(v, node, es),
    decreases es.len(),
{
    if es.len() > 0 {
        let init = es.drop_last();
        assert forall|k: int| 0 <= k < init.len() implies (#[trigger] init[k]).0 < v.edges.len() by {
            assert(init[k] == es[k]);
        }
        lemma_friends_text_names_only(v, w, node, init);
        let e = es.last().0;
        assert(v.edges[e as int].0 < v.clients.len());
        let x = other_end(v, node, e);
        assert(other_end(w, node, e) == x);
        assert(w.clients[x as int].1 == v.clients[x as int].1);
    }
}

/// Logging a user in or out changes no friends list: the list of every
/// user holds the same chats with the same names whoever is online.
pub proof fn lemma_friends_ignore_logins(v: ContainerView, n: int, flag: bool, id: i32)
    requires
        wf(v),
        0 <= n < v.clients.len(),
        v.nodes.contains_key(id),
    ensures
        ({
            let w = ContainerView { clients: v.clients.update(n, (v.clients[n].0, v.clients[n].1, flag)), ..v };
            &&& wf(w)
            &&& friends_text(w, w.nodes[id], chats_of(w, id)) == friends_text(v, v.nodes[id], chats_of(v, id))
        }),
{
    let w = ContainerView { clients: v.clients.update(n, (v.clients[n].0, v.clients[n].1, flag)), ..v };
    assert forall|x: int| 0 <= x < v.clients.len() implies (#[trigger] w.clients[x]).1 == v.clients[x].1 by {}
    assert forall|i: i32| #[trigger] w.nodes.contains_key(i) implies w.nodes[i] < w.clients.len() && w.clients[w.nodes[i] as int].0 == i by {
        assert(v.clients[v.nodes[i] as int].0 == i);
    }
    lemma_incident_entries(v.edges, v.nodes[id]);
    lemma_friends_text_names_only(v, w, v.nodes[id], chats_of(v, id));
}

/// The `ALL` listing shows every user other than the asker: for each user
/// whose id is not `me`, the listing holds that user's `id;name`.
pub proof fn lemma_others_lists_everyone_else(cs: Seq<(i32, Seq<char>, bool)>, me: i32)
    ensures
        forall|p: int| 0 <= p < cs.len() && cs[p].0 != me ==> contains_text(
            others_text(cs, me),
            int_text((#[trigger] cs[p]).0 as int) + seq![';'] + cs[p].1,
        ),
    decreases cs.len(),
{
    if cs.len() > 0 {
        let init = cs.drop_last();
        let c = cs.last();
        lemma_others_lists_everyone_else(init, me);
        let rest = others_text(init, me);
        let piece = int_text(c.0 as int) + seq![';'] + c.1;
        assert forall|p: int| 0 <= p < cs.len() && cs[p].0 != me implies contains_text(
            others_text(cs, me),
            int_text((#[trigger] cs[p]).0 as int) + seq![';'] + cs[p].1,
        ) by {
            if p < init.len() {
                assert(cs[p] == init[p]);
                let q = int_text(cs[p].0 as int) + seq![';'] + cs[p].1;
                assert(contains_text(rest, q));
                if c.0 != me {
                    if rest.len() == 0 {
                        crate::text::lemma_int_text_chars(cs[p].0 as int);
                        let i = choose|i: int| 0 <= i && i + q.len() <= rest.len() && #[trigger] rest.subrange(i, i + q.len()) == q;
                        assert(false);
                    } else {
                        assert(others_text(cs, me) =~= rest + (seq![';'] + piece));
                        lemma_contains_extend(rest, seq![';'] + piece, q);
                    }
                }
            } else {
                if rest.len() == 0 {
                    assert(others_text(cs, me) == piece);
                    lemma_contains_suffix(Seq::<char>::empty(), piece);
                    assert(Seq::<char>::empty() + piece =~= piece);
                } else {
                    assert(others_text(cs, me) =~= (rest + seq![';']) + piece);
                    lemma_contains_suffix(rest + seq![';'], piece);
                }
            }
        }
    }
}

/// The `ALL` listing does not depend on who is logged in: two user lists
/// with the same ids and names give the same listing.
pub proof fn lemma_others_ignore_logins(cs: Seq<(i32, Seq<char>, bool)>, ds: Seq<(i32, Seq<char>, bool)>, me: i32)
    requires
        cs.len() == ds.len(),
        forall|p: int| 0 <= p < cs.len() ==> (#[trigger] cs[p]).0 == ds[p].0 && cs[p].1 == ds[p].1,
    ensures
        others_text(cs, me) == others_text(ds, me),
    decreases cs.len(),
{
    if cs.len() > 0 {
        assert forall|p: int| 0 <= p < cs.drop_last().len() implies (#[trigger] cs.drop_last()[p]).0 == ds.drop_last()[p].0
            && cs.drop_last()[p].1 == ds.drop_last()[p].1 by {
            assert(cs.drop_last()[p] == cs[p] && ds.drop_last()[p] == ds[p]);
        }
        lemma_others_ignore_logins(cs.drop_last(), ds.drop_last(), me);
        assert(cs.last() == cs[cs.len() - 1]);
    }
}

/// The asker's own entry adds nothing to the `ALL` listing: appending a
/// user with id `me` leaves the listing for `me` as it was.
pub proof fn lemma_others_skip_the_asker(cs: Seq<(i32, Seq<char>, bool)>, c: (i32, Seq<char>, bool), me: i32)
    requires
        c.0 == me,
    ensures
        others_text(cs.push(c), me) == others_text(cs, me),
{
    assert(cs.push(c).drop_last() =~= cs);
}

/// The view of the users loaded without chats.
pub open spec fn lonely_view(v: Seq<(i32, String)>) -> Seq<(i32, Seq<char>)> {
    v.map_values(|p: (i32, String)| (p.0, p.1@))
}

/// The view of the loaded chats.
pub open spec fn chats_view(v: Seq<(i32, String, i32, String, i32)>) -> Seq<(i32, Seq<char>, i32, Seq<char>, i32)> {
    v.map_values(|p: (i32, String, i32, String, i32)| (p.0, p.1@, p.2, p.3@, p.4))
}

/// The users and their chats.
pub struct Container {
    nodes: HashMap<i32, usize>,
    network: Network,
}

impl View for Container {
    type V = ContainerView;

    closed spec fn view(&self) -> ContainerView {
        ContainerView {
            nodes: self.nodes@,
            clients: network_nodes(self.network),
            edges: network_edges(self.network),
        }
    }
}

impl Container {
    /// Builds the container from what the database holds: first the users
    /// without chats, then each chat `(id_1, name_1, id_2, name_2,
    /// chat_id)`, adding its users when they are not known yet. The sizes
    /// must stay below petgraph's `u32` limit.
    pub fn new(users: Vec<(i32, String, i32, String, i32)>, lonely: Vec<(i32, String)>) -> (res: Container)
        requires
            lonely@.len() + 2 * users@.len() + 1 < 0xffff_ffff,
        ensures
            wf(res@),
            res@ == load_chats(load_lonely(empty_view(), lonely_view(lonely@)), chats_view(users@)),
    {
        let mut c = Container { nodes: HashMap::new(), network: network_new() };
        assert(c@.nodes =~= empty_view().nodes);
        let ghost lv = lonely_view(lonely@);
        let ghost uv = chats_view(users@);
        let n = lonely.len();
        let mut i: usize = 0;
        while i < n
            invariant
                n == lonely@.len(),
                lv == lonely_view(lonely@),
                lonely@.len() + 2 * users@.len() + 1 < 0xffff_ffff,
                i <= n,
                wf(c@),
                c@.clients.len() <= i,
                c@.edges.len() == 0,
                c@ == load_lonely(empty_view(), lv.take(i as int)),
            decreases n - i,
        {
            let id = lonely[i].0;
            let name = lonely[i].1.clone();
            assert(lv.take(i + 1).drop_last() =~= lv.take(i as int));
            c.add_if_absent(id, name);
            i = i + 1;
        }
        assert(lv.take(n as int) =~= lv);
        let ghost base = c@;
        let m = users.len();
        let mut j: usize = 0;
        while j < m
            invariant
                m == users@.len(),
                uv == chats_view(users@),
                lonely@.len() + 2 * users@.len() + 1 < 0xffff_ffff,
                j <= m,
                wf(c@),
                c@.clients.len() <= lonely@.len() + 2 * j,
                c@.edges.len() == j,
                c@ == load_chats(base, uv.take(j as int)),
            decreases m - j,
        {
            let id_1 = users[j].0;
            let name_1 = users[j].1.clone();
            let id_2 = users[j].2;
            let name_2 = users[j].3.clone();
            let chat_id = users[j].4;
            assert(uv.take(j + 1).drop_last() =~= uv.take(j as int));
            c.add_if_absent(id_1, name_1);
            c.add_if_absent(id_2, name_2);
            c.add_friends(id_1, id_2, chat_id);
            j = j + 1;
        }
        assert(uv.take(m as int) =~= uv);
        c
    }

    fn add_if_absent(&mut self, id: i32, name: String)
        requires
            wf(old(self)@),
            old(self)@.clients.len() + 1 < 0xffff_ffff,
        ensures
            wf(final(self)@),
            final(self)@ == add_if_absent(old(self)@, id, name@),
            final(self)@.clients.len() <= old(self)@.clients.len() + 1,
            final(self)@.edges == old(self)@.edges,
            final(self)@.nodes.contains_key(id),
    {
        if !self.nodes.contains_key(&id) {
            self.new_user(id, name);
        }
    }

    /// Adds a node for a newly registered user, even when the id is known
    /// already: the id then names the new node.
    pub fn new_user(&mut self, id: i32, name: String)
        requires
            wf(old(self)@),
            old(self)@.clients.len() + 1 < 0xffff_ffff,
        ensures
            wf(final(self)@),
            final(self)@ == add_user_spec(old(self)@, id, name@),
    {
        let n = network_add_node(&mut self.network, Client::new(id, name));
        self.nodes.insert(id, n);
        assert(self@.nodes =~= add_user_spec(old(self)@, id, name@).nodes);
    }

    /// Opens chat `chat_id` between two known users.
    pub fn add_friends(&mut self, id: i32, other: i32, chat_id: i32)
        requires
            wf(old(self)@),
            old(self)@.nodes.contains_key(id),
            old(self)@.nodes.contains_key(other),
            old(self)@.edges.len() + 1 < 0xffff_ffff,
        ensures
            wf(final(self)@),
            final(self)@ == add_friends_spec(old(self)@, id, other, chat_id),
    {
        let n1 = *self.nodes.get(&id).unwrap();
        let n2 = *self.nodes.get(&other).unwrap();
        network_add_edge(&mut self.network, n1, n2, chat_id);
    }

    /// Whether another user fits below petgraph's `u32` node limit.
    pub fn has_room_for_user(&self) -> (res: bool)
        requires
            wf(self@),
        ensures
            res == (self@.clients.len() + 1 < 0xffff_ffff),
    {
        network_node_count(&self.network) < 0xffff_fffe
    }

    /// Whether another chat fits below petgraph's `u32` edge limit.
    pub fn has_room_for_chat(&self) -> (res: bool)
        requires
            wf(self@),
        ensures
            res == (self@.edges.len() + 1 < 0xffff_ffff),
    {
        crate::server::graph::network_edge_count(&self.network) < 0xffff_fffe
    }

    /// Whether `id` is a known user.
    pub fn is_user(&self, id: i32) -> (res: bool)
        ensures
            res == self@.nodes.contains_key(id),
    {
        self.nodes.contains_key(&id)
    }

    fn node_of(&self, id: i32) -> (res: usize)
        requires
            wf(self@),
            self@.nodes.contains_key(id),
        ensures
            res == self@.nodes[id],
            res < self@.clients.len(),
            self@.clients[res as int].0 == id,
    {
        *self.nodes.get(&id).unwrap()
    }

    /// Whether a connection is logged in as the known user `id`.
    pub fn is_logged_in(&self, id: i32) -> (res: bool)
        requires
            wf(self@),
            self@.nodes.contains_key(id),
        ensures
            res == self@.clients[self@.nodes[id] as int].2,
    {
        let n = self.node_of(id);
        network_node(&self.network, n).is_logged_in()
    }

    /// The name of the known user `id`.
    pub fn get_name(&self, id: i32) -> (res: String)
        requires
            wf(self@),
            self@.nodes.contains_key(id),
        ensures
            res@ == self@.clients[self@.nodes[id] as int].1,
    {
        let n = self.node_of(id);
        network_node(&self.network, n).get_name().clone()
    }

    /// Logs a connection in as the known user `id`, with the frame
    /// `LGN;id;chats;messages\n` that greets it. Refused (`None`, nothing
    /// changes) when a connection is logged in as that user already.
    pub fn login(&mut self, id: i32, chats: &str, messages: &str) -> (res: Option<String>)
        requires
            wf(old(self)@),
            old(self)@.nodes.contains_key(id),
        ensures
            wf(final(self)@),
            ({
                let n = old(self)@.nodes[id];
                let c = old(self)@.clients[n as int];
                if c.2 {
                    res is None && final(self)@ == old(self)@
                } else {
                    &&& res matches Some(frame) && frame@ == seq!['L', 'G', 'N', ';'] + int_text(id as int)
                        + seq![';'] + chats@ + seq![';'] + messages@ + seq!['\n']
                    &&& final(self)@ == (ContainerView {
                        clients: old(self)@.clients.update(n as int, (c.0, c.1, true)),
                        ..old(self)@
                    })
                }
            }),
    {
        let n = self.node_of(id);
        let client = network_node_mut(&mut self.network, n);
        if !client.login() {
            assert(self@.clients =~= old(self)@.clients);
            return None;
        }
        assert(self@.clients =~= old(self)@.clients.update(n as int, (id, old(self)@.clients[n as int].1, true)));
        let mut frame = String::new();
        proof {
            reveal_strlit("LGN;");
            reveal_strlit(";");
            reveal_strlit("\n");
        }
        frame.append("LGN;");
        push_i32(&mut frame, id);
        frame.append(";");
        frame.append(chats);
        frame.append(";");
        frame.append(messages);
        frame.append("\n");
        Some(frame)
    }

    /// All users, in node order, as `;id;name` pieces; a lone `;` when
    /// there is none.
    pub fn get_all(&self) -> (res: String)
        requires
            wf(self@),
        ensures
            res@ == list_or_empty(users_text(self@.clients)),
    {
        proof {
            reveal_strlit(";");
        }
        let mut list = String::new();
        let n = network_node_count(&self.network);
        let mut i: usize = 0;
        while i < n
            invariant
                wf(self@),
                n == self@.clients.len(),
                i <= n,
                list@ == users_text(self@.clients.take(i as int)),
            decreases n - i,
        {
            proof {
                reveal_strlit(";");
            }
            let ghost before = list@;
            let c = network_node(&self.network, i);
            list.append(";");
            push_i32(&mut list, c.get_id());
            list.append(";");
            list.append(c.get_name().as_str());
            assert(self@.clients.take(i + 1).drop_last() =~= self@.clients.take(i as int));
            assert(self@.clients.take(i + 1).last() == self@.clients[i as int]);
            assert(list@ =~= before + seq![';'] + int_text(c@.0 as int) + seq![';'] + c@.1);
            i = i + 1;
        }
        assert(self@.clients.take(n as int) =~= self@.clients);
        if list.unicode_len() == 0 {
            list.append(";");
        }
        list
    }

    /// The frame `ALL;id;name...\n` for user `to`.
    pub fn send_all(&self, to: i32) -> (res: Outgoing)
        requires
            wf(self@),
        ensures
            res.to == to,
            res.frame@ == seq!['A', 'L', 'L'] + list_or_empty(users_text(self@.clients)) + seq!['\n'],
    {
        proof {
            reveal_strlit("ALL");
            reveal_strlit("\n");
        }
        let mut frame = String::new();
        frame.append("ALL");
        let list = self.get_all();
        frame.append(list.as_str());
        frame.append("\n");
        Outgoing { to, frame }
    }

    /// The users other than `me`, in node order, as `id;name` pieces
    /// joined by `;`; empty when there is no other user.
    pub fn get_others(&self, me: i32) -> (res: String)
        requires
            wf(self@),
        ensures
            res@ == others_text(self@.clients, me),
    {
        let mut list = String::new();
        let n = network_node_count(&self.network);
        let mut i: usize = 0;
        while i < n
            invariant
                wf(self@),
                n == self@.clients.len(),
                i <= n,
                list@ == others_text(self@.clients.take(i as int), me),
            decreases n - i,
        {
            proof {
                reveal_strlit(";");
            }
            let ghost before = list@;
            let c = network_node(&self.network, i);
            assert(self@.clients.take(i + 1).drop_last() =~= self@.clients.take(i as int));
            assert(self@.clients.take(i + 1).last() == self@.clients[i as int]);
            if c.get_id() != me {
                if list.unicode_len() != 0 {
                    list.append(";");
                }
                push_i32(&mut list, c.get_id());
                list.append(";");
                list.append(c.get_name().as_str());
                assert(before.len() == 0 ==> list@ =~= int_text(c@.0 as int) + seq![';'] + c@.1);
                assert(before.len() != 0 ==> list@ =~= before + seq![';'] + int_text(c@.0 as int) + seq![';']
                    + c@.1);
            }
            i = i + 1;
        }
        assert(self@.clients.take(n as int) =~= self@.clients);
        list
    }

    /// The chats of the known user `id`, as `;chat_id;partner name`
    /// pieces in the order the graph walks them; a lone `;` when there is
    /// none.
    pub fn get_friends(&self, id: i32) -> (res: String)
        requires
            wf(self@),
            self@.nodes.contains_key(id),
        ensures
            res@ == list_or_empty(friends_text(self@, self@.nodes[id], chats_of(self@, id))),
    {
        proof {
            reveal_strlit(";");
        }
        let node = self.node_of(id);
        let es = network_edges_at(&self.network, node);
        proof {
            lemma_incident_valid(self@, node);
        }
        let mut list = String::new();
        let n = es.len();
        let mut i: usize = 0;
        while i < n
            invariant
                wf(self@),
                node == self@.nodes[id],
                node < self@.clients.len(),
                es@ == chats_of(self@, id),
                forall|k: int| 0 <= k < es@.len() ==> (#[trigger] es@[k]).0 < self@.edges.len(),
                n == es@.len(),
                i <= n,
                list@ == friends_text(self@, node, es@.take(i as int)),
            decreases n - i,
        {
            let (e, weight) = es[i];
            let ends = network_edge_endpoints(&self.network, e);
            let (a, b) = ends.unwrap();
            let u = if a == node {
                b
            } else {
                a
            };
            proof {
                reveal_strlit(";");
            }
            let ghost before = list@;
            let name = network_node(&self.network, u).get_name();
            list.append(";");
            push_i32(&mut list, weight);
            list.append(";");
            list.append(name.as_str());
            assert(es@.take(i + 1).drop_last() =~= es@.take(i as int));
            assert(es@.take(i + 1).last() == es@[i as int]);
            assert(u == other_end(self@, node, e));
            assert(list@ =~= before + seq![';'] + int_text(weight as int) + seq![';'] + self@.clients[u as int].1);
            i = i + 1;
        }
        assert(es@.take(n as int) =~= es@);
        if list.unicode_len() == 0 {
            list.append(";");
        }
        list
    }

    /// The frame `FRD;chat_id;name...\n` listing the chats of the known
    /// user `id`, for that user.
    pub fn send_friends(&self, id: i32) -> (res: Outgoing)
        requires
            wf(self@),
            self@.nodes.contains_key(id),
        ensures
            res.to == id,
            res.frame@ == seq!['F', 'R', 'D'] + list_or_empty(
                friends_text(self@, self@.nodes[id], chats_of(self@, id)),
            ) + seq!['\n'],
    {
        proof {
            reveal_strlit("FRD");
            reveal_strlit("\n");
        }
        let mut frame = String::new();
        frame.append("FRD");
        let list = self.get_friends(id);
        frame.append(list.as_str());
        frame.append("\n");
        Outgoing { to: id, frame }
    }

    /// The partner of the known user `first_id` in chat `chat_id`: the
    /// other end of the first such chat the graph walks; `0` when the user
    /// has no such chat.
    pub fn get_other(&self, chat_id: i32, first_id: i32) -> (res: i32)
        requires
            wf(self@),
            self@.nodes.contains_key(first_id),
        ensures
            res == other_of(self@, self@.nodes[first_id], chats_of(self@, first_id), chat_id),
    {
        let node = self.node_of(first_id);
        let es = network_edges_at(&self.network, node);
        proof {
            lemma_incident_valid(self@, node);
        }
        let n = es.len();
        let mut i: usize = 0;
        assert(es@.skip(0) =~= es@);
        while i < n
            invariant
                wf(self@),
                node == self@.nodes[first_id],
                node < self@.clients.len(),
                es@ == chats_of(self@, first_id),
                forall|k: int| 0 <= k < es@.len() ==> (#[trigger] es@[k]).0 < self@.edges.len(),
                n == es@.len(),
                i <= n,
                other_of(self@, node, es@, chat_id) == other_of(self@, node, es@.skip(i as int), chat_id),
            decreases n - i,
        {
            let (e, weight) = es[i];
            assert(es@.skip(i as int)[0] == es@[i as int]);
            assert(es@.skip(i as int).drop_first() =~= es@.skip(i + 1));
            if weight != chat_id {
                i = i + 1;
                continue;
            }
            let ends = network_edge_endpoints(&self.network, e);
            let (a, b) = ends.unwrap();
            let u = if a == node {
                b
            } else {
                a
            };
            return network_node(&self.network, u).get_id();
        }
        0
    }

    /// Forgets every user and chat.
    pub fn clear(&mut self)
        ensures
            final(self)@ == empty_view(),
            wf(final(self)@),
    {
        self.nodes = HashMap::new();
        self.network = network_new();
        assert(self@.nodes =~= empty_view().nodes);
    }

    /// The connection of the known user `id` went away.
    pub fn remove(&mut self, id: i32)
        requires
            wf(old(self)@),
            old(self)@.nodes.contains_key(id),
        ensures
            wf(final(self)@),
            ({
                let n = old(self)@.nodes[id];
                let c = old(self)@.clients[n as int];
                final(self)@ == (ContainerView {
                    clients: old(self)@.clients.update(n as int, (c.0, c.1, false)),
                    ..old(self)@
                })
            }),
    {
        let n = self.node_of(id);
        let client = network_node_mut(&mut self.network, n);
        client.loguot();
        assert(self@.clients =~= old(self)@.clients.update(n as int, (id, old(self)@.clients[n as int].1, false)));
    }
}

} // verus!
