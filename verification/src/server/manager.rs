//! The manager's decisions: for each request, after the database has done
//! its part, what changes in the container and which frames go to which
//! user. The caller performs the database work and writes the frames.

use vstd::prelude::*;
use crate::server::commands::{Command, GetTypes};
use crate::server::container::{
    at_node, chat_id_unused, lemma_chat_partners, lemma_unique_chat_partner, other_end,
    add_friends_spec, chats_of, empty_view, ContainerView, friends_text, list_or_empty, other_of, others_text, wf, Container, Outgoing,
};
use crate::server::message::Message;
use crate::text::{int_text, push_i32, split_once, split_once_spec, trim, trim_spec};
use vstd::string::*;

verus! {

/// The user that user `id` chats with in chat `chat_id`, as
/// `Container::get_other` finds it.
pub open spec fn partner(clients: &Container, chat_id: i32, id: i32) -> i32 {
    other_of(clients@, clients@.nodes[id], chats_of(clients@, id), chat_id)
}

/// The name and password of a login or registration: the trimmed text
/// split at its first `;`. `None` when it holds no `;`.
pub fn credentials(name_pass: &str) -> (res: Option<(&str, &str)>)
    ensures
        match split_once_spec(trim_spec(name_pass@), ';') {
            None => res is None,
            Some((n, p)) => res matches Some((a, b)) && a@ == n && b@ == p,
        },
{
    split_once(trim(name_pass), ';')
}

/// The answer to a login with a wrong name or password.
pub fn password_error() -> (res: String)
    ensures
        res@ == "ERR;PWD\n"@,
{
    let mut s = String::new();
    s.append("ERR;PWD\n");
    s
}

/// How a login ends.
pub enum LoginOutcome {
    /// The user `id` is logged in; `frame` greets the connection.
    LoggedIn { id: i32, frame: String },
    /// A connection is logged in as that user already; the new one is
    /// refused without an answer.
    AlreadyIn,
    /// The name or password is wrong; `frame` tells the connection.
    WrongPassword { frame: String },
}

/// Decides a login from the database's answer `user` (the user's id, or
/// why the name and password were refused) and, for a known user, the
/// JSON of the user's chats and stored messages. A refused name or
/// password is answered `ERR;PWD`; a user logged in already is refused;
/// otherwise the container logs the user in and the connection is greeted
/// with `LGN;id;chats;messages`. `None` (nothing changes) for an id the
/// container does not know.
pub fn on_login(clients: &mut Container, user: Result<i32, String>, chats: &str, messages: &str) -> (res:
    Option<LoginOutcome>)
    requires
        wf(old(clients)@),
    ensures
        wf(final(clients)@),
        match user {
            Err(_) => {
                &&& final(clients)@ == old(clients)@
                &&& res matches Some(LoginOutcome::WrongPassword { frame }) && frame@ == "ERR;PWD\n"@
            },
            Ok(id) => if !old(clients)@.nodes.contains_key(id) {
                res is None && final(clients)@ == old(clients)@
            } else {
                let n = old(clients)@.nodes[id];
                let c = old(clients)@.clients[n as int];
                if c.2 {
                    &&& res matches Some(LoginOutcome::AlreadyIn)
                    &&& final(clients)@ == old(clients)@
                } else {
                    &&& res matches Some(LoginOutcome::LoggedIn { id: i, frame }) && i == id && frame@
                        == "LGN;"@ + int_text(id as int) + ";"@ + chats@ + ";"@ + messages@ + "\n"@
                    &&& final(clients)@ == (ContainerView {
                        clients: old(clients)@.clients.update(n as int, (c.0, c.1, true)),
                        ..old(clients)@
                    })
                }
            },
        },
{
    match user {
        Err(_) => Some(LoginOutcome::WrongPassword { frame: password_error() }),
        Ok(id) => {
            if !clients.is_user(id) {
                return None;
            }
            proof {
                reveal_strlit("LGN;");
                reveal_strlit(";");
                reveal_strlit("\n");
            }
            match clients.login(id, chats, messages) {
                Some(frame) => Some(LoginOutcome::LoggedIn { id, frame }),
                None => Some(LoginOutcome::AlreadyIn),
            }
        },
    }
}

/// A message was stored under `message_id`: its sender learns the id
/// (`MID;message_id`), and the partner in the chat receives it
/// (`MSG;chat_id;message_id;text`). `None` for a sender
/// the container does not know.
pub fn on_send(clients: &Container, message: &Message, message_id: i32) -> (res: Option<Vec<Outgoing>>)
    requires
        wf(clients@),
    ensures
        !clients@.nodes.contains_key(message.sender_id) ==> res is None,
        clients@.nodes.contains_key(message.sender_id) ==> (res matches Some(out) && out@.len() == 2
            && out@[0].to == message.sender_id
            && out@[0].frame@ == "MID;"@ + int_text(message_id as int) + "\n"@
            && out@[1].to == partner(clients, message.chat_id, message.sender_id)
            && out@[1].frame@ == "MSG;"@ + int_text(message.chat_id as int) + ";"@
                + int_text(message_id as int) + ";"@ + message.content@ + "\n"@),
{
    if !clients.is_user(message.sender_id) {
        return None;
    }
    let mut ack = String::new();
    ack.append("MID;");
    push_i32(&mut ack, message_id);
    ack.append("\n");
    let mut relay = String::new();
    relay.append("MSG;");
    push_i32(&mut relay, message.chat_id);
    relay.append(";");
    push_i32(&mut relay, message_id);
    relay.append(";");
    relay.append(message.content.as_str());
    relay.append("\n");
    let receiver = clients.get_other(message.chat_id, message.sender_id);
    let mut out: Vec<Outgoing> = Vec::new();
    out.push(Outgoing { to: message.sender_id, frame: ack });
    out.push(Outgoing { to: receiver, frame: relay });
    Some(out)
}

/// Chat `chat_id` was opened between `id` and `other`: the container
/// records it and each of them is told (`CNT;chat_id;partner`). `None`
/// (nothing changes) for a user the container does not know, or when
/// petgraph's edge limit is reached.
pub fn on_connect(clients: &mut Container, id: i32, other: i32, chat_id: i32) -> (res: Option<Vec<Outgoing>>)
    requires
        wf(old(clients)@),
    ensures
        wf(final(clients)@),
        ({
            let ok = old(clients)@.nodes.contains_key(id) && old(clients)@.nodes.contains_key(other)
                && old(clients)@.edges.len() + 1 < 0xffff_ffff;
            &&& !ok ==> res is None && final(clients)@ == old(clients)@
            &&& ok ==> {
                &&& final(clients)@ == add_friends_spec(old(clients)@, id, other, chat_id)
                &&& res matches Some(out) && out@.len() == 2 && out@[0].to == id && out@[0].frame@
                    == "CNT;"@ + int_text(chat_id as int) + ";"@ + int_text(other as int) + "\n"@
                    && out@[1].to == other && out@[1].frame@ == "CNT;"@ + int_text(chat_id as int) + ";"@
                    + int_text(id as int) + "\n"@
            }
        }),
{
    if !clients.is_user(id) || !clients.is_user(other) || !clients.has_room_for_chat() {
        return None;
    }
    clients.add_friends(id, other, chat_id);
    let mut to_id = String::new();
    to_id.append("CNT;");
    push_i32(&mut to_id, chat_id);
    to_id.append(";");
    push_i32(&mut to_id, other);
    to_id.append("\n");
    let mut to_other = String::new();
    to_other.append("CNT;");
    push_i32(&mut to_other, chat_id);
    to_other.append(";");
    push_i32(&mut to_other, id);
    to_other.append("\n");
    let mut out: Vec<Outgoing> = Vec::new();
    out.push(Outgoing { to: id, frame: to_id });
    out.push(Outgoing { to: other, frame: to_other });
    Some(out)
}

/// User `id` blocked `other`, who is told `BLK;id`.
pub fn on_block(id: i32, other: i32) -> (res: Outgoing)
    ensures
        res.to == other,
        res.frame@ == "BLK;"@ + int_text(id as int) + "\n"@,
{
    let mut frame = String::new();
    frame.append("BLK;");
    push_i32(&mut frame, id);
    frame.append("\n");
    Outgoing { to: other, frame }
}

/// User `id` unblocked `other`, who sees `id` again: `ALL;id;name`.
/// `None` for an `id` the container does not know.
pub fn on_unblock(clients: &Container, id: i32, other: i32) -> (res: Option<Outgoing>)
    requires
        wf(clients@),
    ensures
        !clients@.nodes.contains_key(id) ==> res is None,
        clients@.nodes.contains_key(id) ==> (res matches Some(o) && o.to == other && o.frame@ == "ALL;"@
            + int_text(id as int) + ";"@ + clients@.clients[clients@.nodes[id] as int].1 + "\n"@),
{
    if !clients.is_user(id) {
        return None;
    }
    let name = clients.get_name(id);
    let mut frame = String::new();
    frame.append("ALL;");
    push_i32(&mut frame, id);
    frame.append(";");
    frame.append(name.as_str());
    frame.append("\n");
    Some(Outgoing { to: other, frame })
}

/// The answer to `GET` from user `id`: the other users from the container
/// (`ALL;id;name;...`), the blocked users as the database gave them in
/// `listing` (`BKS;listing`), the user's chats from the container
/// (`FRD...`), or nothing for pending requests. `None` for a friends list
/// of a user the container does not know.
pub fn on_get(clients: &Container, t: GetTypes, id: i32, listing: &str) -> (res: Option<Vec<Outgoing>>)
    requires
        wf(clients@),
    ensures
        match t {
            GetTypes::ALL => res matches Some(out) && out@.len() == 1 && out@[0].to == id
                && out@[0].frame@ == "ALL;"@ + others_text(clients@.clients, id) + "\n"@,
            GetTypes::BLOCKED => res matches Some(out) && out@.len() == 1 && out@[0].to == id
                && out@[0].frame@ == "BKS;"@ + listing@ + "\n"@,
            GetTypes::FRIENDS => if clients@.nodes.contains_key(id) {
                res matches Some(out) && out@.len() == 1 && out@[0].to == id && out@[0].frame@ == seq![
                    'F',
                    'R',
                    'D',
                ] + list_or_empty(friends_text(clients@, clients@.nodes[id], chats_of(clients@, id)))
                    + seq!['\n']
            } else {
                res is None
            },
            GetTypes::PENDING => res matches Some(out) && out@.len() == 0,
        },
{
    let mut out: Vec<Outgoing> = Vec::new();
    match t {
        GetTypes::ALL => {
            let mut frame = String::new();
            frame.append("ALL;");
            let others = clients.get_others(id);
            frame.append(others.as_str());
            frame.append("\n");
            out.push(Outgoing { to: id, frame });
        },
        GetTypes::BLOCKED => {
            let mut frame = String::new();
            frame.append("BKS;");
            frame.append(listing);
            frame.append("\n");
            out.push(Outgoing { to: id, frame });
        },
        GetTypes::FRIENDS => {
            if !clients.is_user(id) {
                return None;
            }
            out.push(clients.send_friends(id));
        },
        GetTypes::PENDING => {},
    }
    Some(out)
}

/// User `id` read chat `chat_id`: the partner (whose messages the database
/// marks read) is told `STS;chat_id`. Gives the partner and the frame.
/// `None` for an `id` the container does not know.
pub fn on_status(clients: &Container, chat_id: i32, id: i32) -> (res: Option<Outgoing>)
    requires
        wf(clients@),
    ensures
        !clients@.nodes.contains_key(id) ==> res is None,
        clients@.nodes.contains_key(id) ==> (res matches Some(o) && o.to == partner(clients, chat_id, id)
            && o.frame@ == "STS;"@ + int_text(chat_id as int) + "\n"@),
{
    if !clients.is_user(id) {
        return None;
    }
    let receiver = clients.get_other(chat_id, id);
    let mut frame = String::new();
    frame.append("STS;");
    push_i32(&mut frame, chat_id);
    frame.append("\n");
    Some(Outgoing { to: receiver, frame })
}

/// User `id` deleted message `message_id` of chat `chat_id`: the partner
/// is told `DEL;chat_id;message_id`. `None` for an `id` the
/// container does not know.
pub fn on_delete(clients: &Container, chat_id: i32, id: i32, message_id: i32) -> (res: Option<Outgoing>)
    requires
        wf(clients@),
    ensures
        !clients@.nodes.contains_key(id) ==> res is None,
        clients@.nodes.contains_key(id) ==> (res matches Some(o) && o.to == partner(clients, chat_id, id)
            && o.frame@ == "DEL;"@ + int_text(chat_id as int) + ";"@ + int_text(message_id as int)
            + "\n"@),
{
    if !clients.is_user(id) {
        return None;
    }
    let receiver = clients.get_other(chat_id, id);
    let mut frame = String::new();
    frame.append("DEL;");
    push_i32(&mut frame, chat_id);
    frame.append(";");
    push_i32(&mut frame, message_id);
    frame.append("\n");
    Some(Outgoing { to: receiver, frame })
}

/// A message was edited: the partner is told
/// `UPD;chat_id;message_id;text`. `None` for a sender the
/// container does not know.
pub fn on_update(clients: &Container, message: &Message) -> (res: Option<Outgoing>)
    requires
        wf(clients@),
    ensures
        !clients@.nodes.contains_key(message.sender_id) ==> res is None,
        clients@.nodes.contains_key(message.sender_id) ==> (res matches Some(o)
            && o.to == partner(clients, message.chat_id, message.sender_id)
            && o.frame@ == "UPD;"@ + int_text(message.chat_id as int) + ";"@
                + int_text(message.message_id as int) + ";"@ + message.content@ + "\n"@),
{
    if !clients.is_user(message.sender_id) {
        return None;
    }
    let receiver = clients.get_other(message.chat_id, message.sender_id);
    let mut frame = String::new();
    frame.append("UPD;");
    push_i32(&mut frame, message.chat_id);
    frame.append(";");
    push_i32(&mut frame, message.message_id);
    frame.append(";");
    frame.append(message.content.as_str());
    frame.append("\n");
    Some(Outgoing { to: receiver, frame })
}

/// The frames of a list of outgoing messages, with their receivers.
pub open spec fn out_view(out: Seq<Outgoing>) -> Seq<(i32, Seq<char>)> {
    out.map_values(|o: Outgoing| (o.to, o.frame@))
}

/// The partner of user `id` in chat `chat_id`, in a container view.
pub open spec fn partner_in(v: ContainerView, chat_id: i32, id: i32) -> i32 {
    other_of(v, v.nodes[id], chats_of(v, id), chat_id)
}

/// The container with user `id` logged out.
pub open spec fn logged_out(v: ContainerView, id: i32) -> ContainerView {
    let n = v.nodes[id];
    let c = v.clients[n as int];
    ContainerView { clients: v.clients.update(n as int, (c.0, c.1, false)), ..v }
}

/// What the manager does with a request of a logged-in connection, once
/// the database has done its part: the new container and the frames to
/// write, each with its receiver. `chat_id` is the id the database gave a
/// new chat (read for `Connect` only); `testing` says whether the test
/// database is in use (read for `Testing_Clear` only). `None` for a user
/// the container does not know, when petgraph's edge limit is reached, and
/// for the requests of a connection that is not logged in.
pub open spec fn handle_spec(v: ContainerView, command: Command, chat_id: i32, testing: bool) -> Option<
    (ContainerView, Seq<(i32, Seq<char>)>),
> {
    match command {
        Command::Send { message } => if v.nodes.contains_key(message.sender_id) {
            Some(
                (
                    v,
                    seq![
                        (message.sender_id, "MID;"@ + int_text(message.message_id as int) + "\n"@),
                        (
                            partner_in(v, message.chat_id, message.sender_id),
                            "MSG;"@ + int_text(message.chat_id as int) + ";"@ + int_text(
                                message.message_id as int,
                            ) + ";"@ + message.content@ + "\n"@,
                        ),
                    ],
                ),
            )
        } else {
            None
        },
        Command::Connect { id, other } => if v.nodes.contains_key(id) && v.nodes.contains_key(other)
            && v.edges.len() + 1 < 0xffff_ffff {
            Some(
                (
                    add_friends_spec(v, id, other, chat_id),
                    seq![
                        (id, "CNT;"@ + int_text(chat_id as int) + ";"@ + int_text(other as int) + "\n"@),
                        (other, "CNT;"@ + int_text(chat_id as int) + ";"@ + int_text(id as int) + "\n"@),
                    ],
                ),
            )
        } else {
            None
        },
        Command::Block { id, other } => Some((v, seq![(other, "BLK;"@ + int_text(id as int) + "\n"@)])),
        Command::Unblock { id, other } => if v.nodes.contains_key(id) {
            Some(
                (
                    v,
                    seq![
                        (
                            other,
                            "ALL;"@ + int_text(id as int) + ";"@ + v.clients[v.nodes[id] as int].1 + "\n"@,
                        ),
                    ],
                ),
            )
        } else {
            None
        },
        Command::GET { t, id } => match t {
            GetTypes::ALL => Some((v, seq![(id, "ALL;"@ + others_text(v.clients, id) + "\n"@)])),
            GetTypes::BLOCKED => Some((v, seq![(id, "BKS;\n"@)])),
            GetTypes::FRIENDS => if v.nodes.contains_key(id) {
                Some(
                    (
                        v,
                        seq![
                            (
                                id,
                                seq!['F', 'R', 'D'] + list_or_empty(friends_text(v, v.nodes[id], chats_of(v, id)))
                                    + seq!['\n'],
                            ),
                        ],
                    ),
                )
            } else {
                None
            },
            GetTypes::PENDING => Some((v, Seq::empty())),
        },
        Command::Status { chat_id: c, id } => if v.nodes.contains_key(id) {
            Some((v, seq![(partner_in(v, c, id), "STS;"@ + int_text(c as int) + "\n"@)]))
        } else {
            None
        },
        Command::Delete { chat_id: c, id, message_id } => if v.nodes.contains_key(id) {
            Some(
                (
                    v,
                    seq![
                        (
                            partner_in(v, c, id),
                            "DEL;"@ + int_text(c as int) + ";"@ + int_text(message_id as int) + "\n"@,
                        ),
                    ],
                ),
            )
        } else {
            None
        },
        Command::Update { message } => if v.nodes.contains_key(message.sender_id) {
            Some(
                (
                    v,
                    seq![
                        (
                            partner_in(v, message.chat_id, message.sender_id),
                            "UPD;"@ + int_text(message.chat_id as int) + ";"@ + int_text(
                                message.message_id as int,
                            ) + ";"@ + message.content@ + "\n"@,
                        ),
                    ],
                ),
            )
        } else {
            None
        },
        Command::Remove { id } => if v.nodes.contains_key(id) {
            Some((logged_out(v, id), Seq::empty()))
        } else {
            None
        },
        Command::Testing_Clear => if testing {
            Some((empty_view(), Seq::empty()))
        } else {
            Some((v, Seq::empty()))
        },
        Command::Add { .. } => None,
        Command::Register { .. } => None,
    }
}

/// The frames of `handle_spec`, empty where it gives `None`.
pub open spec fn expected_out(v: ContainerView, command: Command, chat_id: i32, testing: bool) -> Seq<
    (i32, Seq<char>),
> {
    match handle_spec(v, command, chat_id, testing) {
        Some((_, outs)) => outs,
        None => Seq::empty(),
    }
}

/// Runs the manager's part of a request of a logged-in connection (see
/// `handle_spec`); nothing changes where the answer is `None`.
pub fn handle_command(clients: &mut Container, command: Command, chat_id: i32, testing: bool) -> (res:
    Option<Vec<Outgoing>>)
    requires
        wf(old(clients)@),
    ensures
        wf(final(clients)@),
        match handle_spec(old(clients)@, command, chat_id, testing) {
            None => res is None && final(clients)@ == old(clients)@,
            Some((w, outs)) => res matches Some(out) && out_view(out@) == outs && final(clients)@ == w,
        },
{
    proof {
        reveal_strlit("BKS;\n");
        reveal_strlit("BKS;");
        reveal_strlit("");
        reveal_strlit("\n");
    }
    let ghost v = clients@;
    match command {
        Command::Send { message } => {
            let r = on_send(clients, &message, message.message_id);
            proof {
                assert(r matches Some(out) ==> out_view(out@) =~= expected_out(v, Command::Send { message }, chat_id, testing));
            }
            r
        },
        Command::Connect { id, other } => {
            let r = on_connect(clients, id, other, chat_id);
            proof {
                assert(r matches Some(out) ==> out_view(out@) =~= expected_out(v, Command::Connect { id, other }, chat_id, testing));
            }
            r
        },
        Command::Block { id, other } => {
            let o = on_block(id, other);
            let mut out: Vec<Outgoing> = Vec::new();
            out.push(o);
            assert(out_view(out@) =~= expected_out(v, Command::Block { id, other }, chat_id, testing));
            Some(out)
        },
        Command::Unblock { id, other } => match on_unblock(clients, id, other) {
            Some(o) => {
                let mut out: Vec<Outgoing> = Vec::new();
                out.push(o);
                assert(out_view(out@) =~= expected_out(v, Command::Unblock { id, other }, chat_id, testing));
                Some(out)
            },
            None => None,
        },
        Command::GET { t, id } => {
            let ghost tt = t;
            let r = on_get(clients, t, id, "");
            proof {
                if r is Some {
                    if tt is BLOCKED {
                        assert(r->0@[0].frame@ =~= "BKS;\n"@);
                    }
                    assert(out_view(r->0@) =~= expected_out(v, Command::GET { t: tt, id }, chat_id, testing));
                }
            }
            r
        },
        Command::Status { chat_id: c, id } => match on_status(clients, c, id) {
            Some(o) => {
                let mut out: Vec<Outgoing> = Vec::new();
                out.push(o);
                assert(out_view(out@) =~= expected_out(v, Command::Status { chat_id: c, id }, chat_id, testing));
                Some(out)
            },
            None => None,
        },
        Command::Delete { chat_id: c, id, message_id } => match on_delete(clients, c, id, message_id) {
            Some(o) => {
                let mut out: Vec<Outgoing> = Vec::new();
                out.push(o);
                assert(out_view(out@) =~= expected_out(
                    v,
                    Command::Delete { chat_id: c, id, message_id },
                    chat_id,
                    testing,
                ));
                Some(out)
            },
            None => None,
        },
        Command::Update { message } => match on_update(clients, &message) {
            Some(o) => {
                let mut out: Vec<Outgoing> = Vec::new();
                out.push(o);
                assert(out_view(out@) =~= expected_out(v, Command::Update { message }, chat_id, testing));
                Some(out)
            },
            None => None,
        },
        Command::Remove { id } => {
            if !clients.is_user(id) {
                return None;
            }
            clients.remove(id);
            let out: Vec<Outgoing> = Vec::new();
            assert(out_view(out@) =~= Seq::<(i32, Seq<char>)>::empty());
            Some(out)
        },
        Command::Testing_Clear => {
            if testing {
                clients.clear();
            }
            let out: Vec<Outgoing> = Vec::new();
            assert(out_view(out@) =~= Seq::<(i32, Seq<char>)>::empty());
            Some(out)
        },
        Command::Add { .. } => None,
        Command::Register { .. } => None,
    }
}

/// An unblocked user sees the unblocker exactly as the `ALL` listing shows
/// a user: its id and its own name, as the container holds them.
pub proof fn lemma_unblock_shows_the_unblocker(v: ContainerView, id: i32, other: i32, chat_id: i32, testing: bool)
    requires
        wf(v),
        v.nodes.contains_key(id),
        id != other,
    ensures
        handle_spec(v, Command::Unblock { id, other }, chat_id, testing) == Some(
            (v, seq![(other, "ALL;"@ + others_text(seq![v.clients[v.nodes[id] as int]], other) + "\n"@)]),
        ),
{
    let c = v.clients[v.nodes[id] as int];
    let one = seq![c];
    assert(one.drop_last() =~= Seq::<(i32, Seq<char>, bool)>::empty());
    assert(c.0 == id);
    assert(others_text(one.drop_last(), other).len() == 0);
    assert(one.last() == c);
    assert(others_text(one, other) == int_text(id as int) + seq![';'] + c.1);
    reveal_strlit(";");
    assert("ALL;"@ + int_text(id as int) + ";"@ + c.1 + "\n"@ =~= "ALL;"@ + others_text(one, other) + "\n"@);
}

/// Only opening a chat, a logout and clearing the test database change
/// the container; every other request of a logged-in user leaves it as
/// it was.
pub proof fn lemma_requests_keep_the_container(v: ContainerView, command: Command, chat_id: i32, testing: bool)
    requires
        !(command is Connect),
        !(command is Remove),
        !(command is Testing_Clear),
    ensures
        handle_spec(v, command, chat_id, testing) matches Some((w, _)) ==> w == v,
{
}

/// A message, a read receipt, a deletion or an edit in chat `c` goes to
/// the user at the other end of that chat's edge, when the chat is the
/// only one at the sender with that id (chat ids are unique).
pub proof fn lemma_chat_frames_reach_the_partner(v: ContainerView, command: Command, k: int, chat_id: i32, testing: bool)
    requires
        wf(v),
        0 <= k < v.edges.len(),
        match command {
            Command::Send { message } => message.chat_id == v.edges[k].2 && v.nodes.contains_key(message.sender_id)
                && at_node(v.edges, k, v.nodes[message.sender_id]),
            Command::Update { message } => message.chat_id == v.edges[k].2 && v.nodes.contains_key(message.sender_id)
                && at_node(v.edges, k, v.nodes[message.sender_id]),
            Command::Status { chat_id: c, id } => c == v.edges[k].2 && v.nodes.contains_key(id) && at_node(
                v.edges,
                k,
                v.nodes[id],
            ),
            Command::Delete { chat_id: c, id, .. } => c == v.edges[k].2 && v.nodes.contains_key(id) && at_node(
                v.edges,
                k,
                v.nodes[id],
            ),
            _ => false,
        },
        forall|j: int| 0 <= j < v.edges.len() && j != k ==> (#[trigger] v.edges[j]).2 != v.edges[k].2,
    ensures
        ({
            let sender = match command {
                Command::Send { message } => message.sender_id,
                Command::Update { message } => message.sender_id,
                Command::Status { id, .. } => id,
                Command::Delete { id, .. } => id,
                _ => 0,
            };
            let partner = v.clients[other_end(v, v.nodes[sender], k as usize) as int].0;
            handle_spec(v, command, chat_id, testing) matches Some((_, outs)) && outs.len() > 0
                && outs.last().0 == partner
        }),
{
    let sender = match command {
        Command::Send { message } => message.sender_id,
        Command::Update { message } => message.sender_id,
        Command::Status { id, .. } => id,
        Command::Delete { id, .. } => id,
        _ => 0,
    };
    lemma_unique_chat_partner(v, sender, k);
}

/// Opening a chat with a fresh id joins the two users: each is told of
/// the chat and of the other, and afterwards each finds the other as
/// partner in that chat, so that what one sends there reaches the other.
pub proof fn lemma_connect_joins_partners(v: ContainerView, id: i32, other: i32, chat_id: i32, testing: bool)
    requires
        wf(v),
        v.nodes.contains_key(id),
        v.nodes.contains_key(other),
        v.edges.len() + 1 < 0xffff_ffff,
        chat_id_unused(v, chat_id),
    ensures
        handle_spec(v, Command::Connect { id, other }, chat_id, testing) matches Some((w, outs)) && {
            &&& wf(w)
            &&& partner_in(w, chat_id, id) == other
            &&& partner_in(w, chat_id, other) == id
            &&& outs.len() == 2
            &&& outs[0].0 == id
            &&& outs[1].0 == other
        },
{
    lemma_chat_partners(v, id, other, chat_id);
    let w = add_friends_spec(v, id, other, chat_id);
    assert forall|k: int| 0 <= k < w.edges.len() implies (#[trigger] w.edges[k]).0 < w.clients.len()
        && w.edges[k].1 < w.clients.len() by {
        if k < v.edges.len() {
            assert(w.edges[k] == v.edges[k]);
        }
    }
}

/// A list request is answered to the asker alone and changes nothing:
/// `ALL` with the other users' listing, `FRD` with the asker's chats.
pub proof fn lemma_lists_answer_the_asker(v: ContainerView, id: i32, chat_id: i32, testing: bool)
    requires
        wf(v),
        v.nodes.contains_key(id),
    ensures
        handle_spec(v, Command::GET { t: GetTypes::ALL, id }, chat_id, testing) == Some(
            (v, seq![(id, "ALL;"@ + others_text(v.clients, id) + "\n"@)]),
        ),
        handle_spec(v, Command::GET { t: GetTypes::FRIENDS, id }, chat_id, testing) == Some(
            (
                v,
                seq![
                    (
                        id,
                        seq!['F', 'R', 'D'] + list_or_empty(friends_text(v, v.nodes[id], chats_of(v, id))) + seq!['\n'],
                    ),
                ],
            ),
        ),
{
}

} // verus!
