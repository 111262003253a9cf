//! What the client does with each line the server sends: the line names a
//! command before its first `;`, and the rest holds the arguments,
//! separated by `;`.

use vstd::prelude::*;
use vstd::string::*;
use vstd::utf8::*;
use crate::client::chats::{
    add_chat_spec, add_chats_spec, add_loaded_spec, add_message_spec, chat_key, edit_last,
    json_i32_triples, loadable, read_spec, sent_entry, sent_spec, server_messages_view,
    with_messages, ChatView, Chats, ChatsView, Message, MessageView, ServerMessage, edits_newest,
    lemma_edit_last_edits_newest, lemma_mark_read_marks_unread_tail, read_from,
};
use crate::client::hashing::{cipher_bytes, modular_pow, modular_pow_spec, xor_encrypt_checked};
use crate::text::{
    parse_i32, parse_i32_spec, split, split_once, split_once_spec, split_spec, str_eq, trim, trim_spec,
    views,
};

verus! {

/// The `i`-th `;`-separated argument of `content`.
pub open spec fn arg(content: Seq<char>, i: int) -> Seq<char> {
    split_spec(content, ';')[i]
}

/// The `i`-th argument of `content` read as an `i32`.
pub open spec fn int_arg(content: Seq<char>, i: int) -> Option<i32> {
    parse_i32_spec(arg(content, i))
}

/// `content` has at least `n` arguments and the first `k` of them are
/// numbers.
pub open spec fn numeric_args(content: Seq<char>, n: int, k: int) -> bool {
    &&& split_spec(content, ';').len() >= n
    &&& forall|i: int| 0 <= i < k ==> (#[trigger] int_arg(content, i)) is Some
}

/// The arguments of an `MSG` or `UPD` frame can be acted on: a known,
/// non-zero chat id, a message id, and text that deciphers to valid UTF-8.
pub open spec fn cipher_frame_ok(v: ChatsView, content: Seq<char>) -> bool {
    &&& numeric_args(content, 3, 2)
    &&& v.chats.contains_key(int_arg(content, 0)->0)
    &&& int_arg(content, 0)->0 != 0
    &&& valid_utf8(cipher_bytes(arg(content, 2), chat_key(v, int_arg(content, 0)->0)))
}

/// The text of an `MSG` or `UPD` frame, deciphered with its chat's key.
pub open spec fn frame_text(v: ChatsView, content: Seq<char>) -> Seq<char> {
    decode_utf8(cipher_bytes(arg(content, 2), chat_key(v, int_arg(content, 0)->0)))
}

/// The view of an optional `(chat id, message)` pair.
pub open spec fn opt_message_view(r: Option<(i32, Message)>) -> Option<(i32, MessageView)> {
    match r {
        Some((id, m)) => Some((id, m@)),
        None => None,
    }
}

/// How `receive` answers an `MSG` frame and changes the chats.
pub open spec fn receive_rel(
    old: ChatsView,
    content: Seq<char>,
    res: Option<(i32, MessageView)>,
    new: ChatsView,
) -> bool {
    &&& res is Some <==> cipher_frame_ok(old, content)
    &&& res is None ==> new == old
    &&& res matches Some((id, m)) ==> {
        &&& id == int_arg(content, 0)->0
        &&& m == (MessageView {
            message_id: int_arg(content, 1)->0,
            from_me: false,
            content: frame_text(old, content),
            status: 1,
        })
        &&& new == add_message_spec(old, id, m)
    }
}

/// How `connect` answers a `CNT` frame and changes the chats.
pub open spec fn connect_rel(
    old: ChatsView,
    content: Seq<char>,
    res: Option<(i32, i32, i32)>,
    new: ChatsView,
) -> bool {
    &&& res is Some <==> numeric_args(content, 3, 3) && int_arg(content, 0)->0 != 0
    &&& res is None ==> new == old
    &&& res matches Some((chat_id, user_id, a)) ==> {
        &&& chat_id == int_arg(content, 0)->0
        &&& user_id == int_arg(content, 1)->0
        &&& new == add_chat_spec(old, chat_id, int_arg(content, 2)->0, 0)
        &&& a == modular_pow_spec(int_arg(content, 2)->0 as u64, old.a as u64, chat_id as u64) as i32
    }
}

/// How `set_seen` answers an `STS` frame and changes the chats.
pub open spec fn set_seen_rel(old: ChatsView, content: Seq<char>, res: Option<i32>, new: ChatsView) -> bool {
    match parse_i32_spec(content) {
        Some(id) => if old.chats.contains_key(id) {
            res == Some(id) && new == read_spec(old, id, true)
        } else {
            res is None && new == old
        },
        None => res is None && new == old,
    }
}

/// How `delete` answers a `DEL` frame and changes the chats.
pub open spec fn delete_rel(
    old: ChatsView,
    content: Seq<char>,
    res: Option<(Seq<char>, Seq<char>)>,
    new: ChatsView,
) -> bool {
    match split_once_spec(content, ';') {
        None => res is None && new == old,
        Some((id, mid)) => match (parse_i32_spec(id), parse_i32_spec(mid)) {
            (Some(c), Some(m)) => if old.chats.contains_key(c) {
                &&& res == Some((id, mid))
                &&& new == with_messages(
                    old,
                    c,
                    edit_last(old.chats[c].messages, m, Seq::<char>::empty(), 3),
                )
            } else {
                res is None && new == old
            },
            _ => res is None && new == old,
        },
    }
}

/// How `update` answers an `UPD` frame and changes the chats.
pub open spec fn update_rel(
    old: ChatsView,
    content: Seq<char>,
    res: Option<(i32, i32, Seq<char>)>,
    new: ChatsView,
) -> bool {
    &&& res is Some <==> cipher_frame_ok(old, content)
    &&& res is None ==> new == old
    &&& res matches Some((id, mid, text)) ==> {
        &&& id == int_arg(content, 0)->0
        &&& mid == int_arg(content, 1)->0
        &&& text == frame_text(old, content)
        &&& new == with_messages(old, id, edit_last(old.chats[id].messages, mid, text, 4))
    }
}

/// How `message_sent` answers an `MID` frame and changes the chats.
pub open spec fn message_sent_rel(
    old: ChatsView,
    content: Seq<char>,
    res: Option<(i32, MessageView)>,
    new: ChatsView,
) -> bool {
    match parse_i32_spec(content) {
        Some(mid) => if old.pending.len() > 0 && old.chats.contains_key(old.pending[0].0) {
            res == Some(sent_entry(old, mid)) && new == sent_spec(old, mid)
        } else {
            res is None && new == old
        },
        None => res is None && new == old,
    }
}

/// How `b` answers a `B` frame and changes the chats.
pub open spec fn b_rel(old: ChatsView, content: Seq<char>, res: bool, new: ChatsView) -> bool {
    match split_once_spec(content, ';') {
        None => !res && new == old,
        Some((c, v)) => match (parse_i32_spec(c), parse_i32_spec(v)) {
            (Some(chat_id), Some(b)) => if old.chats.contains_key(chat_id) {
                res && new == (ChatsView {
                    chats: old.chats.insert(chat_id, ChatView { b, ..old.chats[chat_id] }),
                    ..old
                })
            } else {
                !res && new == old
            },
            _ => !res && new == old,
        },
    }
}

/// How `logged_in_parts` splits an `LGN` frame.
pub open spec fn login_parts_rel(content: Seq<char>, res: Option<(i32, Seq<char>, Seq<char>)>) -> bool {
    match split_once_spec(content, ';') {
        None => res is None,
        Some((id, rest)) => match split_once_spec(rest, ';') {
            None => res is None,
            Some((chats_json, messages_json)) => match parse_i32_spec(id) {
                None => res is None,
                Some(n) => res == Some((n, chats_json, messages_json)),
            },
        },
    }
}

fn int_at(args: &Vec<&str>, i: usize) -> (res: Option<i32>)
    requires
        i < args@.len(),
    ensures
        res == parse_i32_spec(args@[i as int]@),
{
    parse_i32(args[i])
}

fn chat_key_of(chats: &Chats, chat_id: i32) -> (res: i32)
    requires
        chats@.chats.contains_key(chat_id),
        chat_id != 0,
    ensures
        res == chat_key(chats@, chat_id),
{
    assert(chat_id != 0 ==> (chat_id as u64) != 0) by (bit_vector);
    modular_pow(chats.get_b(chat_id) as u64, chats.get_a() as u64, chat_id as u64) as i32
}

/// `MSG;chat_id;message_id;text`: a message from the partner, deciphered
/// and appended to its chat. `None` (nothing changes) when the frame is
/// malformed, the chat is unknown or `0`, or the text does not decipher to
/// valid UTF-8 (`cipher_frame_ok`).
pub fn receive(chats: &mut Chats, content: &str) -> (res: Option<(i32, Message)>)
    ensures
        receive_rel(old(chats)@, content@, opt_message_view(res), final(chats)@),
{
    let args = split(content, ';');
    if args.len() < 3 {
        return None;
    }
    let id = match int_at(&args, 0) {
        Some(v) => v,
        None => return None,
    };
    let message_id = match int_at(&args, 1) {
        Some(v) => v,
        None => {
            assert(int_arg(content@, 1) is None);
            return None;
        },
    };
    if id == 0 || !chats.is_chat(id) {
        return None;
    }
    let key = chat_key_of(chats, id);
    let text = match xor_encrypt_checked(args[2], key) {
        Some(t) => t,
        None => return None,
    };
    let message = chats.received_message(id, message_id, text);
    Some((id, message))
}

/// `CNT;chat_id;user_id;g`: a new chat with `user_id`. The chat is opened
/// with the public value `g` (and `b = 0`, until the partner's value
/// arrives), and the user's own public value `g^a mod chat_id` is returned
/// with the two ids. `None` (nothing changes) for too few or non-numeric arguments, or chat id `0`.
pub fn connect(chats: &mut Chats, content: &str) -> (res: Option<(i32, i32, i32)>)
    ensures
        connect_rel(old(chats)@, content@, res, final(chats)@),
{
    let args = split(content, ';');
    if args.len() < 3 {
        return None;
    }
    let chat_id = match int_at(&args, 0) {
        Some(v) => v,
        None => return None,
    };
    let user_id = match int_at(&args, 1) {
        Some(v) => v,
        None => {
            assert(int_arg(content@, 1) is None);
            return None;
        },
    };
    let g = match int_at(&args, 2) {
        Some(v) => v,
        None => {
            assert(int_arg(content@, 2) is None);
            return None;
        },
    };
    if chat_id == 0 {
        return None;
    }
    assert(numeric_args(content@, 3, 3)) by {
        assert forall|i: int| 0 <= i < 3 implies (#[trigger] int_arg(content@, i)) is Some by {
            if i == 0 {
            } else if i == 1 {
            } else {
            }
        }
    }
    chats.add_chat(chat_id, g, 0);
    assert(chat_id != 0 ==> (chat_id as u64) != 0) by (bit_vector);
    let a = modular_pow(g as u64, chats.get_a() as u64, chat_id as u64) as i32;
    Some((chat_id, user_id, a))
}

/// `FRD;...`: the list of friends, as the `;`-separated pieces.
pub fn friends<'a>(content: &'a str) -> (res: Vec<&'a str>)
    ensures
        views(res@) == split_spec(content@, ';'),
{
    split(content, ';')
}

/// `ALL;...`: the list of all users, as the `;`-separated pieces.
pub fn all<'a>(content: &'a str) -> (res: Vec<&'a str>)
    ensures
        views(res@) == split_spec(content@, ';'),
{
    split(content, ';')
}

/// The parts of `LGN;id;chats;messages`: the user's id, the JSON of the
/// chats and the JSON of the stored messages. `None` for a missing `;` or an id that is not a number.
pub fn logged_in_parts<'a>(content: &'a str) -> (res: Option<(i32, &'a str, &'a str)>)
    ensures
        login_parts_rel(
            content@,
            match res {
                Some((i, c, m)) => Some((i, c@, m@)),
                None => None,
            },
        ),
{
    let (id, rest) = match split_once(content, ';') {
        Some(p) => p,
        None => return None,
    };
    let (chats_json, messages_json) = match split_once(rest, ';') {
        Some(p) => p,
        None => return None,
    };
    match parse_i32(id) {
        Some(n) => Some((n, chats_json, messages_json)),
        None => None,
    }
}

/// Completes a login: records the user's id, then loads the chats and the
/// stored messages. `false` when the data cannot be loaded
/// (see `Chats::load`).
pub fn logged_in(chats: &mut Chats, id: i32, chats_json: &str, messages: Vec<ServerMessage>) -> (res:
    bool)
    ensures
        match json_i32_triples(chats_json@) {
            None => !res && final(chats)@ == (ChatsView { me: id, ..old(chats)@ }),
            Some(ts) => {
                let u = add_chats_spec(ChatsView { me: id, ..old(chats)@ }, ts);
                let ms = server_messages_view(messages@);
                &&& res == (forall|i: int| 0 <= i < ms.len() ==> loadable(u, #[trigger] ms[i]))
                &&& res ==> final(chats)@ == add_loaded_spec(u, ms)
                &&& !res ==> final(chats)@ == u
            },
        },
{
    chats.set_id(id);
    chats.load(messages, chats_json)
}

/// `STS;chat_id`: the partner read chat `chat_id`; the user's own
/// messages there are marked read. `None` (nothing changes) for a
/// chat id that is not a number or not a known chat.
pub fn set_seen(chats: &mut Chats, content: &str) -> (res: Option<i32>)
    ensures
        set_seen_rel(old(chats)@, content@, res, final(chats)@),
{
    let chat_id = match parse_i32(content) {
        Some(v) => v,
        None => return None,
    };
    if !chats.is_chat(chat_id) {
        return None;
    }
    chats.my_message_read(chat_id);
    Some(chat_id)
}

/// `DEL;chat_id;message_id`: the partner deleted a message; it is emptied
/// in chat `chat_id`. Gives back the two arguments as text. `None`
/// (nothing changes) for a malformed frame or an unknown chat.
pub fn delete<'a>(chats: &mut Chats, content: &'a str) -> (res: Option<(&'a str, &'a str)>)
    ensures
        delete_rel(
            old(chats)@,
            content@,
            match res {
                Some((a, b)) => Some((a@, b@)),
                None => None,
            },
            final(chats)@,
        ),
{
    let (id, message_id) = match split_once(content, ';') {
        Some(p) => p,
        None => return None,
    };
    let c = match parse_i32(id) {
        Some(v) => v,
        None => return None,
    };
    let m = match parse_i32(message_id) {
        Some(v) => v,
        None => return None,
    };
    if !chats.is_chat(c) {
        return None;
    }
    chats.delete(c, m);
    Some((id, message_id))
}

/// `UPD;chat_id;message_id;text`: the partner edited a message; its text
/// is deciphered and stored. Gives back the ids and the new text. `None`
/// (nothing changes) exactly when `cipher_frame_ok` fails.
pub fn update(chats: &mut Chats, content: &str) -> (res: Option<(i32, i32, String)>)
    ensures
        update_rel(
            old(chats)@,
            content@,
            match res {
                Some((id, mid, text)) => Some((id, mid, text@)),
                None => None,
            },
            final(chats)@,
        ),
{
    let args = split(content, ';');
    if args.len() < 3 {
        return None;
    }
    let id = match int_at(&args, 0) {
        Some(v) => v,
        None => return None,
    };
    let message_id = match int_at(&args, 1) {
        Some(v) => v,
        None => {
            assert(int_arg(content@, 1) is None);
            return None;
        },
    };
    if id == 0 || !chats.is_chat(id) {
        return None;
    }
    let key = chat_key_of(chats, id);
    let text = match xor_encrypt_checked(args[2], key) {
        Some(t) => t,
        None => return None,
    };
    chats.update(id, message_id, text.as_str());
    Some((id, message_id, text))
}

/// `MID;message_id`: the server stored the oldest pending message under
/// `message_id`; it joins its chat. `None` (nothing changes) for an id that is not a number, an empty queue, or a
/// pending message whose chat is unknown.
pub fn message_sent(chats: &mut Chats, content: &str) -> (res: Option<(i32, Message)>)
    ensures
        message_sent_rel(old(chats)@, content@, opt_message_view(res), final(chats)@),
{
    let message_id = match parse_i32(content) {
        Some(v) => v,
        None => return None,
    };
    match chats.next_pending_chat() {
        Some(user) => {
            if !chats.is_chat(user) {
                return None;
            }
        },
        None => return None,
    }
    Some(chats.sent_message(message_id))
}

/// `B;chat_id;b`: the partner's public value `b` for chat `chat_id`.
/// `false` (nothing changes) for a malformed frame or an unknown chat.
pub fn b(chats: &mut Chats, content: &str) -> (res: bool)
    ensures
        b_rel(old(chats)@, content@, res, final(chats)@),
{
    let (chat_id, b) = match split_once(content, ';') {
        Some(p) => p,
        None => return false,
    };
    let chat_id = match parse_i32(chat_id) {
        Some(v) => v,
        None => return false,
    };
    let b = match parse_i32(b) {
        Some(v) => v,
        None => return false,
    };
    if !chats.is_chat(chat_id) {
        return false;
    }
    chats.set_b(chat_id, b);
    true
}

/// What the client shows for one line from the server.
pub enum Event<'a> {
    /// `MSG`: a message arrived in a chat.
    Received(i32, Message),
    /// `CNT`: a chat opened: chat id, partner id, the user's public value.
    Connected(i32, i32, i32),
    /// `FRD`: the pieces of the friends list.
    Friends(Vec<&'a str>),
    /// `ALL`: the pieces of the users list.
    All(Vec<&'a str>),
    /// `LGN`: logged in: the user's id, the chats JSON and the messages
    /// JSON, which the caller decodes and hands to `logged_in`.
    LoggedIn(i32, &'a str, &'a str),
    /// `STS`: the partner read a chat.
    Seen(i32),
    /// `DEL`: a message was deleted: chat id and message id as text.
    Deleted(&'a str, &'a str),
    /// `UPD`: a message was edited: chat id, message id, new text.
    Updated(i32, i32, String),
    /// `MID`: the server stored a sent message.
    Sent(i32, Message),
    /// `B`: the partner's public value was stored; nothing is shown.
    KeyStored,
    /// `REG`: the answer to a registration.
    Registered(&'a str),
    /// `ERR`: an error from the server.
    Failed(&'a str),
    /// Any other command: its arguments.
    Other(&'a str),
}

/// How `handle_line` answers one line from the server and changes the
/// chats: the command before the first `;` of the trimmed line picks the
/// handler; `None` (nothing changes) where the
/// handler refuses the line.
pub open spec fn handle_line_rel(old: ChatsView, line: Seq<char>, res: Option<Event>, new: ChatsView) -> bool {
    match split_once_spec(trim_spec(line), ';') {
        None => res is None && new == old,
        Some((cmd, content)) => if cmd == "MSG"@ {
            &&& (res is None || res->0 is Received)
            &&& receive_rel(
                old,
                content,
                match res {
                    Some(Event::Received(id, m)) => Some((id, m@)),
                    _ => None,
                },
                new,
            )
        } else if cmd == "CNT"@ {
            &&& (res is None || res->0 is Connected)
            &&& connect_rel(
                old,
                content,
                match res {
                    Some(Event::Connected(c, u, a)) => Some((c, u, a)),
                    _ => None,
                },
                new,
            )
        } else if cmd == "FRD"@ {
            &&& res matches Some(Event::Friends(v)) && views(v@) == split_spec(content, ';')
            &&& new == old
        } else if cmd == "ALL"@ {
            &&& res matches Some(Event::All(v)) && views(v@) == split_spec(content, ';')
            &&& new == old
        } else if cmd == "LGN"@ {
            &&& (res is None || res->0 is LoggedIn)
            &&& login_parts_rel(
                content,
                match res {
                    Some(Event::LoggedIn(i, c, m)) => Some((i, c@, m@)),
                    _ => None,
                },
            )
            &&& new == old
        } else if cmd == "STS"@ {
            &&& (res is None || res->0 is Seen)
            &&& set_seen_rel(
                old,
                content,
                match res {
                    Some(Event::Seen(c)) => Some(c),
                    _ => None,
                },
                new,
            )
        } else if cmd == "DEL"@ {
            &&& (res is None || res->0 is Deleted)
            &&& delete_rel(
                old,
                content,
                match res {
                    Some(Event::Deleted(a, b)) => Some((a@, b@)),
                    _ => None,
                },
                new,
            )
        } else if cmd == "UPD"@ {
            &&& (res is None || res->0 is Updated)
            &&& update_rel(
                old,
                content,
                match res {
                    Some(Event::Updated(i, m, s)) => Some((i, m, s@)),
                    _ => None,
                },
                new,
            )
        } else if cmd == "MID"@ {
            &&& (res is None || res->0 is Sent)
            &&& message_sent_rel(
                old,
                content,
                match res {
                    Some(Event::Sent(u, m)) => Some((u, m@)),
                    _ => None,
                },
                new,
            )
        } else if cmd == "B"@ {
            &&& (res is None || res->0 is KeyStored)
            &&& b_rel(old, content, res is Some, new)
        } else if cmd == "REG"@ {
            res matches Some(Event::Registered(s)) && s@ == content && new == old
        } else if cmd == "ERR"@ {
            res matches Some(Event::Failed(s)) && s@ == content && new == old
        } else {
            res matches Some(Event::Other(s)) && s@ == content && new == old
        },
    }
}

/// Handles one line read from the server: trims it, splits off the
/// command, and runs the command's handler on the chats.
pub fn handle_line<'a>(chats: &mut Chats, line: &'a str) -> (res: Option<Event<'a>>)
    ensures
        handle_line_rel(old(chats)@, line@, res, final(chats)@),
{
    let (command, content) = match split_once(trim(line), ';') {
        Some(p) => p,
        None => return None,
    };
    if str_eq(command, "MSG") {
        match receive(chats, content) {
            Some((id, m)) => Some(Event::Received(id, m)),
            None => None,
        }
    } else if str_eq(command, "CNT") {
        match connect(chats, content) {
            Some((c, u, a)) => Some(Event::Connected(c, u, a)),
            None => None,
        }
    } else if str_eq(command, "FRD") {
        Some(Event::Friends(friends(content)))
    } else if str_eq(command, "ALL") {
        Some(Event::All(all(content)))
    } else if str_eq(command, "LGN") {
        match logged_in_parts(content) {
            Some((i, c, m)) => Some(Event::LoggedIn(i, c, m)),
            None => None,
        }
    } else if str_eq(command, "STS") {
        match set_seen(chats, content) {
            Some(c) => Some(Event::Seen(c)),
            None => None,
        }
    } else if str_eq(command, "DEL") {
        match delete(chats, content) {
            Some((a, b)) => Some(Event::Deleted(a, b)),
            None => None,
        }
    } else if str_eq(command, "UPD") {
        match update(chats, content) {
            Some((i, m, s)) => Some(Event::Updated(i, m, s)),
            None => None,
        }
    } else if str_eq(command, "MID") {
        match message_sent(chats, content) {
            Some((u, m)) => Some(Event::Sent(u, m)),
            None => None,
        }
    } else if str_eq(command, "B") {
        if b(chats, content) {
            Some(Event::KeyStored)
        } else {
            None
        }
    } else if str_eq(command, "REG") {
        Some(Event::Registered(content))
    } else if str_eq(command, "ERR") {
        Some(Event::Failed(content))
    } else {
        Some(Event::Other(content))
    }
}

/// An `UPD` line edits a message in place: when its frame can be acted on
/// (`cipher_frame_ok`), the answer is `Updated` with the chat id, the
/// message id and the deciphered text, and in that chat the newest
/// message with that id gets the text and status 4 while every other
/// message, every other chat, and the number of messages stay as they
/// were; otherwise nothing changes.
pub proof fn lemma_update_line_edits(old: ChatsView, line: Seq<char>, content: Seq<char>, res: Option<Event>, new: ChatsView)
    requires
        split_once_spec(trim_spec(line), ';') == Some(("UPD"@, content)),
        handle_line_rel(old, line, res, new),
    ensures
        res is Some <==> cipher_frame_ok(old, content),
        res is None ==> new == old,
        res matches Some(Event::Updated(id, mid, text)) ==> {
            &&& id == int_arg(content, 0)->0
            &&& mid == int_arg(content, 1)->0
            &&& text@ == frame_text(old, content)
            &&& new.me == old.me && new.a == old.a && new.pending == old.pending
            &&& new.chats.dom() == old.chats.dom()
            &&& forall|c: i32| #[trigger] old.chats.contains_key(c) && c != id ==> new.chats[c] == old.chats[c]
            &&& new.chats[id].g == old.chats[id].g && new.chats[id].b == old.chats[id].b
            &&& edits_newest(old.chats[id].messages, new.chats[id].messages, mid, text@, 4)
        },
        res is Some ==> res->0 is Updated,
{
    reveal_strlit("MSG");
    reveal_strlit("CNT");
    reveal_strlit("FRD");
    reveal_strlit("ALL");
    reveal_strlit("LGN");
    reveal_strlit("STS");
    reveal_strlit("DEL");
    reveal_strlit("UPD");
    reveal_strlit("MID");
    reveal_strlit("B");
    reveal_strlit("REG");
    reveal_strlit("ERR");
    assert("UPD"@[0] != "MSG"@[0]);
    assert("UPD"@[0] != "CNT"@[0]);
    assert("UPD"@[0] != "FRD"@[0]);
    assert("UPD"@[0] != "ALL"@[0]);
    assert("UPD"@[0] != "LGN"@[0]);
    assert("UPD"@[0] != "STS"@[0]);
    assert("UPD"@[0] != "DEL"@[0]);
    match res {
        Some(Event::Updated(id, mid, text)) => {
            lemma_edit_last_edits_newest(old.chats[id].messages, mid, text@, 4);
            assert(new.chats.dom() =~= old.chats.dom());
        },
        _ => {},
    }
}

/// A `DEL` line empties a message in place: when the chat id and message
/// id are numbers and the chat is known, the answer is `Deleted` with the
/// two ids as text, and in that chat the newest message with that id gets
/// an empty text and status 3 while everything else stays; otherwise
/// nothing changes.
pub proof fn lemma_delete_line_empties(old: ChatsView, line: Seq<char>, content: Seq<char>, res: Option<Event>, new: ChatsView)
    requires
        split_once_spec(trim_spec(line), ';') == Some(("DEL"@, content)),
        handle_line_rel(old, line, res, new),
    ensures
        res is None ==> new == old,
        res is Some ==> res->0 is Deleted,
        res matches Some(Event::Deleted(a, b)) ==> {
            &&& split_once_spec(content, ';') == Some((a@, b@))
            &&& parse_i32_spec(a@) is Some
            &&& parse_i32_spec(b@) is Some
            &&& old.chats.contains_key(parse_i32_spec(a@)->0)
            &&& new.me == old.me && new.a == old.a && new.pending == old.pending
            &&& new.chats.dom() == old.chats.dom()
            &&& forall|c: i32| #[trigger] old.chats.contains_key(c) && c != parse_i32_spec(a@)->0 ==> new.chats[c]
                == old.chats[c]
            &&& edits_newest(
                old.chats[parse_i32_spec(a@)->0].messages,
                new.chats[parse_i32_spec(a@)->0].messages,
                parse_i32_spec(b@)->0,
                Seq::<char>::empty(),
                3,
            )
        },
{
    reveal_strlit("MSG");
    reveal_strlit("CNT");
    reveal_strlit("FRD");
    reveal_strlit("ALL");
    reveal_strlit("LGN");
    reveal_strlit("STS");
    reveal_strlit("DEL");
    reveal_strlit("UPD");
    reveal_strlit("MID");
    reveal_strlit("B");
    reveal_strlit("REG");
    reveal_strlit("ERR");
    assert("DEL"@[0] != "MSG"@[0]);
    assert("DEL"@[0] != "CNT"@[0]);
    assert("DEL"@[0] != "FRD"@[0]);
    assert("DEL"@[0] != "ALL"@[0]);
    assert("DEL"@[0] != "LGN"@[0]);
    assert("DEL"@[0] != "STS"@[0]);
    match res {
        Some(Event::Deleted(a, b)) => {
            let c = parse_i32_spec(a@)->0;
            lemma_edit_last_edits_newest(old.chats[c].messages, parse_i32_spec(b@)->0, Seq::<char>::empty(), 3);
            assert(new.chats.dom() =~= old.chats.dom());
        },
        _ => {},
    }
}

/// An `MSG` line appends one message to the end of its chat: when its
/// frame can be acted on, the answer is `Received` with the chat id and a
/// message from the partner, unread, with the frame's message id and the
/// deciphered text, and that message is the only change; otherwise
/// nothing changes.
pub proof fn lemma_message_line_appends(old: ChatsView, line: Seq<char>, content: Seq<char>, res: Option<Event>, new: ChatsView)
    requires
        split_once_spec(trim_spec(line), ';') == Some(("MSG"@, content)),
        handle_line_rel(old, line, res, new),
    ensures
        res is Some <==> cipher_frame_ok(old, content),
        res is None ==> new == old,
        res is Some ==> res->0 is Received,
        res matches Some(Event::Received(id, m)) ==> {
            &&& id == int_arg(content, 0)->0
            &&& m@.message_id == int_arg(content, 1)->0
            &&& !m@.from_me
            &&& m@.status == 1
            &&& m@.content == frame_text(old, content)
            &&& new.me == old.me && new.a == old.a && new.pending == old.pending
            &&& new.chats.dom() == old.chats.dom()
            &&& forall|c: i32| #[trigger] old.chats.contains_key(c) && c != id ==> new.chats[c] == old.chats[c]
            &&& new.chats[id].messages == old.chats[id].messages.push(m@)
            &&& new.chats[id].g == old.chats[id].g && new.chats[id].b == old.chats[id].b
        },
{
    reveal_strlit("MSG");
    reveal_strlit("CNT");
    reveal_strlit("FRD");
    reveal_strlit("ALL");
    reveal_strlit("LGN");
    reveal_strlit("STS");
    reveal_strlit("DEL");
    reveal_strlit("UPD");
    reveal_strlit("MID");
    reveal_strlit("B");
    reveal_strlit("REG");
    reveal_strlit("ERR");
    if res is Some {
        assert(new.chats.dom() =~= old.chats.dom());
    }
}

/// An `STS` line tells that the partner read chat `c`: the answer is
/// `Seen(c)`, the user's own messages in that chat become read from the
/// newest back to the first one read already, and nothing else changes:
/// no text, id or side, no other chat, no message of the partner. A
/// chat id that is not a number or not a known chat changes nothing.
pub proof fn lemma_seen_line_marks_own_messages(old: ChatsView, line: Seq<char>, content: Seq<char>, res: Option<Event>, new: ChatsView)
    requires
        split_once_spec(trim_spec(line), ';') == Some(("STS"@, content)),
        handle_line_rel(old, line, res, new),
    ensures
        res is Some <==> (parse_i32_spec(content) is Some && old.chats.contains_key(parse_i32_spec(content)->0)),
        res is None ==> new == old,
        res matches Some(Event::Seen(c)) ==> {
            let before = old.chats[c].messages;
            let after = new.chats[c].messages;
            &&& c == parse_i32_spec(content)->0
            &&& new.me == old.me && new.a == old.a && new.pending == old.pending
            &&& new.chats.dom() == old.chats.dom()
            &&& forall|d: i32| #[trigger] old.chats.contains_key(d) && d != c ==> new.chats[d] == old.chats[d]
            &&& after.len() == before.len()
            &&& forall|j: int| 0 <= j < before.len() && before[j].from_me && !read_from(before, j, true)
                ==> #[trigger] after[j] == (MessageView { status: 2, ..before[j] })
            &&& forall|j: int| 0 <= j < before.len() && !(before[j].from_me && !read_from(before, j, true))
                ==> #[trigger] after[j] == before[j]
        },
        res is Some ==> res->0 is Seen,
{
    reveal_strlit("MSG");
    reveal_strlit("CNT");
    reveal_strlit("FRD");
    reveal_strlit("ALL");
    reveal_strlit("LGN");
    reveal_strlit("STS");
    assert("STS"@[0] != "MSG"@[0]);
    assert("STS"@[0] != "CNT"@[0]);
    assert("STS"@[0] != "FRD"@[0]);
    assert("STS"@[0] != "ALL"@[0]);
    assert("STS"@[1] != "LGN"@[1]);
    match res {
        Some(Event::Seen(c)) => {
            lemma_mark_read_marks_unread_tail(old.chats[c].messages, true);
            assert(new.chats.dom() =~= old.chats.dom());
        },
        _ => {},
    }
}

/// An `MID` line gives the oldest message waiting for an id its id: the
/// answer is `Sent` with that message's chat and the message, sent by the
/// user with the new id; it leaves the queue and is appended to its chat,
/// and nothing else changes. Otherwise nothing changes.
pub proof fn lemma_sent_line_acknowledges_oldest(old: ChatsView, line: Seq<char>, content: Seq<char>, res: Option<Event>, new: ChatsView)
    requires
        split_once_spec(trim_spec(line), ';') == Some(("MID"@, content)),
        handle_line_rel(old, line, res, new),
    ensures
        res is None ==> new == old,
        res is Some ==> res->0 is Sent,
        res matches Some(Event::Sent(u, m)) ==> {
            &&& parse_i32_spec(content) is Some
            &&& old.pending.len() > 0
            &&& u == old.pending[0].0
            &&& m@ == (MessageView { message_id: parse_i32_spec(content)->0, ..old.pending[0].1 })
            &&& new.pending == old.pending.drop_first()
            &&& new.me == old.me && new.a == old.a
            &&& new.chats.dom() == old.chats.dom()
            &&& forall|c: i32| #[trigger] old.chats.contains_key(c) && c != u ==> new.chats[c] == old.chats[c]
            &&& new.chats[u].messages == old.chats[u].messages.push(m@)
            &&& new.chats[u].g == old.chats[u].g && new.chats[u].b == old.chats[u].b
        },
{
    reveal_strlit("MSG");
    reveal_strlit("CNT");
    reveal_strlit("FRD");
    reveal_strlit("ALL");
    reveal_strlit("LGN");
    reveal_strlit("STS");
    reveal_strlit("DEL");
    reveal_strlit("UPD");
    reveal_strlit("MID");
    reveal_strlit("B");
    assert("MID"@[1] != "MSG"@[1]);
    assert("MID"@[0] != "CNT"@[0]);
    assert("MID"@[0] != "FRD"@[0]);
    assert("MID"@[0] != "ALL"@[0]);
    assert("MID"@[0] != "LGN"@[0]);
    assert("MID"@[0] != "STS"@[0]);
    assert("MID"@[0] != "DEL"@[0]);
    assert("MID"@[0] != "UPD"@[0]);
    if res is Some {
        assert(new.chats.dom() =~= old.chats.dom());
    }
}

/// A `B` line stores the partner's public value of a known chat and
/// changes nothing else: no message, no other chat, not the chat's `g`.
pub proof fn lemma_key_line_stores_b(old: ChatsView, line: Seq<char>, content: Seq<char>, res: Option<Event>, new: ChatsView)
    requires
        split_once_spec(trim_spec(line), ';') == Some(("B"@, content)),
        handle_line_rel(old, line, res, new),
    ensures
        res is None ==> new == old,
        res is Some ==> {
            &&& res->0 is KeyStored
            &&& split_once_spec(content, ';') matches Some((c, b)) && parse_i32_spec(c) is Some && parse_i32_spec(b)
                is Some && {
                let chat = parse_i32_spec(c)->0;
                &&& old.chats.contains_key(chat)
                &&& new.chats[chat].b == parse_i32_spec(b)->0
                &&& new.chats[chat].g == old.chats[chat].g
                &&& new.chats[chat].messages == old.chats[chat].messages
                &&& forall|d: i32| #[trigger] old.chats.contains_key(d) && d != chat ==> new.chats[d] == old.chats[d]
                &&& new.chats.dom() == old.chats.dom()
            }
            &&& new.me == old.me && new.a == old.a && new.pending == old.pending
        },
{
    reveal_strlit("MSG");
    reveal_strlit("CNT");
    reveal_strlit("FRD");
    reveal_strlit("ALL");
    reveal_strlit("LGN");
    reveal_strlit("STS");
    reveal_strlit("DEL");
    reveal_strlit("UPD");
    reveal_strlit("MID");
    reveal_strlit("B");
    assert("B"@[0] != "MSG"@[0]);
    assert("B"@[0] != "CNT"@[0]);
    assert("B"@[0] != "FRD"@[0]);
    assert("B"@[0] != "ALL"@[0]);
    assert("B"@[0] != "LGN"@[0]);
    assert("B"@[0] != "STS"@[0]);
    assert("B"@[0] != "DEL"@[0]);
    assert("B"@[0] != "UPD"@[0]);
    assert("B"@[0] != "MID"@[0]);
    if res is Some {
        assert(new.chats.dom() =~= old.chats.dom());
    }
}

/// A `CNT` line opens chat `c` with user `u` and answers the user's own
/// public value `g^a mod c`; a chat that is open already keeps its values
/// and messages; nothing else changes.
pub proof fn lemma_connect_line_opens_chat(old: ChatsView, line: Seq<char>, content: Seq<char>, res: Option<Event>, new: ChatsView)
    requires
        split_once_spec(trim_spec(line), ';') == Some(("CNT"@, content)),
        handle_line_rel(old, line, res, new),
    ensures
        res is None ==> new == old,
        res is Some ==> res->0 is Connected,
        res matches Some(Event::Connected(c, u, a)) ==> {
            &&& c == int_arg(content, 0)->0 && u == int_arg(content, 1)->0
            &&& a == modular_pow_spec(int_arg(content, 2)->0 as u64, old.a as u64, c as u64) as i32
            &&& new.chats.contains_key(c)
            &&& old.chats.contains_key(c) ==> new == old
            &&& !old.chats.contains_key(c) ==> new.chats[c].messages.len() == 0 && new.chats[c].g == int_arg(content, 2)->0
                && new.chats[c].b == 0
            &&& forall|d: i32| #[trigger] old.chats.contains_key(d) ==> new.chats.contains_key(d) && new.chats[d]
                == old.chats[d]
            &&& new.me == old.me && new.a == old.a && new.pending == old.pending
        },
{
    reveal_strlit("MSG");
    reveal_strlit("CNT");
    reveal_strlit("FRD");
    reveal_strlit("ALL");
    reveal_strlit("LGN");
    reveal_strlit("STS");
    reveal_strlit("DEL");
    reveal_strlit("UPD");
    reveal_strlit("MID");
    reveal_strlit("B");
    assert("CNT"@[0] != "MSG"@[0]);
}

} // verus!
