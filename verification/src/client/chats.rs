//! The client's store: one chat per partner, each with its messages in the
//! order they arrived, the Diffie-Hellman values of the chat, and the queue
//! of sent messages that still wait for the server's id.

use std::collections::HashMap;
use std::collections::VecDeque;
use vstd::prelude::*;
use vstd::utf8::*;
use crate::client::hashing::{cipher_bytes, modular_pow, modular_pow_spec, xor_encrypt_checked};

verus! {

/// A message as the client shows it.
pub struct Message {
    pub message_id: i32,
    pub from_me: bool,
    pub content: String,
    pub status: i32,
}

/// The mathematical value of a `Message`.
pub struct MessageView {
    pub message_id: i32,
    pub from_me: bool,
    pub content: Seq<char>,
    pub status: i32,
}

impl View for Message {
    type V = MessageView;

    open spec fn view(&self) -> MessageView {
        MessageView {
            message_id: self.message_id,
            from_me: self.from_me,
            content: self.content@,
            status: self.status,
        }
    }
}

impl Message {
    /// A copy of the message.
    pub fn duplicate(&self) -> (res: Message)
        ensures
            res@ == self@,
    {
        Message {
            message_id: self.message_id,
            from_me: self.from_me,
            content: self.content.clone(),
            status: self.status,
        }
    }
}

/// A message as the server stores it.
pub struct ServerMessage {
    pub message_id: i32,
    pub chat_id: i32,
    pub sender_id: i32,
    pub content: String,
    pub status: i32,
}

/// The mathematical value of a `ServerMessage`.
pub struct ServerMessageView {
    pub message_id: i32,
    pub chat_id: i32,
    pub sender_id: i32,
    pub content: Seq<char>,
    pub status: i32,
}

impl View for ServerMessage {
    type V = ServerMessageView;

    open spec fn view(&self) -> ServerMessageView {
        ServerMessageView {
            message_id: self.message_id,
            chat_id: self.chat_id,
            sender_id: self.sender_id,
            content: self.content@,
            status: self.status,
        }
    }
}

/// What `serde_json::from_str::<Vec<(i32, i32, i32)>>` reads from `text`:
/// `None` where it fails.
pub uninterp spec fn json_i32_triples(text: Seq<char>) -> Option<Seq<(i32, i32, i32)>>;

/// Parses a JSON array of `[i32, i32, i32]` triples with `serde_json`.
#[verifier::external_body]
fn parse_i32_triples(text: &str) -> (res: Option<Vec<(i32, i32, i32)>>)
    ensures
        match res {
            Some(v) => json_i32_triples(text@) == Some(v@),
            None => json_i32_triples(text@) is None,
        },
{
    serde_json::from_str::<Vec<(i32, i32, i32)>>(text).ok()
}

/// One chat: its messages, oldest first, and the values `g` and `b` of its
/// key agreement.
pub struct ChatView {
    pub messages: Seq<MessageView>,
    pub g: i32,
    pub b: i32,
}

/// The mathematical value of a `Chats`.
pub struct ChatsView {
    pub me: i32,
    pub a: i32,
    pub chats: Map<i32, ChatView>,
    pub pending: Seq<(i32, MessageView)>,
}

/// The view of one stored chat entry.
pub open spec fn chat_view(e: (VecDeque<Message>, i32, i32)) -> ChatView {
    ChatView { messages: e.0@.map_values(|m: Message| m@), g: e.1, b: e.2 }
}

/// The client's chats, keyed by chat id.
pub struct Chats {
    me: i32,
    chats: HashMap<i32, (VecDeque<Message>, i32, i32)>,
    pending_messages: VecDeque<(i32, Message)>,
    a: i32,
}

impl View for Chats {
    type V = ChatsView;

    closed spec fn view(&self) -> ChatsView {
        ChatsView {
            me: self.me,
            a: self.a,
            chats: self.chats@.map_values(|e: (VecDeque<Message>, i32, i32)| chat_view(e)),
            pending: self.pending_messages@.map_values(|p: (i32, Message)| (p.0, p.1@)),
        }
    }
}

/// The chats after `add_chat(chat_id, g, b)`: a chat that exists is kept
/// as it is.
pub open spec fn add_chat_spec(v: ChatsView, chat_id: i32, g: i32, b: i32) -> ChatsView {
    if v.chats.contains_key(chat_id) {
        v
    } else {
        ChatsView {
            chats: v.chats.insert(chat_id, ChatView { messages: Seq::empty(), g, b }),
            ..v
        }
    }
}

/// The chats after `m` is appended to chat `user`; nothing changes when
/// there is no such chat.
pub open spec fn add_message_spec(v: ChatsView, user: i32, m: MessageView) -> ChatsView {
    if v.chats.contains_key(user) {
        let c = v.chats[user];
        ChatsView {
            chats: v.chats.insert(user, ChatView { messages: c.messages.push(m), ..c }),
            ..v
        }
    } else {
        v
    }
}

/// The message that `pend_message(user, content)` queues.
pub open spec fn pending_message(content: Seq<char>) -> MessageView {
    MessageView { message_id: 0, from_me: true, content, status: 1 }
}

/// The chats after `pend_message(user, content)`.
pub open spec fn pend_spec(v: ChatsView, user: i32, content: Seq<char>) -> ChatsView {
    ChatsView { pending: v.pending.push((user, pending_message(content))), ..v }
}

/// The oldest pending message with the id the server gave it.
pub open spec fn sent_entry(v: ChatsView, message_id: i32) -> (i32, MessageView) {
    let (user, m) = v.pending[0];
    (user, MessageView { message_id, ..m })
}

/// The chats after `sent_message(message_id)`: the oldest pending message
/// leaves the queue and joins its chat with the server's id.
pub open spec fn sent_spec(v: ChatsView, message_id: i32) -> ChatsView {
    let (user, m) = sent_entry(v, message_id);
    let c = v.chats[user];
    ChatsView {
        chats: v.chats.insert(user, ChatView { messages: c.messages.push(m), ..c }),
        pending: v.pending.drop_first(),
        ..v
    }
}

/// The chats after `add_chat` for each triple `(chat_id, g, b)` in turn.
pub open spec fn add_chats_spec(v: ChatsView, triples: Seq<(i32, i32, i32)>) -> ChatsView
    decreases triples.len(),
{
    if triples.len() == 0 {
        v
    } else {
        let t = triples.last();
        add_chat_spec(add_chats_spec(v, triples.drop_last()), t.0, t.1, t.2)
    }
}

/// The key of chat `chat_id`: the partner's `b` raised to the user's
/// secret `a`, modulo the chat id, truncated to an `i32`.
pub open spec fn chat_key(v: ChatsView, chat_id: i32) -> i32 {
    modular_pow_spec(v.chats[chat_id].b as u64, v.a as u64, chat_id as u64) as i32
}

/// A stored message can be deciphered: its chat is known, the chat id is
/// not zero (it is the modulus of the key), and the deciphered bytes are
/// valid UTF-8.
pub open spec fn loadable(v: ChatsView, m: ServerMessageView) -> bool {
    &&& v.chats.contains_key(m.chat_id)
    &&& m.chat_id != 0
    &&& valid_utf8(cipher_bytes(m.content, chat_key(v, m.chat_id)))
}

/// The client's view of a stored message.
pub open spec fn loaded_message(v: ChatsView, m: ServerMessageView) -> MessageView {
    MessageView {
        message_id: m.message_id,
        from_me: v.me == m.sender_id,
        content: decode_utf8(cipher_bytes(m.content, chat_key(v, m.chat_id))),
        status: m.status,
    }
}

/// The chats after each stored message is deciphered and appended to its
/// chat, keys taken from `u`.
pub open spec fn add_loaded_spec(u: ChatsView, ms: Seq<ServerMessageView>) -> ChatsView
    decreases ms.len(),
{
    if ms.len() == 0 {
        u
    } else {
        let m = ms.last();
        add_message_spec(add_loaded_spec(u, ms.drop_last()), m.chat_id, loaded_message(u, m))
    }
}

/// The views of a sequence of stored messages.
pub open spec fn server_messages_view(ms: Seq<ServerMessage>) -> Seq<ServerMessageView> {
    ms.map_values(|m: ServerMessage| m@)
}

/// The views of a sequence of messages.
pub open spec fn messages_view(ms: Seq<Message>) -> Seq<MessageView> {
    ms.map_values(|m: Message| m@)
}

/// Marks as read (status 2) the messages of one side, from the newest
/// back to the first one already read; the other side's messages are
/// passed over.
pub open spec fn mark_read(ms: Seq<MessageView>, from_me: bool) -> Seq<MessageView>
    decreases ms.len(),
{
    if ms.len() == 0 {
        ms
    } else {
        let last = ms.last();
        if last.from_me != from_me {
            mark_read(ms.drop_last(), from_me).push(last)
        } else if last.status == 2 {
            ms
        } else {
            mark_read(ms.drop_last(), from_me).push(MessageView { status: 2, ..last })
        }
    }
}

/// The position of the newest message with id `id`, or `-1`.
pub open spec fn last_index_of_id(ms: Seq<MessageView>, id: i32) -> int
    decreases ms.len(),
{
    if ms.len() == 0 {
        -1
    } else if ms.last().message_id == id {
        ms.len() - 1
    } else {
        last_index_of_id(ms.drop_last(), id)
    }
}

/// The messages with the newest one of id `id` given new content and
/// status; unchanged when no message has that id.
pub open spec fn edit_last(ms: Seq<MessageView>, id: i32, content: Seq<char>, status: i32) -> Seq<
    MessageView,
> {
    let i = last_index_of_id(ms, id);
    if i < 0 {
        ms
    } else {
        ms.update(i, MessageView { content, status, ..ms[i] })
    }
}

/// The chats with the messages of chat `user` replaced by `ms`.
pub open spec fn with_messages(v: ChatsView, user: i32, ms: Seq<MessageView>) -> ChatsView {
    ChatsView {
        chats: v.chats.insert(user, ChatView { messages: ms, ..v.chats[user] }),
        ..v
    }
}

/// The chats after the messages of one side of chat `user` are marked read.
pub open spec fn read_spec(v: ChatsView, user: i32, from_me: bool) -> ChatsView {
    with_messages(v, user, mark_read(v.chats[user].messages, from_me))
}

proof fn lemma_last_index_found(ms: Seq<MessageView>, id: i32, k: int)
    requires
        0 <= k < ms.len(),
        ms[k].message_id == id,
        forall|j: int| k < j < ms.len() ==> ms[j].message_id != id,
    ensures
        last_index_of_id(ms, id) == k,
    decreases ms.len(),
{
    if k < ms.len() - 1 {
        lemma_last_index_found(ms.drop_last(), id, k);
    }
}

proof fn lemma_last_index_absent(ms: Seq<MessageView>, id: i32)
    requires
        forall|j: int| 0 <= j < ms.len() ==> ms[j].message_id != id,
    ensures
        last_index_of_id(ms, id) == -1,
    decreases ms.len(),
{
    if ms.len() > 0 {
        lemma_last_index_absent(ms.drop_last(), id);
    }
}

proof fn lemma_last_index_range(ms: Seq<MessageView>, id: i32)
    ensures
        -1 <= last_index_of_id(ms, id) < ms.len(),
    decreases ms.len(),
{
    if ms.len() > 0 {
        lemma_last_index_range(ms.drop_last(), id);
    }
}

fn replace_at(d: &mut VecDeque<Message>, i: usize, m: Message)
    requires
        i < old(d)@.len(),
    ensures
        messages_view(final(d)@) == messages_view(old(d)@).update(i as int, m@),
{
    let _old = d.remove(i);
    d.insert(i, m);
    assert(d@ =~= old(d)@.update(i as int, m));
    assert(messages_view(d@) =~= messages_view(old(d)@).update(i as int, m@));
}

fn mark_read_in(d: &mut VecDeque<Message>, from_me: bool)
    ensures
        messages_view(final(d)@) == mark_read(messages_view(old(d)@), from_me),
{
    let ghost ms = messages_view(d@);
    let n = d.len();
    let mut i: usize = n;
    assert(ms.take(n as int) =~= ms);
    assert(messages_view(d@).skip(n as int) =~= Seq::<MessageView>::empty());
    assert(mark_read(ms, from_me) =~= mark_read(ms.take(n as int), from_me) + messages_view(d@).skip(n as int));
    while i > 0
        invariant_except_break
            d@.len() == n,
            i <= n,
            ms.len() == n,
            messages_view(d@).take(i as int) == ms.take(i as int),
            mark_read(ms, from_me) == mark_read(ms.take(i as int), from_me) + messages_view(d@).skip(
                i as int,
            ),
        ensures
            messages_view(d@) == mark_read(ms, from_me),
        decreases i,
    {
        let ghost before = messages_view(d@);
        let k = i - 1;
        let cur = d[k].from_me;
        let ghost p = ms.take(i as int);
        assert(p.drop_last() =~= ms.take(k as int));
        assert(p.last() == before[k as int]);
        if cur != from_me {
            assert(mark_read(p, from_me) == mark_read(ms.take(k as int), from_me).push(before[k as int]));
            assert(mark_read(ms.take(k as int), from_me).push(before[k as int]) + before.skip(i as int)
                =~= mark_read(ms.take(k as int), from_me) + before.skip(k as int));
            assert(before.take(k as int) =~= ms.take(k as int));
            i = k;
        } else if d[k].status == 2 {
            assert(mark_read(p, from_me) == p);
            assert(p + before.skip(i as int) =~= before);
            break;
        } else {
            let old_m = d[k].duplicate();
            let updated = Message { status: 2, ..old_m };
            replace_at(d, k, updated);
            proof {
                let after = messages_view(d@);
                assert(mark_read(p, from_me) == mark_read(ms.take(k as int), from_me).push(updated@));
                assert(after.skip(k as int) =~= seq![updated@] + before.skip(i as int));
                assert(mark_read(ms.take(k as int), from_me).push(updated@) + before.skip(i as int)
                    =~= mark_read(ms.take(k as int), from_me) + after.skip(k as int));
                assert(after.take(k as int) =~= ms.take(k as int));
            }
            i = k;
        }
    }
    proof {
        if i == 0 {
            assert(ms.take(0) =~= Seq::<MessageView>::empty());
            assert(messages_view(d@).skip(0) =~= messages_view(d@));
            assert(mark_read(ms.take(0), from_me) + messages_view(d@).skip(0) =~= messages_view(d@));
        }
    }
}

fn edit_last_in(d: &mut VecDeque<Message>, message_id: i32, content: String, status: i32)
    ensures
        messages_view(final(d)@) == edit_last(messages_view(old(d)@), message_id, content@, status),
{
    let ghost ms = messages_view(d@);
    let n = d.len();
    let mut i: usize = n;
    while i > 0
        invariant
            d@ == old(d)@,
            ms == messages_view(old(d)@),
            n == d@.len(),
            i <= n,
            forall|j: int| i <= j < n ==> ms[j].message_id != message_id,
        decreases i,
    {
        let k = i - 1;
        if d[k].message_id == message_id {
            proof {
                lemma_last_index_found(ms, message_id, k as int);
            }
            let old_m = d[k].duplicate();
            let updated = Message { content, status, ..old_m };
            replace_at(d, k, updated);
            return;
        }
        i = k;
    }
    proof {
        lemma_last_index_absent(ms, message_id);
    }
}

impl Chats {
    /// An empty store with id and secret `0`.
    pub fn new() -> (res: Chats)
        ensures
            res@.me == 0,
            res@.a == 0,
            res@.chats == Map::<i32, ChatView>::empty(),
            res@.pending == Seq::<(i32, MessageView)>::empty(),
    {
        let res = Chats { me: 0, chats: HashMap::new(), pending_messages: VecDeque::new(), a: 0 };
        assert(res@.chats =~= Map::<i32, ChatView>::empty());
        assert(res@.pending =~= Seq::<(i32, MessageView)>::empty());
        res
    }

    /// Records the user's own id.
    pub fn set_id(&mut self, id: i32)
        ensures
            final(self)@ == (ChatsView { me: id, ..old(self)@ }),
    {
        self.me = id;
    }

    /// Records the user's secret exponent.
    pub fn set_a(&mut self, a: i32)
        ensures
            final(self)@ == (ChatsView { a, ..old(self)@ }),
    {
        self.a = a;
    }

    fn take_chat(&mut self, user: i32) -> (res: (VecDeque<Message>, i32, i32))
        requires
            old(self)@.chats.contains_key(user),
        ensures
            chat_view(res) == old(self)@.chats[user],
            final(self)@ == (ChatsView { chats: old(self)@.chats.remove(user), ..old(self)@ }),
    {
        let r = self.chats.remove(&user);
        assert(self@.chats =~= old(self)@.chats.remove(user));
        r.unwrap()
    }

    fn put_chat(&mut self, user: i32, e: (VecDeque<Message>, i32, i32))
        ensures
            final(self)@ == (ChatsView { chats: old(self)@.chats.insert(user, chat_view(e)), ..old(self)@ }),
    {
        self.chats.insert(user, e);
        assert(self@.chats =~= old(self)@.chats.insert(user, chat_view(e)));
    }

    /// Records the partner's public value `b` for chat `user`. The chat
    /// must exist.
    pub fn set_b(&mut self, user: i32, b: i32)
        requires
            old(self)@.chats.contains_key(user),
        ensures
            final(self)@ == (ChatsView {
                chats: old(self)@.chats.insert(user, ChatView { b, ..old(self)@.chats[user] }),
                ..old(self)@
            }),
    {
        let (messages, g, _old_b) = self.take_chat(user);
        self.put_chat(user, (messages, g, b));
        assert(self@.chats =~= old(self)@.chats.insert(user, ChatView { b, ..old(self)@.chats[user] }));
    }

    /// The user's secret exponent.
    pub fn get_a(&self) -> (res: i32)
        ensures
            res == self@.a,
    {
        self.a
    }

    /// The partner's public value `b` of chat `user`, which must exist.
    pub fn get_b(&self, user: i32) -> (res: i32)
        requires
            self@.chats.contains_key(user),
        ensures
            res == self@.chats[user].b,
    {
        self.chats.get(&user).unwrap().2
    }

    /// Opens an empty chat `chat_id` with values `g` and `b`, unless the
    /// chat exists, which stays as it was.
    pub fn add_chat(&mut self, chat_id: i32, g: i32, b: i32)
        ensures
            final(self)@ == add_chat_spec(old(self)@, chat_id, g, b),
    {
        if self.chats.contains_key(&chat_id) {
            return;
        }
        let fresh: VecDeque<Message> = VecDeque::new();
        assert(chat_view((fresh, g, b)).messages =~= Seq::<MessageView>::empty());
        self.put_chat(chat_id, (fresh, g, b));
    }

    fn add_message(&mut self, user: i32, message_id: i32, content: String, from_me: bool, status: i32)
        -> (res: Message)
        ensures
            res@ == (MessageView { message_id, from_me, content: content@, status }),
            final(self)@ == add_message_spec(old(self)@, user, res@),
    {
        let message = Message { message_id, from_me, content, status };
        if self.chats.contains_key(&user) {
            let (mut chat, g, b) = self.take_chat(user);
            chat.push_back(message.duplicate());
            self.put_chat(user, (chat, g, b));
            proof {
                assert(chat_view((chat, g, b)).messages =~= old(self)@.chats[user].messages.push(message@));
                assert(self@.chats =~= add_message_spec(old(self)@, user, message@).chats);
            }
        }
        message
    }

    /// Queues a message the user has just sent to chat `user`; it joins
    /// the chat when the server answers with its id.
    pub fn pend_message(&mut self, user: i32, content: String)
        ensures
            final(self)@ == pend_spec(old(self)@, user, content@),
    {
        let message = Message { message_id: 0, from_me: true, content, status: 1 };
        self.pending_messages.push_back((user, message));
        assert(self@.pending =~= pend_spec(old(self)@, user, content@).pending);
    }

    /// Takes the oldest pending message, gives it the server's id and
    /// appends it to its chat. The queue must not be empty and the chat
    /// must exist.
    pub fn sent_message(&mut self, message_id: i32) -> (res: (i32, Message))
        requires
            old(self)@.pending.len() > 0,
            old(self)@.chats.contains_key(old(self)@.pending[0].0),
        ensures
            (res.0, res.1@) == sent_entry(old(self)@, message_id),
            final(self)@ == sent_spec(old(self)@, message_id),
    {
        let (user, mut m) = self.pending_messages.pop_front().unwrap();
        assert(self@.pending =~= old(self)@.pending.drop_first());
        m.message_id = message_id;
        let (mut chat, g, b) = self.take_chat(user);
        chat.push_back(m.duplicate());
        self.put_chat(user, (chat, g, b));
        proof {
            assert(chat_view((chat, g, b)).messages =~= old(self)@.chats[user].messages.push(m@));
            assert(self@.chats =~= sent_spec(old(self)@, message_id).chats);
        }
        (user, m)
    }

    /// Appends a message received from the partner to chat `user`, as
    /// unread; nothing is stored when there is no such chat.
    pub fn received_message(&mut self, user: i32, message_id: i32, content: String) -> (res: Message)
        ensures
            res@ == (MessageView { message_id, from_me: false, content: content@, status: 1 }),
            final(self)@ == add_message_spec(old(self)@, user, res@),
    {
        self.add_message(user, message_id, content, false, 1)
    }

    /// The messages of chat `user`, which must exist.
    pub fn get_chat(&self, user: i32) -> (res: &VecDeque<Message>)
        requires
            self@.chats.contains_key(user),
        ensures
            res@.map_values(|m: Message| m@) == self@.chats[user].messages,
    {
        &self.chats.get(&user).unwrap().0
    }

    fn set_read(&mut self, user: i32, from_me: bool)
        requires
            old(self)@.chats.contains_key(user),
        ensures
            final(self)@ == read_spec(old(self)@, user, from_me),
    {
        let (mut chat, g, b) = self.take_chat(user);
        mark_read_in(&mut chat, from_me);
        self.put_chat(user, (chat, g, b));
        assert(self@.chats =~= read_spec(old(self)@, user, from_me).chats);
    }

    /// The partner has read chat `user`: the user's own messages are
    /// marked read, newest first, up to the first one already read. The
    /// chat must exist.
    pub fn my_message_read(&mut self, user: i32)
        requires
            old(self)@.chats.contains_key(user),
        ensures
            final(self)@ == read_spec(old(self)@, user, true),
    {
        self.set_read(user, true)
    }

    /// The user has read chat `user`: the partner's messages are marked
    /// read, newest first, up to the first one already read. The chat must
    /// exist.
    pub fn other_message_read(&mut self, user: i32)
        requires
            old(self)@.chats.contains_key(user),
        ensures
            final(self)@ == read_spec(old(self)@, user, false),
    {
        self.set_read(user, false)
    }

    /// Deletes the newest message with id `message_id` in chat `user`: its
    /// text is emptied and its status set to 3. The chat must exist.
    pub fn delete(&mut self, user: i32, message_id: i32)
        requires
            old(self)@.chats.contains_key(user),
        ensures
            final(self)@ == with_messages(
                old(self)@,
                user,
                edit_last(old(self)@.chats[user].messages, message_id, Seq::<char>::empty(), 3),
            ),
    {
        let (mut chat, g, b) = self.take_chat(user);
        edit_last_in(&mut chat, message_id, String::new(), 3);
        self.put_chat(user, (chat, g, b));
        assert(self@.chats =~= with_messages(
            old(self)@,
            user,
            edit_last(old(self)@.chats[user].messages, message_id, Seq::<char>::empty(), 3),
        ).chats);
    }

    /// Edits the newest message with id `message_id` in chat `user`: it
    /// gets the text `content` and status 4. The chat must exist.
    pub fn update(&mut self, user: i32, message_id: i32, content: &str)
        requires
            old(self)@.chats.contains_key(user),
        ensures
            final(self)@ == with_messages(
                old(self)@,
                user,
                edit_last(old(self)@.chats[user].messages, message_id, content@, 4),
            ),
    {
        let (mut chat, g, b) = self.take_chat(user);
        edit_last_in(&mut chat, message_id, content.to_owned(), 4);
        self.put_chat(user, (chat, g, b));
        assert(self@.chats =~= with_messages(
            old(self)@,
            user,
            edit_last(old(self)@.chats[user].messages, message_id, content@, 4),
        ).chats);
    }

    /// Loads what the server sent at login: opens the chats of the JSON
    /// triples `(chat_id, g, b)` in `chats`, then deciphers each stored
    /// message with its chat's key and appends it to its chat.
    ///
    /// Returns `false` when `chats` is not such
    /// JSON (nothing changes), or when a message cannot be deciphered (the
    /// chats are opened, no message is added). App code panics on `false`.
    pub fn load(&mut self, messages: Vec<ServerMessage>, chats: &str) -> (res: bool)
        ensures
            match json_i32_triples(chats@) {
                None => !res && final(self)@ == old(self)@,
                Some(ts) => {
                    let u = add_chats_spec(old(self)@, ts);
                    let ms = server_messages_view(messages@);
                    &&& res == (forall|i: int| 0 <= i < ms.len() ==> loadable(u, #[trigger] ms[i]))
                    &&& res ==> final(self)@ == add_loaded_spec(u, ms)
                    &&& !res ==> final(self)@ == u
                },
            },
    {
        let empty_chats = match parse_i32_triples(chats) {
            Some(v) => v,
            None => return false,
        };
        let n = empty_chats.len();
        let mut i: usize = 0;
        while i < n
            invariant
                n == empty_chats@.len(),
                i <= n,
                self@ == add_chats_spec(old(self)@, empty_chats@.take(i as int)),
            decreases n - i,
        {
            let (p, g, b) = empty_chats[i];
            self.add_chat(p, g, b);
            assert(empty_chats@.take(i + 1).drop_last() =~= empty_chats@.take(i as int));
            i = i + 1;
        }
        assert(empty_chats@.take(n as int) =~= empty_chats@);
        let ghost u = self@;
        let ghost ms = server_messages_view(messages@);
        let k = messages.len();
        let mut decrypted: Vec<String> = Vec::new();
        let mut j: usize = 0;
        while j < k
            invariant
                self@ == u,
                json_i32_triples(chats@) == Some(empty_chats@),
                u == add_chats_spec(old(self)@, empty_chats@),
                k == messages@.len(),
                ms == server_messages_view(messages@),
                j <= k,
                decrypted@.len() == j,
                forall|t: int| 0 <= t < j ==> loadable(u, #[trigger] ms[t]),
                forall|t: int| 0 <= t < j ==> (#[trigger] decrypted@[t])@ == loaded_message(u, ms[t]).content,
            decreases k - j,
        {
            let m = &messages[j];
            let c = m.chat_id;
            if !self.chats.contains_key(&c) || c == 0 {
                assert(!loadable(u, ms[j as int]));
                return false;
            }
            assert(c != 0 ==> (c as u64) != 0) by (bit_vector);
            let key = modular_pow(self.get_b(c) as u64, self.get_a() as u64, c as u64) as i32;
            match xor_encrypt_checked(m.content.as_str(), key) {
                Some(text) => {
                    decrypted.push(text);
                },
                None => {
                    assert(!loadable(u, ms[j as int]));
                    return false;
                },
            }
            j = j + 1;
        }
        let mut j: usize = 0;
        while j < k
            invariant
                json_i32_triples(chats@) == Some(empty_chats@),
                u == add_chats_spec(old(self)@, empty_chats@),
                forall|t: int| 0 <= t < k ==> loadable(u, #[trigger] ms[t]),
                k == messages@.len(),
                ms == server_messages_view(messages@),
                j <= k,
                decrypted@.len() == k,
                forall|t: int| 0 <= t < k ==> (#[trigger] decrypted@[t])@ == loaded_message(u, ms[t]).content,
                self@ == add_loaded_spec(u, ms.take(j as int)),
            decreases k - j,
        {
            let m = &messages[j];
            let from_me = m.sender_id == self.me;
            proof {
                assert(ms.take(j + 1).drop_last() =~= ms.take(j as int));
                assert(self@.me == u.me) by {
                    lemma_add_loaded_keeps(u, ms.take(j as int));
                }
            }
            let text = decrypted[j].clone();
            self.add_message(m.chat_id, m.message_id, text, from_me, m.status);
            j = j + 1;
        }
        assert(ms.take(k as int) =~= ms);
        true
    }

    /// The chat of the oldest pending message, if any.
    pub fn next_pending_chat(&self) -> (res: Option<i32>)
        ensures
            match res {
                Some(user) => self@.pending.len() > 0 && user == self@.pending[0].0,
                None => self@.pending.len() == 0,
            },
    {
        if self.pending_messages.len() == 0 {
            None
        } else {
            Some(self.pending_messages[0].0)
        }
    }

    /// Whether chat `chat_id` exists.
    pub fn is_chat(&self, chat_id: i32) -> (res: bool)
        ensures
            res == self@.chats.contains_key(chat_id),
    {
        self.chats.contains_key(&chat_id)
    }

    /// Whether `user` is the user's own id.
    pub fn is_me(&self, user: i32) -> (res: bool)
        ensures
            res == (self@.me == user),
    {
        self.me == user
    }
}

proof fn lemma_add_loaded_keeps(u: ChatsView, ms: Seq<ServerMessageView>)
    ensures
        add_loaded_spec(u, ms).me == u.me,
        add_loaded_spec(u, ms).a == u.a,
    decreases ms.len(),
{
    if ms.len() > 0 {
        lemma_add_loaded_keeps(u, ms.drop_last());
    }
}

proof fn lemma_mark_read_idempotent(ms: Seq<MessageView>, from_me: bool)
    ensures
        mark_read(mark_read(ms, from_me), from_me) == mark_read(ms, from_me),
    decreases ms.len(),
{
    if ms.len() > 0 {
        let init = ms.drop_last();
        let last = ms.last();
        lemma_mark_read_idempotent(init, from_me);
        if last.from_me != from_me {
            let r = mark_read(init, from_me).push(last);
            assert(r.drop_last() =~= mark_read(init, from_me));
        } else if last.status == 2 {
        } else {
            let r = mark_read(init, from_me).push(MessageView { status: 2, ..last });
            assert(r.last().status == 2);
        }
    }
}

/// Marking a chat read a second time changes nothing.
pub proof fn lemma_read_twice(v: ChatsView, user: i32, from_me: bool)
    requires
        v.chats.contains_key(user),
    ensures
        read_spec(read_spec(v, user, from_me), user, from_me) == read_spec(v, user, from_me),
{
    lemma_mark_read_idempotent(v.chats[user].messages, from_me);
    let once = read_spec(v, user, from_me);
    assert(read_spec(once, user, from_me).chats =~= once.chats);
}

/// Opening a chat that is already open changes nothing: the first values
/// of `g` and `b` stay.
pub proof fn lemma_add_chat_keeps_first(v: ChatsView, chat_id: i32, g1: i32, b1: i32, g2: i32, b2: i32)
    ensures
        add_chat_spec(add_chat_spec(v, chat_id, g1, b1), chat_id, g2, b2) == add_chat_spec(
            v,
            chat_id,
            g1,
            b1,
        ),
{
}

/// A message sent while nothing else waits for an id joins its chat,
/// from the user, unread, with the id the server answers.
pub proof fn lemma_pend_then_sent(v: ChatsView, user: i32, content: Seq<char>, message_id: i32)
    requires
        v.pending.len() == 0,
        v.chats.contains_key(user),
    ensures
        sent_spec(pend_spec(v, user, content), message_id) == add_message_spec(
            v,
            user,
            MessageView { message_id, from_me: true, content, status: 1 },
        ),
{
    let p = pend_spec(v, user, content);
    assert(p.pending.drop_first() =~= v.pending);
}

/// The server's ids are handed out in the order the messages were sent:
/// queueing a message and acknowledging the oldest one commute.
pub proof fn lemma_sent_in_order(v: ChatsView, user: i32, content: Seq<char>, message_id: i32)
    requires
        v.pending.len() > 0,
    ensures
        sent_spec(pend_spec(v, user, content), message_id) == pend_spec(
            sent_spec(v, message_id),
            user,
            content,
        ),
{
    let p = pend_spec(v, user, content);
    assert(p.pending[0] == v.pending[0]);
    assert(p.pending.drop_first() =~= v.pending.drop_first().push((user, pending_message(content))));
}

/// The stored messages of chat `c`, in the order they came.
pub open spec fn stored_for(ms: Seq<ServerMessageView>, c: i32) -> Seq<ServerMessageView> {
    ms.filter(|m: ServerMessageView| m.chat_id == c)
}

/// Loading stored messages keeps what the user had and appends, to each
/// known chat, that chat's stored messages in order, each with the id,
/// sender side and status the server stored (a read, deleted or edited
/// message stays so) and its text deciphered with the chat's key. Nothing
/// else changes: no chat is opened or closed, and the user's id, secret
/// and pending queue stay.
pub proof fn lemma_load_appends_stored(u: ChatsView, ms: Seq<ServerMessageView>)
    ensures
        ({
            let w = add_loaded_spec(u, ms);
            &&& w.me == u.me
            &&& w.a == u.a
            &&& w.pending == u.pending
            &&& w.chats.dom() == u.chats.dom()
            &&& forall|c: i32| #[trigger] u.chats.contains_key(c) ==> {
                let before = u.chats[c].messages;
                let after = w.chats[c].messages;
                let st = stored_for(ms, c);
                &&& w.chats[c].g == u.chats[c].g
                &&& w.chats[c].b == u.chats[c].b
                &&& after.len() == before.len() + st.len()
                &&& forall|k: int| 0 <= k < before.len() ==> after[k] == before[k]
                &&& forall|k: int| 0 <= k < st.len() ==> {
                    let got = #[trigger] after[before.len() + k];
                    &&& got.message_id == st[k].message_id
                    &&& got.status == st[k].status
                    &&& got.from_me == (u.me == st[k].sender_id)
                    &&& got.content == decode_utf8(cipher_bytes(st[k].content, chat_key(u, c)))
                }
            }
        }),
    decreases ms.len(),
{
    reveal(Seq::filter);
    if ms.len() > 0 {
        let init = ms.drop_last();
        let m = ms.last();
        lemma_load_appends_stored(u, init);
        let w0 = add_loaded_spec(u, init);
        let w = add_loaded_spec(u, ms);
        assert(w == add_message_spec(w0, m.chat_id, loaded_message(u, m)));
        assert(w.chats.dom() =~= u.chats.dom());
        assert forall|c: i32| #[trigger] u.chats.contains_key(c) implies {
            let before = u.chats[c].messages;
            let after = w.chats[c].messages;
            let st = stored_for(ms, c);
            &&& w.chats[c].g == u.chats[c].g
            &&& w.chats[c].b == u.chats[c].b
            &&& after.len() == before.len() + st.len()
            &&& forall|k: int| 0 <= k < before.len() ==> after[k] == before[k]
            &&& forall|k: int| 0 <= k < st.len() ==> {
                let got = #[trigger] after[before.len() + k];
                &&& got.message_id == st[k].message_id
                &&& got.status == st[k].status
                &&& got.from_me == (u.me == st[k].sender_id)
                &&& got.content == decode_utf8(cipher_bytes(st[k].content, chat_key(u, c)))
            }
        } by {
            let before = u.chats[c].messages;
            let after0 = w0.chats[c].messages;
            let st0 = stored_for(init, c);
            let after = w.chats[c].messages;
            let st = stored_for(ms, c);
            if m.chat_id == c {
                assert(st == st0.push(m));
                assert(after == after0.push(loaded_message(u, m)));
                assert forall|k: int| 0 <= k < st.len() implies {
                    let got = #[trigger] after[before.len() + k];
                    &&& got.message_id == st[k].message_id
                    &&& got.status == st[k].status
                    &&& got.from_me == (u.me == st[k].sender_id)
                    &&& got.content == decode_utf8(cipher_bytes(st[k].content, chat_key(u, c)))
                } by {
                    if k < st0.len() {
                        assert(after[before.len() + k] == after0[before.len() + k]);
                        assert(st[k] == st0[k]);
                    }
                }
                assert forall|k: int| 0 <= k < before.len() implies after[k] == before[k] by {
                    assert(after[k] == after0[k]);
                }
            } else {
                assert(st == st0);
                assert(after == after0);
            }
        }
    }
}

/// Message `j` is the newest of `ms` with id `id`.
pub open spec fn is_newest(ms: Seq<MessageView>, j: int, id: i32) -> bool {
    &&& ms[j].message_id == id
    &&& forall|j2: int| j < j2 < ms.len() ==> (#[trigger] ms[j2]).message_id != id
}

/// `after` is `before` with the newest message of id `id`, if any, given
/// the text `content` and the status `status`; every message keeps its
/// place, id and side, and all others are unchanged.
pub open spec fn edits_newest(
    before: Seq<MessageView>,
    after: Seq<MessageView>,
    id: i32,
    content: Seq<char>,
    status: i32,
) -> bool {
    &&& after.len() == before.len()
    &&& forall|j: int| 0 <= j < before.len() ==> (#[trigger] after[j]).message_id == before[j].message_id
        && after[j].from_me == before[j].from_me
    &&& forall|j: int| 0 <= j < before.len() && is_newest(before, j, id) ==> (#[trigger] after[j]).content
        == content && after[j].status == status
    &&& forall|j: int| 0 <= j < before.len() && !is_newest(before, j, id) ==> #[trigger] after[j] == before[j]
}

proof fn lemma_last_index_newest(ms: Seq<MessageView>, id: i32)
    ensures
        last_index_of_id(ms, id) >= 0 ==> is_newest(ms, last_index_of_id(ms, id), id),
        last_index_of_id(ms, id) < 0 ==> forall|j: int| 0 <= j < ms.len() ==> (#[trigger] ms[j]).message_id != id,
    decreases ms.len(),
{
    lemma_last_index_range(ms, id);
    if ms.len() > 0 && ms.last().message_id != id {
        let init = ms.drop_last();
        lemma_last_index_newest(init, id);
        lemma_last_index_range(init, id);
        let k = last_index_of_id(ms, id);
        assert(k == last_index_of_id(init, id));
        if k >= 0 {
            assert(ms[k] == init[k]);
            assert forall|j2: int| k < j2 < ms.len() implies (#[trigger] ms[j2]).message_id != id by {
                if j2 < init.len() {
                    assert(ms[j2] == init[j2]);
                }
            }
        } else {
            assert forall|j: int| 0 <= j < ms.len() implies (#[trigger] ms[j]).message_id != id by {
                if j < init.len() {
                    assert(ms[j] == init[j]);
                }
            }
        }
    }
}

/// Editing or deleting a message changes exactly the newest message with
/// that id: it gets the new text and status, keeping its place, id and
/// side; every other message stays as it was, and none is added or lost.
pub proof fn lemma_edit_last_edits_newest(ms: Seq<MessageView>, id: i32, content: Seq<char>, status: i32)
    ensures
        edits_newest(ms, edit_last(ms, id, content, status), id, content, status),
{
    lemma_last_index_newest(ms, id);
    lemma_last_index_range(ms, id);
    let i = last_index_of_id(ms, id);
    let r = edit_last(ms, id, content, status);
    assert forall|j: int| 0 <= j < ms.len() && is_newest(ms, j, id) implies j == i by {
        if i >= 0 && j != i {
            if j < i {
                assert(ms[i].message_id == id);
            } else {
                assert(ms[j].message_id == id);
            }
        }
    }
}

/// Some message of side `from_me` at `j` or later is read already.
pub open spec fn read_from(ms: Seq<MessageView>, j: int, from_me: bool) -> bool {
    exists|k: int| j <= k < ms.len() && (#[trigger] ms[k]).from_me == from_me && ms[k].status == 2
}

/// Marking one side of a chat read changes only statuses: a message of
/// that side becomes read (status 2) unless it, or a newer message of
/// that side, is read already; the other side's messages, and every
/// message's id, side and text, stay as they were.
pub proof fn lemma_mark_read_marks_unread_tail(ms: Seq<MessageView>, from_me: bool)
    ensures
        mark_read(ms, from_me).len() == ms.len(),
        forall|j: int| 0 <= j < ms.len() && ms[j].from_me == from_me && !read_from(ms, j, from_me) ==> #[trigger] mark_read(ms, from_me)[j]
            == (MessageView { status: 2, ..ms[j] }),
        forall|j: int| 0 <= j < ms.len() && !(ms[j].from_me == from_me && !read_from(ms, j, from_me)) ==> #[trigger] mark_read(ms, from_me)[j]
            == ms[j],
    decreases ms.len(),
{
    if ms.len() > 0 {
        let init = ms.drop_last();
        let last = ms.last();
        let n = ms.len() - 1;
        lemma_mark_read_marks_unread_tail(init, from_me);
        let r = mark_read(ms, from_me);
        if last.from_me == from_me && last.status == 2 {
            assert forall|j: int| 0 <= j < ms.len() && ms[j].from_me == from_me implies read_from(ms, j, from_me) by {
                assert(ms[n].from_me == from_me && ms[n].status == 2);
            }
        } else {
            let ri = mark_read(init, from_me);
            let lm = if last.from_me != from_me { last } else { MessageView { status: 2, ..last } };
            assert(r == ri.push(lm));
            assert forall|j: int| 0 <= j < n implies read_from(ms, j, from_me) == read_from(init, j, from_me) by {
                if read_from(ms, j, from_me) {
                    let k = choose|k: int| j <= k < ms.len() && (#[trigger] ms[k]).from_me == from_me && ms[k].status == 2;
                    assert(k < n);
                    assert(init[k] == ms[k]);
                }
                if read_from(init, j, from_me) {
                    let k = choose|k: int| j <= k < init.len() && (#[trigger] init[k]).from_me == from_me && init[k].status == 2;
                    assert(init[k] == ms[k]);
                }
            }
            assert(!read_from(ms, n, from_me) || last.from_me != from_me) by {
                if read_from(ms, n, from_me) {
                    let k = choose|k: int| n <= k < ms.len() && (#[trigger] ms[k]).from_me == from_me && ms[k].status == 2;
                    assert(k == n);
                }
            }
            assert forall|j: int| 0 <= j < ms.len() && ms[j].from_me == from_me && !read_from(ms, j, from_me) implies #[trigger] r[j]
                == (MessageView { status: 2, ..ms[j] }) by {
                if j < n {
                    assert(init[j] == ms[j]);
                    assert(r[j] == ri[j]);
                }
            }
            assert forall|j: int| 0 <= j < ms.len() && !(ms[j].from_me == from_me && !read_from(ms, j, from_me)) implies #[trigger] r[j]
                == ms[j] by {
                if j < n {
                    assert(init[j] == ms[j]);
                    assert(r[j] == ri[j]);
                }
            }
        }
    }
}

} // verus!
