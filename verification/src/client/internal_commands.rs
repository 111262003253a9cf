//! Queries the client's interface makes on its own store.

use std::collections::VecDeque;
use vstd::prelude::*;
use crate::client::chats::{messages_view, Chats, Message, MessageView};
use crate::text::{contains, contains_text};

verus! {

/// The messages of chat `user`, copied; the chat must exist.
pub fn switch_chat(user: i32, chats: &Chats) -> (res: VecDeque<Message>)
    requires
        chats@.chats.contains_key(user),
    ensures
        messages_view(res@) == chats@.chats[user].messages,
{
    let chat = chats.get_chat(user);
    let mut out: VecDeque<Message> = VecDeque::new();
    let n = chat.len();
    let mut i: usize = 0;
    while i < n
        invariant
            n == chat@.len(),
            i <= n,
            messages_view(chat@) == chats@.chats[user].messages,
            messages_view(out@) =~= messages_view(chat@).take(i as int),
        decreases n - i,
    {
        let ghost before = out@;
        let m = chat[i].duplicate();
        out.push_back(m);
        assert(messages_view(out@) =~= messages_view(before).push(m@));
        assert(messages_view(chat@).take(i + 1) =~= messages_view(chat@).take(i as int).push(chat@[i as int]@));
        i = i + 1;
    }
    assert(messages_view(chat@).take(n as int) =~= messages_view(chat@));
    out
}

/// The ids of the messages, oldest first, whose text contains `p`.
pub open spec fn matching_ids(ms: Seq<MessageView>, p: Seq<char>) -> Seq<i32>
    decreases ms.len(),
{
    if ms.len() == 0 {
        Seq::empty()
    } else {
        let rest = matching_ids(ms.drop_last(), p);
        if contains_text(ms.last().content, p) {
            rest.push(ms.last().message_id)
        } else {
            rest
        }
    }
}

/// The ids of the messages of chat `user` whose text contains `message`,
/// oldest first. The chat must exist.
pub fn search(user: i32, message: String, chats: &Chats) -> (res: Vec<i32>)
    requires
        chats@.chats.contains_key(user),
    ensures
        res@ == matching_ids(chats@.chats[user].messages, message@),
{
    let chat = chats.get_chat(user);
    let ghost ms = chats@.chats[user].messages;
    let mut out: Vec<i32> = Vec::new();
    let n = chat.len();
    let mut i: usize = 0;
    while i < n
        invariant
            n == chat@.len(),
            i <= n,
            messages_view(chat@) == ms,
            out@ == matching_ids(ms.take(i as int), message@),
        decreases n - i,
    {
        assert(ms.take(i + 1).drop_last() =~= ms.take(i as int));
        assert(ms.take(i + 1).last() == chat@[i as int]@);
        if contains(chat[i].content.as_str(), message.as_str()) {
            out.push(chat[i].message_id);
        }
        i = i + 1;
    }
    assert(ms.take(n as int) =~= ms);
    out
}

/// The messages whose text contains `p`, in chat order.
pub open spec fn containing(ms: Seq<MessageView>, p: Seq<char>) -> Seq<MessageView> {
    ms.filter(|m: MessageView| contains_text(m.content, p))
}

/// A search finds every message of the chat whose text contains the
/// pattern, and no other, oldest first, whoever wrote it: its ids are
/// those of the messages that the filter "text contains `p`" keeps.
pub proof fn lemma_search_finds_every_match(ms: Seq<MessageView>, p: Seq<char>)
    ensures
        matching_ids(ms, p) == containing(ms, p).map_values(|m: MessageView| m.message_id),
        forall|i: int| 0 <= i < containing(ms, p).len() ==> contains_text(#[trigger] containing(ms, p)[i].content, p),
    decreases ms.len(),
{
    reveal(Seq::filter);
    if ms.len() > 0 {
        let init = ms.drop_last();
        lemma_search_finds_every_match(init, p);
        let f = containing(init, p);
        if contains_text(ms.last().content, p) {
            assert(containing(ms, p) == f.push(ms.last()));
            assert(f.push(ms.last()).map_values(|m: MessageView| m.message_id) =~= f.map_values(
                |m: MessageView| m.message_id,
            ).push(ms.last().message_id));
            assert forall|i: int| 0 <= i < containing(ms, p).len() implies contains_text(
                #[trigger] containing(ms, p)[i].content,
                p,
            ) by {
                if i < f.len() {
                    assert(containing(ms, p)[i] == f[i]);
                }
            }
        } else {
            assert(containing(ms, p) == f);
        }
    }
}

} // verus!
