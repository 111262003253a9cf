//! A chat message as the server stores and relays it.

use vstd::prelude::*;

verus! {

/// A message of a chat. Status 1 is sent, 2 read, 3 deleted, 4 edited.
pub struct Message {
    pub message_id: i32,
    pub chat_id: i32,
    pub sender_id: i32,
    pub content: String,
    pub status: i32,
}

impl Message {
    /// A message not yet stored: its id is `0` until the database gives
    /// one.
    pub fn new(chat_id: i32, sender_id: i32, content: String, status: i32) -> (res: Message)
        ensures
            res.message_id == 0,
            res.chat_id == chat_id,
            res.sender_id == sender_id,
            res.content@ == content@,
            res.status == status,
    {
        Message { message_id: 0, chat_id, sender_id, content, status }
    }

    /// A stored message with every field given, as an edit carries it.
    pub fn update(message_id: i32, chat_id: i32, sender_id: i32, content: String, status: i32) -> (res:
        Message)
        ensures
            res.message_id == message_id,
            res.chat_id == chat_id,
            res.sender_id == sender_id,
            res.content@ == content@,
            res.status == status,
    {
        Message { message_id, chat_id, sender_id, content, status }
    }

    /// The text of the message.
    pub fn get_content(&self) -> (res: &str)
        ensures
            res@ == self.content@,
    {
        self.content.as_str()
    }
}

} // verus!
