//! A relayed message.

use vstd::prelude::*;
use vstd::string::*;
use crate::text::{split_once, split_once_spec};

verus! {

/// A message from one named user to another.
pub struct Message {
    sender: String,
    receiver: String,
    content: String,
}

/// The mathematical value of a relayed message: sender, receiver, text.
pub type MessageView = (Seq<char>, Seq<char>, Seq<char>);

impl View for Message {
    type V = MessageView;

    closed spec fn view(&self) -> MessageView {
        (self.sender@, self.receiver@, self.content@)
    }
}

impl Message {
    /// A message from `sender` to `receiver`.
    pub fn new(sender: String, receiver: String, content: String) -> (res: Message)
        ensures
            res@ == (sender@, receiver@, content@),
    {
        Message { sender, receiver, content }
    }

    /// The receiver, and the line they are shown: `sender: text`.
    pub fn parse(self) -> (res: (String, String))
        ensures
            res.0@ == self@.1,
            res.1@ == self@.0 + ": "@ + self@.2,
    {
        let mut line = self.sender;
        line.append(": ");
        line.append(self.content.as_str());
        (self.receiver, line)
    }
}

/// A line typed by user `name`: `receiver:text`. `None` when there is no
/// `:` or no receiver before it.
pub fn receive(name: &str, line: &str) -> (res: Option<Message>)
    ensures
        match split_once_spec(line@, ':') {
            Some((n, m)) => if n.len() > 0 {
                res matches Some(msg) && msg@ == (name@, n, m)
            } else {
                res is None
            },
            None => res is None,
        },
{
    match split_once(line, ':') {
        Some((n, m)) => {
            if n.unicode_len() > 0 {
                Some(Message::new(name.to_owned(), n.to_owned(), m.to_owned()))
            } else {
                None
            }
        },
        None => None,
    }
}

} // verus!
