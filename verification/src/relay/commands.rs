//! The requests of the relay server.

use vstd::prelude::*;
use crate::relay::message::Message;
use crate::text::{split_once, split_once_spec, trim_crlf, trim_crlf_spec};

verus! {

/// A request to the relay's manager. A new user's connection stays with
/// the caller; `Add` carries the name.
pub enum Command {
    Add { name: String },
    Connect { me: String, other: String },
    Send { message: Message },
    Remove { name: String },
    GET { name: String },
}

impl Command {
    /// `receiver;text` from user `name`: a message to relay. `Err` with an
    /// empty text when there is no `;` or no receiver before it.
    pub fn send(content: &str, name: String) -> (res: Result<Command, String>)
        ensures
            match split_once_spec(content@, ';') {
                Some((n, m)) => if n.len() > 0 {
                    res matches Ok(Command::Send { message }) && message@ == (name@, n, m)
                } else {
                    res matches Err(e) && e@.len() == 0
                },
                None => res matches Err(e) && e@.len() == 0,
            },
    {
        match split_once(content, ';') {
            Some((n, m)) => {
                if n.unicode_len() > 0 {
                    Ok(Command::Send { message: Message::new(name, n.to_owned(), m.to_owned()) })
                } else {
                    Err(String::new())
                }
            },
            None => Err(String::new()),
        }
    }

    /// User `name` befriends `other`; trailing `"\r\n"` are cut off the
    /// other's name.
    pub fn connect(other: &str, name: String) -> (res: Result<Command, String>)
        ensures
            res matches Ok(Command::Connect { me, other: o }) && me@ == name@ && o@ == trim_crlf_spec(
                other@,
            ),
    {
        let other = trim_crlf(other).to_owned();
        Ok(Command::Connect { me: name, other })
    }
}

} // verus!
