//! The requests a logged-in connection sends, parsed from the text after
//! the command name of a line.

use vstd::prelude::*;
use crate::server::message::Message;
use crate::text::{parse_i32, parse_i32_spec, split, split_once, split_once_spec, split_spec, str_eq};

verus! {

/// Which list a `GET` request asks for.
pub enum GetTypes {
    ALL,
    PENDING,
    FRIENDS,
    BLOCKED,
}

/// A request to the manager. A login carries its connection's writer and
/// reply channel beside it, with the caller.
pub enum Command {
    Add { name_pass: String },
    Register { name_pass: String },
    Connect { id: i32, other: i32 },
    Send { message: Message },
    Remove { id: i32 },
    GET { t: GetTypes, id: i32 },
    Status { chat_id: i32, id: i32 },
    Delete { chat_id: i32, id: i32, message_id: i32 },
    Update { message: Message },
    Block { id: i32, other: i32 },
    Unblock { id: i32, other: i32 },
    Testing_Clear,
}

/// The chat id of an `SND` request is a number, where there is one.
pub open spec fn send_requires(content: Seq<char>) -> bool {
    split_once_spec(content, ';') matches Some((c, _)) ==> parse_i32_spec(c) is Some
}

/// The two ids of a `DEL` request are there and are numbers.
pub open spec fn delete_requires(content: Seq<char>) -> bool {
    split_once_spec(content, ';') matches Some((c, m)) && parse_i32_spec(c) is Some
        && parse_i32_spec(m) is Some
}

/// An `UPD` request has three arguments, the first two numbers.
pub open spec fn update_requires(content: Seq<char>) -> bool {
    let args = split_spec(content, ';');
    args.len() >= 3 && parse_i32_spec(args[0]) is Some && parse_i32_spec(args[1]) is Some
}

/// What `Command::send` gives for `content`.
pub open spec fn send_post(content: Seq<char>, id: i32, res: Result<Command, ()>) -> bool {
    match split_once_spec(content, ';') {
        None => res is Err,
        Some((c, m)) => res matches Ok(Command::Send { message }) && message.message_id == 0
            && message.chat_id == parse_i32_spec(c)->0 && message.sender_id == id && message.content@
            == m && message.status == 1,
    }
}

/// What `Command::status` gives for `content`.
pub open spec fn status_post(content: Seq<char>, id: i32, res: Result<Command, ()>) -> bool {
    res matches Ok(Command::Status { chat_id, id: i }) && chat_id == parse_i32_spec(content)->0 && i
        == id
}

/// What `Command::delete` gives for `content`.
pub open spec fn delete_post(content: Seq<char>, id: i32, res: Result<Command, ()>) -> bool {
    let (c, m) = split_once_spec(content, ';')->0;
    res matches Ok(Command::Delete { chat_id, id: i, message_id }) && chat_id == parse_i32_spec(c)->0
        && i == id && message_id == parse_i32_spec(m)->0
}

/// What `Command::update` gives for `content`.
pub open spec fn update_post(content: Seq<char>, id: i32, res: Result<Command, ()>) -> bool {
    let args = split_spec(content, ';');
    res matches Ok(Command::Update { message }) && message.chat_id == parse_i32_spec(args[0])->0
        && message.message_id == parse_i32_spec(args[1])->0 && message.sender_id == id
        && message.content@ == args[2] && message.status == 4
}

/// What `Command::get` gives for `content`.
pub open spec fn get_post(content: Seq<char>, id: i32, res: Result<Command, ()>) -> bool {
    if content == "ALL"@ {
        res matches Ok(Command::GET { t: GetTypes::ALL, id: i }) && i == id
    } else if content == "FRD"@ {
        res matches Ok(Command::GET { t: GetTypes::FRIENDS, id: i }) && i == id
    } else if content == "BLK"@ {
        res matches Ok(Command::GET { t: GetTypes::BLOCKED, id: i }) && i == id
    } else if content == "PND"@ {
        res matches Ok(Command::GET { t: GetTypes::PENDING, id: i }) && i == id
    } else {
        res is Err
    }
}

/// What `Command::connect` gives for `content`.
pub open spec fn connect_post(content: Seq<char>, id: i32, res: Result<Command, ()>) -> bool {
    res matches Ok(Command::Connect { id: i, other }) && i == id && other == parse_i32_spec(content)->0
}

/// What `Command::block` gives for `content`.
pub open spec fn block_post(content: Seq<char>, id: i32, res: Result<Command, ()>) -> bool {
    res matches Ok(Command::Block { id: i, other }) && i == id && other == parse_i32_spec(content)->0
}

/// What `Command::unblock` gives for `content`.
pub open spec fn unblock_post(content: Seq<char>, id: i32, res: Result<Command, ()>) -> bool {
    res matches Ok(Command::Unblock { id: i, other }) && i == id && other == parse_i32_spec(content)->0
}

impl Command {
    /// `SND;chat_id;text`: a message to send in a chat; it is status 1
    /// and has no id yet. `Err` when there is no `;`. The chat id must be a
    /// number.
    pub fn send(content: &str, id: i32) -> (res: Result<Command, ()>)
        requires
            send_requires(content@),
        ensures
            send_post(content@, id, res),
    {
        match split_once(content, ';') {
            Some((chat_id, message)) => {
                let chat_id = parse_i32(chat_id).unwrap();
                Ok(Command::Send { message: Message::new(chat_id, id, message.to_owned(), 1) })
            },
            None => Err(()),
        }
    }

    /// `STS;chat_id`: the user read chat `chat_id`. The id must be a
    /// number.
    pub fn status(content: &str, id: i32) -> (res: Result<Command, ()>)
        requires
            parse_i32_spec(content@) is Some,
        ensures
            status_post(content@, id, res),
    {
        Ok(Command::Status { chat_id: parse_i32(content).unwrap(), id })
    }

    /// `DEL;chat_id;message_id`: the user deleted a message. Both ids must
    /// be there and be numbers.
    pub fn delete(content: &str, id: i32) -> (res: Result<Command, ()>)
        requires
            delete_requires(content@),
        ensures
            delete_post(content@, id, res),
    {
        let (chat_id, message_id) = split_once(content, ';').unwrap();
        Ok(Command::Delete {
            chat_id: parse_i32(chat_id).unwrap(),
            id,
            message_id: parse_i32(message_id).unwrap(),
        })
    }

    /// `UPD;chat_id;message_id;text`: the user edited a message; it becomes
    /// status 4. Three arguments must be there, the first two numbers.
    pub fn update(content: &str, id: i32) -> (res: Result<Command, ()>)
        requires
            update_requires(content@),
        ensures
            update_post(content@, id, res),
    {
        let args = split(content, ';');
        let chat_id = parse_i32(args[0]).unwrap();
        let message_id = parse_i32(args[1]).unwrap();
        let text = args[2];
        Ok(Command::Update { message: Message::update(message_id, chat_id, id, text.to_owned(), 4) })
    }

    /// `GET;ALL`, `GET;FRD`, `GET;BLK` or `GET;PND`: a list the user asks
    /// for. `Err` for anything else.
    pub fn get(content: &str, id: i32) -> (res: Result<Command, ()>)
        ensures
            get_post(content@, id, res),
    {
        if str_eq(content, "ALL") {
            Ok(Command::GET { t: GetTypes::ALL, id })
        } else if str_eq(content, "FRD") {
            Ok(Command::GET { t: GetTypes::FRIENDS, id })
        } else if str_eq(content, "BLK") {
            Ok(Command::GET { t: GetTypes::BLOCKED, id })
        } else if str_eq(content, "PND") {
            Ok(Command::GET { t: GetTypes::PENDING, id })
        } else {
            Err(())
        }
    }

    /// `CNT;other`: the user asks for a chat with user `other`, whose id
    /// must be a number.
    pub fn connect(content: &str, id: i32) -> (res: Result<Command, ()>)
        requires
            parse_i32_spec(content@) is Some,
        ensures
            connect_post(content@, id, res),
    {
        let other = parse_i32(content).unwrap();
        Ok(Command::Connect { id, other })
    }

    /// `BLK;other`: the user blocks user `other`, whose id must be a
    /// number.
    pub fn block(content: &str, id: i32) -> (res: Result<Command, ()>)
        requires
            parse_i32_spec(content@) is Some,
        ensures
            block_post(content@, id, res),
    {
        let other = parse_i32(content).unwrap();
        Ok(Command::Block { id, other })
    }

    /// `UBK;other`: the user unblocks user `other`, whose id must be a
    /// number.
    pub fn unblock(content: &str, id: i32) -> (res: Result<Command, ()>)
        requires
            parse_i32_spec(content@) is Some,
        ensures
            unblock_post(content@, id, res),
    {
        let other = parse_i32(content).unwrap();
        Ok(Command::Unblock { id, other })
    }
}

} // verus!
