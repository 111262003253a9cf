//! What a connection does with each line its client sends: before login
//! only `LGN`, `REG` and `TESTINGCLEAR` are heeded; after it, each line is
//! parsed into a request for the manager.

use vstd::prelude::*;
use crate::server::commands::{
    block_post, connect_post, delete_post, delete_requires, get_post, send_post, send_requires,
    status_post, unblock_post, update_post, update_requires, Command,
};
use crate::text::{parse_i32, parse_i32_spec, split_once, split_once_spec, str_eq, trim, trim_spec};
use vstd::string::*;

verus! {

/// The arguments of the line's command are well formed: the ids that
/// the command takes are numbers, and `DEL` and `UPD` have their
/// arguments.
pub open spec fn command_requires(line: Seq<char>) -> bool {
    match split_once_spec(trim_spec(line), ';') {
        None => true,
        Some((c, x)) => if c == "SND"@ {
            send_requires(x)
        } else if c == "CNT"@ {
            parse_i32_spec(x) is Some
        } else if c == "STS"@ {
            parse_i32_spec(x) is Some
        } else if c == "DEL"@ {
            delete_requires(x)
        } else if c == "UPD"@ {
            update_requires(x)
        } else if c == "BLK"@ {
            parse_i32_spec(x) is Some
        } else if c == "UBK"@ {
            parse_i32_spec(x) is Some
        } else {
            true
        },
    }
}

/// The request of one line from a logged-in user `id`.
pub open spec fn command_post(line: Seq<char>, id: i32, res: Result<Command, ()>) -> bool {
    match split_once_spec(trim_spec(line), ';') {
        None => res is Err,
        Some((c, x)) => if c == "TESTINGCLEAR"@ {
            res matches Ok(Command::Testing_Clear)
        } else if c == "SND"@ {
            send_post(x, id, res)
        } else if c == "CNT"@ {
            connect_post(x, id, res)
        } else if c == "GET"@ {
            get_post(x, id, res)
        } else if c == "STS"@ {
            status_post(x, id, res)
        } else if c == "DEL"@ {
            delete_post(x, id, res)
        } else if c == "UPD"@ {
            update_post(x, id, res)
        } else if c == "BLK"@ {
            block_post(x, id, res)
        } else if c == "UBK"@ {
            unblock_post(x, id, res)
        } else {
            res is Err
        },
    }
}

/// Whether the arguments of `line` are well formed (`command_requires`).
pub fn command_is_parsable(line: &str) -> (res: bool)
    ensures
        res == command_requires(line@),
{
    let (command, content) = match split_once(trim(line), ';') {
        Some(p) => p,
        None => return true,
    };
    if str_eq(command, "SND") {
        match split_once(content, ';') {
            Some((c, _)) => parse_i32(c).is_some(),
            None => true,
        }
    } else if str_eq(command, "CNT") || str_eq(command, "STS") {
        parse_i32(content).is_some()
    } else if str_eq(command, "DEL") {
        match split_once(content, ';') {
            Some((c, m)) => parse_i32(c).is_some() && parse_i32(m).is_some(),
            None => false,
        }
    } else if str_eq(command, "UPD") {
        let args = crate::text::split(content, ';');
        args.len() >= 3 && parse_i32(args[0]).is_some() && parse_i32(args[1]).is_some()
    } else if str_eq(command, "BLK") || str_eq(command, "UBK") {
        parse_i32(content).is_some()
    } else {
        true
    }
}

/// Parses one line from the logged-in user `id`: the trimmed line is a
/// command name, `;`, and its arguments. `Err` for a line without `;` or
/// an unknown command; the arguments must parse (see `command_requires`).
pub fn get_command(line: &str, id: i32) -> (res: Result<Command, ()>)
    requires
        command_requires(line@),
    ensures
        command_post(line@, id, res),
{
    let (command, content) = match split_once(trim(line), ';') {
        Some(p) => p,
        None => return Err(()),
    };
    if str_eq(command, "TESTINGCLEAR") {
        Ok(Command::Testing_Clear)
    } else if str_eq(command, "SND") {
        Command::send(content, id)
    } else if str_eq(command, "CNT") {
        Command::connect(content, id)
    } else if str_eq(command, "GET") {
        Command::get(content, id)
    } else if str_eq(command, "STS") {
        Command::status(content, id)
    } else if str_eq(command, "DEL") {
        Command::delete(content, id)
    } else if str_eq(command, "UPD") {
        Command::update(content, id)
    } else if str_eq(command, "BLK") {
        Command::block(content, id)
    } else if str_eq(command, "UBK") {
        Command::unblock(content, id)
    } else {
        Err(())
    }
}

/// What a connection that is not logged in does with a line.
pub enum LoginRequest<'a> {
    /// `TESTINGCLEAR;...`: empty the test database.
    Clear,
    /// `LGN;name;password`: log in; the text after the first `;`.
    Login(&'a str),
    /// `REG;name;password`: register; the text after the first `;`.
    Register(&'a str),
    /// Anything else: the client is told it is not logged in.
    NotLoggedIn,
}

/// Reads a line before login. The line is not trimmed. `None` for a
/// line without `;`.
pub fn login_request<'a>(line: &'a str) -> (res: Option<LoginRequest<'a>>)
    ensures
        match split_once_spec(line@, ';') {
            None => res is None,
            Some((c, x)) => if c == "TESTINGCLEAR"@ {
                res matches Some(LoginRequest::Clear)
            } else if c == "LGN"@ {
                res matches Some(LoginRequest::Login(s)) && s@ == x
            } else if c == "REG"@ {
                res matches Some(LoginRequest::Register(s)) && s@ == x
            } else {
                res matches Some(LoginRequest::NotLoggedIn)
            },
        },
{
    let (command, name_pass) = match split_once(line, ';') {
        Some(p) => p,
        None => return None,
    };
    if str_eq(command, "TESTINGCLEAR") {
        Some(LoginRequest::Clear)
    } else if str_eq(command, "LGN") {
        Some(LoginRequest::Login(name_pass))
    } else if str_eq(command, "REG") {
        Some(LoginRequest::Register(name_pass))
    } else {
        Some(LoginRequest::NotLoggedIn)
    }
}

/// The answer to a registration: `REG;Y\n` or `REG;N\n`.
pub fn register_reply(ok: bool) -> (res: String)
    ensures
        res@ == (if ok {
            "REG;Y\n"@
        } else {
            "REG;N\n"@
        }),
{
    let mut s = String::new();
    if ok {
        s.append("REG;Y\n");
    } else {
        s.append("REG;N\n");
    }
    s
}

/// The answer to anything but a login or registration before login.
pub fn not_logged_in_reply() -> (res: String)
    ensures
        res@ == "ERR;YOU ARE NOT LOGGED IN\n"@,
{
    let mut s = String::new();
    s.append("ERR;YOU ARE NOT LOGGED IN\n");
    s
}

} // verus!
