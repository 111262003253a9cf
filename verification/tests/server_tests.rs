use messenger::server::client::Client;
use messenger::server::commands::{Command, GetTypes};
use messenger::server::container::Container;
use messenger::server::manager::{
    credentials, handle_command, on_block, on_connect, on_delete, on_get, on_login, on_send, on_status, on_unblock,
    on_update, password_error, LoginOutcome,
};
use messenger::server::message::Message;
use messenger::server::model;
use messenger::server::process::{
    command_is_parsable, get_command, login_request, not_logged_in_reply, register_reply, LoginRequest,
};

fn sample() -> Container {
    Container::new(
        vec![(1, "ann".to_string(), 2, "bob".to_string(), 10), (3, "cat".to_string(), 1, "ann".to_string(), 11)],
        vec![(4, "dan".to_string()), (4, "dup".to_string())],
    )
}

#[test]
fn message_constructors() {
    let m = Message::new(5, 6, "x".to_string(), 1);
    assert_eq!((m.message_id, m.chat_id, m.sender_id, m.get_content(), m.status), (0, 5, 6, "x", 1));
    let u = Message::update(9, 5, 6, "y".to_string(), 4);
    assert_eq!((u.message_id, u.chat_id, u.sender_id, u.get_content(), u.status), (9, 5, 6, "y", 4));
}

#[test]
fn client_logs_in_once() {
    let mut c = Client::new(1, "ann".to_string());
    assert!(!c.is_logged_in());
    assert!(c.login());
    assert!(!c.login());
    c.loguot();
    assert!(c.login());
    assert_eq!((c.get_id(), c.get_name().as_str()), (1, "ann"));
}

#[test]
fn command_parsers() {
    assert!(matches!(Command::send("5;hi;there", 2), Ok(Command::Send { message })
        if message.chat_id == 5 && message.sender_id == 2 && message.content == "hi;there" && message.status == 1));
    assert!(Command::send("nothing", 2).is_err());
    assert!(matches!(Command::status("7", 2), Ok(Command::Status { chat_id: 7, id: 2 })));
    assert!(matches!(Command::delete("7;8", 2), Ok(Command::Delete { chat_id: 7, id: 2, message_id: 8 })));
    assert!(matches!(Command::update("7;8;new;er", 2), Ok(Command::Update { message })
        if message.chat_id == 7 && message.message_id == 8 && message.content == "new" && message.status == 4));
    assert!(matches!(Command::get("ALL", 2), Ok(Command::GET { t: GetTypes::ALL, id: 2 })));
    assert!(matches!(Command::get("FRD", 2), Ok(Command::GET { t: GetTypes::FRIENDS, id: 2 })));
    assert!(matches!(Command::get("BLK", 2), Ok(Command::GET { t: GetTypes::BLOCKED, id: 2 })));
    assert!(matches!(Command::get("PND", 2), Ok(Command::GET { t: GetTypes::PENDING, id: 2 })));
    assert!(Command::get("all", 2).is_err());
    assert!(matches!(Command::connect("9", 2), Ok(Command::Connect { id: 2, other: 9 })));
    assert!(matches!(Command::block("9", 2), Ok(Command::Block { id: 2, other: 9 })));
    assert!(matches!(Command::unblock("-9", 2), Ok(Command::Unblock { id: 2, other: -9 })));
}

#[test]
fn lines_from_logged_in_users() {
    assert!(matches!(get_command("SND;5;hello\n", 3), Ok(Command::Send { message }) if message.content == "hello"));
    assert!(matches!(get_command("  TESTINGCLEAR;\r\n", 3), Ok(Command::Testing_Clear)));
    assert!(matches!(get_command("GET;FRD", 3), Ok(Command::GET { t: GetTypes::FRIENDS, id: 3 })));
    assert!(matches!(get_command("BLK;7\n", 3), Ok(Command::Block { id: 3, other: 7 })));
    assert!(matches!(get_command("UBK;7\n", 3), Ok(Command::Unblock { id: 3, other: 7 })));
    assert!(command_is_parsable("BLK;7"));
    assert!(!command_is_parsable("UBK;x"));
    assert!(get_command("HELLO;x", 3).is_err());
    assert!(get_command("no separator", 3).is_err());
    assert!(command_is_parsable("SND;5;x"));
    assert!(!command_is_parsable("SND;five;x"));
    assert!(!command_is_parsable("DEL;5"));
    assert!(!command_is_parsable("UPD;5;6"));
    assert!(command_is_parsable("UPD;5;6;x"));
    assert!(command_is_parsable("XYZ;anything"));
}

#[test]
fn lines_before_login() {
    assert!(matches!(login_request("LGN;ann;pw\n"), Some(LoginRequest::Login("ann;pw\n"))));
    assert!(matches!(login_request("REG;ann;pw"), Some(LoginRequest::Register("ann;pw"))));
    assert!(matches!(login_request("TESTINGCLEAR;"), Some(LoginRequest::Clear)));
    assert!(matches!(login_request("SND;1;x"), Some(LoginRequest::NotLoggedIn)));
    assert!(login_request("LGN").is_none());
    assert_eq!(register_reply(true), "REG;Y\n");
    assert_eq!(register_reply(false), "REG;N\n");
    assert_eq!(not_logged_in_reply(), "ERR;YOU ARE NOT LOGGED IN\n");
    assert_eq!(credentials(" ann;pw \n"), Some(("ann", "pw")));
    assert_eq!(credentials("ann"), None);
    assert_eq!(password_error(), "ERR;PWD\n");
}

#[test]
fn container_loads_users_and_chats() {
    let c = sample();
    assert_eq!(c.get_all(), ";4;dan;1;ann;2;bob;3;cat");
    assert_eq!(c.send_all(9).frame, "ALL;4;dan;1;ann;2;bob;3;cat\n");
    assert!(c.is_user(4) && c.is_user(1) && !c.is_user(5));
    assert_eq!(c.get_name(4), "dan");
    assert_eq!(c.get_friends(1), ";10;bob;11;cat");
    assert_eq!(c.get_friends(3), ";11;ann");
    assert_eq!(c.get_friends(4), ";");
    assert_eq!(c.send_friends(2).frame, "FRD;10;ann\n");
    assert_eq!(c.get_other(10, 1), 2);
    assert_eq!(c.get_other(10, 2), 1);
    assert_eq!(c.get_other(11, 1), 3);
    assert_eq!(c.get_other(12, 1), 0);
}

#[test]
fn other_users_leave_out_the_asker() {
    let c = sample();
    assert_eq!(c.get_others(1), "4;dan;2;bob;3;cat");
    assert_eq!(c.get_others(4), "1;ann;2;bob;3;cat");
    assert_eq!(c.get_others(9), "4;dan;1;ann;2;bob;3;cat");
    let mut alone = Container::new(Vec::new(), Vec::new());
    assert_eq!(alone.get_others(1), "");
    alone.new_user(1, "ann".to_string());
    assert_eq!(alone.get_others(1), "");
    let out = on_get(&alone, GetTypes::ALL, 1, "").unwrap();
    assert_eq!(out[0].frame, "ALL;\n");
}

#[test]
fn empty_container_lists_a_lone_separator() {
    let mut c = Container::new(Vec::new(), Vec::new());
    assert_eq!(c.get_all(), ";");
    c.new_user(7, "gus".to_string());
    assert_eq!(c.get_all(), ";7;gus");
    c.new_user(7, "gus2".to_string());
    assert_eq!(c.get_all(), ";7;gus;7;gus2");
    assert_eq!(c.get_name(7), "gus2");
    c.clear();
    assert_eq!(c.get_all(), ";");
    assert!(!c.is_user(7));
}

#[test]
fn friends_are_listed_newest_first() {
    let mut c = sample();
    c.add_friends(4, 1, 12);
    assert_eq!(c.get_friends(1), ";10;bob;12;dan;11;cat");
    assert_eq!(c.get_friends(4), ";12;ann");
    assert_eq!(c.get_other(12, 4), 1);
    assert_eq!(c.get_other(12, 1), 4);
}

#[test]
fn a_user_logs_in_once_at_a_time() {
    let mut c = sample();
    assert_eq!(c.login(1, "[]", "[]"), Some("LGN;1;[];[]\n".to_string()));
    assert!(c.is_logged_in(1));
    assert_eq!(c.login(1, "[]", "[]"), None);
    c.remove(1);
    assert!(!c.is_logged_in(1));
    assert!(c.login(1, "[[10,3,0]]", "[]").is_some());
}

#[test]
fn manager_routes_messages_to_the_partner() {
    let mut c = sample();
    let m = Message::new(10, 1, "hi".to_string(), 1);
    let out = on_send(&c, &m, 77).unwrap();
    assert_eq!((out[0].to, out[0].frame.as_str()), (1, "MID;77\n"));
    assert_eq!((out[1].to, out[1].frame.as_str()), (2, "MSG;10;77;hi\n"));
    assert!(on_send(&c, &Message::new(10, 99, "hi".to_string(), 1), 1).is_none());
    let out = on_connect(&mut c, 2, 3, 13).unwrap();
    assert_eq!((out[0].to, out[0].frame.as_str()), (2, "CNT;13;3\n"));
    assert_eq!((out[1].to, out[1].frame.as_str()), (3, "CNT;13;2\n"));
    assert_eq!(c.get_other(13, 3), 2);
    assert!(on_connect(&mut c, 2, 99, 14).is_none());
    let o = on_block(1, 2);
    assert_eq!((o.to, o.frame.as_str()), (2, "BLK;1\n"));
    let o = on_unblock(&c, 1, 2).unwrap();
    assert_eq!((o.to, o.frame.as_str()), (2, "ALL;1;ann\n"));
    let o = on_status(&c, 10, 2).unwrap();
    assert_eq!((o.to, o.frame.as_str()), (1, "STS;10\n"));
    let o = on_delete(&c, 10, 2, 77).unwrap();
    assert_eq!((o.to, o.frame.as_str()), (1, "DEL;10;77\n"));
    let o = on_update(&c, &Message::update(77, 10, 2, "hii".to_string(), 4)).unwrap();
    assert_eq!((o.to, o.frame.as_str()), (1, "UPD;10;77;hii\n"));
    let out = on_get(&c, GetTypes::ALL, 2, "ignored").unwrap();
    assert_eq!((out[0].to, out[0].frame.as_str()), (2, "ALL;4;dan;1;ann;3;cat\n"));
    let out = on_get(&c, GetTypes::BLOCKED, 2, "").unwrap();
    assert_eq!(out[0].frame, "BKS;\n");
    let out = on_get(&c, GetTypes::FRIENDS, 2, "").unwrap();
    assert_eq!(out[0].frame, "FRD;13;cat;10;ann\n");
    assert!(on_get(&c, GetTypes::PENDING, 2, "").unwrap().is_empty());
    assert!(on_get(&c, GetTypes::FRIENDS, 99, "").is_none());
}

#[test]
fn relayed_frames_are_what_the_client_sent() {
    let c = sample();
    let line = "DEL;10;77\n";
    let Ok(Command::Delete { chat_id, id, message_id }) = get_command(line, 2) else { panic!() };
    assert_eq!(on_delete(&c, chat_id, id, message_id).unwrap().frame, line);
    let line = "UPD;10;77;hii\n";
    let Ok(Command::Update { message }) = get_command(line, 2) else { panic!() };
    assert_eq!(on_update(&c, &message).unwrap().frame, line);
    let line = "STS;10\n";
    let Ok(Command::Status { chat_id, id }) = get_command(line, 2) else { panic!() };
    assert_eq!(on_status(&c, chat_id, id).unwrap().frame, line);
}

#[test]
fn passwords_are_checked_against_their_hash() {
    let hash = model::register(false, "pw1").unwrap();
    assert_eq!(model::login(Some((5, hash.clone())), "pw1"), Ok(5));
    assert_eq!(model::login(Some((5, hash)), "bogus"), Err("invalid password".to_string()));
    assert_eq!(model::login(None, "pw1"), Err("user does not exist".to_string()));
    assert_eq!(model::register(true, "pw1"), Err(()));
    assert_eq!(model::login(Some((5, "not a hash".to_string())), "pw1"), Err("invalid password".to_string()));
}

#[test]
fn logins_are_decided_from_the_database_answer() {
    let mut c = sample();
    match on_login(&mut c, Err("invalid password".to_string()), "", "") {
        Some(LoginOutcome::WrongPassword { frame }) => assert_eq!(frame, "ERR;PWD\n"),
        _ => panic!("a wrong password is answered"),
    }
    assert!(!c.is_logged_in(1));
    match on_login(&mut c, Ok(1), "[[10,3,0]]", "[]") {
        Some(LoginOutcome::LoggedIn { id, frame }) => {
            assert_eq!(id, 1);
            assert_eq!(frame, "LGN;1;[[10,3,0]];[]\n");
        }
        _ => panic!("a first login succeeds"),
    }
    assert!(c.is_logged_in(1));
    assert!(matches!(on_login(&mut c, Ok(1), "[]", "[]"), Some(LoginOutcome::AlreadyIn)));
    assert!(on_login(&mut c, Ok(99), "[]", "[]").is_none());
}

#[test]
fn requests_are_dispatched_to_their_handlers() {
    let mut c = sample();
    let out = handle_command(&mut c, Command::Connect { id: 2, other: 3 }, 13, false).unwrap();
    assert_eq!((out[0].to, out[0].frame.as_str()), (2, "CNT;13;3\n"));
    assert_eq!((out[1].to, out[1].frame.as_str()), (3, "CNT;13;2\n"));
    let mut m = Message::new(13, 3, "yo".to_string(), 1);
    m.message_id = 5;
    let out = handle_command(&mut c, Command::Send { message: m }, 0, false).unwrap();
    assert_eq!((out[0].to, out[0].frame.as_str()), (3, "MID;5\n"));
    assert_eq!((out[1].to, out[1].frame.as_str()), (2, "MSG;13;5;yo\n"));
    let out = handle_command(&mut c, Command::Block { id: 1, other: 2 }, 0, false).unwrap();
    assert_eq!((out[0].to, out[0].frame.as_str()), (2, "BLK;1\n"));
    let out = handle_command(&mut c, Command::GET { t: GetTypes::BLOCKED, id: 1 }, 0, false).unwrap();
    assert_eq!(out[0].frame, "BKS;\n");
    assert!(c.login(1, "[]", "[]").is_some());
    let out = handle_command(&mut c, Command::Remove { id: 1 }, 0, false).unwrap();
    assert!(out.is_empty());
    assert!(!c.is_logged_in(1));
    assert!(handle_command(&mut c, Command::Remove { id: 99 }, 0, false).is_none());
    assert!(handle_command(&mut c, Command::Testing_Clear, 0, false).unwrap().is_empty());
    assert!(c.is_user(1));
    assert!(handle_command(&mut c, Command::Testing_Clear, 0, true).unwrap().is_empty());
    assert!(!c.is_user(1));
    assert!(handle_command(&mut c, Command::Add { name_pass: "a;b".to_string() }, 0, true).is_none());
}
