use messenger::client::chats::Chats;
use messenger::client::from_server::{
    all, b, connect, delete, friends, handle_line, logged_in, logged_in_parts, message_sent, receive, set_seen,
    update, Event,
};
use messenger::client::hashing::{modular_pow, xor_encrypt};

fn store_with_chat(chat: i32, b_value: i32, a: i32) -> Chats {
    let mut chats = Chats::new();
    chats.set_a(a);
    chats.add_chat(chat, 5, b_value);
    chats
}

#[test]
fn receive_deciphers_with_the_chat_key() {
    let mut chats = store_with_chat(23, 19, 6);
    let key = modular_pow(19, 6, 23) as i32;
    let frame = format!("23;7;{}", xor_encrypt("hey", key));
    let (id, m) = receive(&mut chats, &frame).unwrap();
    assert_eq!((id, m.message_id, m.from_me, m.content.as_str(), m.status), (23, 7, false, "hey", 1));
    assert_eq!(chats.get_chat(23).len(), 1);
}

#[test]
fn receive_refuses_malformed_frames() {
    let mut chats = store_with_chat(23, 19, 6);
    assert!(receive(&mut chats, "23;7").is_none());
    assert!(receive(&mut chats, "x;7;hi").is_none());
    assert!(receive(&mut chats, "23;y;hi").is_none());
    assert!(receive(&mut chats, "24;7;hi").is_none());
    let mut zero = store_with_chat(0, 1, 1);
    assert!(receive(&mut zero, "0;7;hi").is_none());
    assert!(chats.get_chat(23).is_empty());
}

#[test]
fn connect_opens_the_chat_and_gives_the_public_value() {
    let mut chats = Chats::new();
    chats.set_a(6);
    assert_eq!(connect(&mut chats, "23;4;5"), Some((23, 4, modular_pow(5, 6, 23) as i32)));
    assert!(chats.is_chat(23));
    assert_eq!(chats.get_b(23), 0);
    assert_eq!(connect(&mut chats, "0;4;5"), None);
    assert_eq!(connect(&mut chats, "9;4"), None);
    assert!(!chats.is_chat(0));
}

#[test]
fn lists_are_split_at_semicolons() {
    assert_eq!(friends("1;bob;2;eve"), vec!["1", "bob", "2", "eve"]);
    assert_eq!(all(""), vec![""]);
}

#[test]
fn login_frame_parts() {
    assert_eq!(logged_in_parts("3;[[1,2,3]];[]"), Some((3, "[[1,2,3]]", "[]")));
    assert_eq!(logged_in_parts("3;[]"), None);
    assert_eq!(logged_in_parts("x;[];[]"), None);
    let mut chats = Chats::new();
    assert!(logged_in(&mut chats, 3, "[[1,2,3]]", Vec::new()));
    assert!(chats.is_me(3));
    assert!(chats.is_chat(1));
}

#[test]
fn set_seen_delete_update_and_b() {
    let mut chats = store_with_chat(23, 19, 6);
    chats.pend_message(23, "mine".to_string());
    assert_eq!(message_sent(&mut chats, "50").map(|(u, m)| (u, m.message_id)), Some((23, 50)));
    assert_eq!(message_sent(&mut chats, "51").map(|(u, m)| (u, m.message_id)), None);
    assert_eq!(set_seen(&mut chats, "23"), Some(23));
    assert_eq!(chats.get_chat(23)[0].status, 2);
    assert_eq!(set_seen(&mut chats, "24"), None);
    let key = modular_pow(19, 6, 23) as i32;
    let frame = format!("23;50;{}", xor_encrypt("edited", key));
    assert_eq!(update(&mut chats, &frame), Some((23, 50, "edited".to_string())));
    assert_eq!(chats.get_chat(23)[0].content, "edited");
    assert_eq!(chats.get_chat(23)[0].status, 4);
    assert_eq!(delete(&mut chats, "23;50"), Some(("23", "50")));
    assert_eq!(chats.get_chat(23)[0].content, "");
    assert_eq!(chats.get_chat(23)[0].status, 3);
    assert_eq!(delete(&mut chats, "23"), None);
    assert!(b(&mut chats, "23;77"));
    assert_eq!(chats.get_b(23), 77);
    assert!(!b(&mut chats, "24;77"));
    assert!(!b(&mut chats, "23"));
}

#[test]
fn handle_line_dispatches_on_the_command() {
    let mut chats = store_with_chat(23, 19, 6);
    let key = modular_pow(19, 6, 23) as i32;
    let line = format!("MSG;23;7;{}\n", xor_encrypt("yo", key));
    match handle_line(&mut chats, &line) {
        Some(Event::Received(23, m)) => assert_eq!(m.content, "yo"),
        _ => panic!("expected a received message"),
    }
    assert!(matches!(handle_line(&mut chats, "FRD;1;bob\n"), Some(Event::Friends(v)) if v == vec!["1", "bob"]));
    assert!(matches!(handle_line(&mut chats, "ALL;;\n"), Some(Event::All(v)) if v == vec!["", ""]));
    assert!(matches!(handle_line(&mut chats, "LGN;4;[];[]\n"), Some(Event::LoggedIn(4, "[]", "[]"))));
    assert!(matches!(handle_line(&mut chats, "STS;23\n"), Some(Event::Seen(23))));
    assert!(matches!(handle_line(&mut chats, "DEL;23;7\n"), Some(Event::Deleted("23", "7"))));
    assert!(matches!(handle_line(&mut chats, "REG;Y\n"), Some(Event::Registered("Y"))));
    assert!(matches!(handle_line(&mut chats, "ERR;PWD\n"), Some(Event::Failed("PWD"))));
    assert!(matches!(handle_line(&mut chats, "B;23;3\n"), Some(Event::KeyStored)));
    assert!(matches!(handle_line(&mut chats, "XYZ;q\n"), Some(Event::Other("q"))));
    assert!(handle_line(&mut chats, "no separator\n").is_none());
    assert!(handle_line(&mut chats, "MID;1\n").is_none());
    assert_eq!(chats.get_b(23), 3);
}
