use messenger::client::chats::{Chats, Message, ServerMessage};
use messenger::client::hashing::{modular_pow, xor_encrypt};
use messenger::client::internal_commands::{search, switch_chat};

fn summary(chats: &Chats, user: i32) -> Vec<(i32, bool, String, i32)> {
    chats.get_chat(user).iter().map(|m| (m.message_id, m.from_me, m.content.clone(), m.status)).collect()
}

fn msg(m: &Message) -> (i32, bool, String, i32) {
    (m.message_id, m.from_me, m.content.clone(), m.status)
}

#[test]
fn a_new_store_is_empty() {
    let chats = Chats::new();
    assert_eq!(chats.get_a(), 0);
    assert!(chats.is_me(0));
    assert!(!chats.is_chat(1));
    assert_eq!(chats.next_pending_chat(), None);
}

#[test]
fn set_id_and_set_a_are_recorded() {
    let mut chats = Chats::new();
    chats.set_id(12);
    chats.set_a(9);
    assert!(chats.is_me(12));
    assert!(!chats.is_me(0));
    assert_eq!(chats.get_a(), 9);
}

#[test]
fn add_chat_keeps_the_first_values() {
    let mut chats = Chats::new();
    chats.add_chat(4, 11, 22);
    chats.received_message(4, 1, "hi".to_string());
    chats.add_chat(4, 99, 98);
    assert_eq!(chats.get_b(4), 22);
    assert_eq!(summary(&chats, 4), vec![(1, false, "hi".to_string(), 1)]);
    chats.set_b(4, 5);
    assert_eq!(chats.get_b(4), 5);
    assert_eq!(summary(&chats, 4).len(), 1);
}

#[test]
fn received_message_in_unknown_chat_is_not_stored() {
    let mut chats = Chats::new();
    let m = chats.received_message(3, 8, "lost".to_string());
    assert_eq!(msg(&m), (8, false, "lost".to_string(), 1));
    assert!(!chats.is_chat(3));
}

#[test]
fn pending_messages_get_ids_in_order() {
    let mut chats = Chats::new();
    chats.add_chat(1, 0, 0);
    chats.add_chat(2, 0, 0);
    chats.pend_message(1, "first".to_string());
    chats.pend_message(2, "second".to_string());
    assert_eq!(chats.next_pending_chat(), Some(1));
    let (user, m) = chats.sent_message(40);
    assert_eq!((user, msg(&m)), (1, (40, true, "first".to_string(), 1)));
    let (user, m) = chats.sent_message(41);
    assert_eq!((user, msg(&m)), (2, (41, true, "second".to_string(), 1)));
    assert_eq!(summary(&chats, 1), vec![(40, true, "first".to_string(), 1)]);
    assert_eq!(summary(&chats, 2), vec![(41, true, "second".to_string(), 1)]);
    assert_eq!(chats.next_pending_chat(), None);
}

#[test]
fn reading_marks_back_to_the_first_read_message() {
    let mut chats = Chats::new();
    chats.add_chat(1, 0, 0);
    chats.received_message(1, 1, "a".to_string());
    chats.pend_message(1, "b".to_string());
    chats.sent_message(2);
    chats.received_message(1, 3, "c".to_string());
    chats.other_message_read(1);
    let s = summary(&chats, 1);
    assert_eq!(s.iter().map(|m| m.3).collect::<Vec<_>>(), vec![2, 1, 2]);
    chats.received_message(1, 4, "d".to_string());
    chats.other_message_read(1);
    let s = summary(&chats, 1);
    assert_eq!(s.iter().map(|m| m.3).collect::<Vec<_>>(), vec![2, 1, 2, 2]);
    chats.my_message_read(1);
    chats.my_message_read(1);
    let s = summary(&chats, 1);
    assert_eq!(s.iter().map(|m| m.3).collect::<Vec<_>>(), vec![2, 2, 2, 2]);
}

#[test]
fn reading_stops_at_a_message_already_read() {
    let mut chats = Chats::new();
    chats.add_chat(1, 0, 0);
    chats.received_message(1, 1, "a".to_string());
    chats.other_message_read(1);
    chats.received_message(1, 2, "b".to_string());
    chats.received_message(1, 3, "c".to_string());
    chats.update(1, 2, "b2");
    chats.other_message_read(1);
    let s = summary(&chats, 1);
    assert_eq!(s, vec![
        (1, false, "a".to_string(), 2),
        (2, false, "b2".to_string(), 2),
        (3, false, "c".to_string(), 2),
    ]);
    chats.update(1, 1, "a2");
    chats.received_message(1, 4, "d".to_string());
    chats.other_message_read(1);
    let s = summary(&chats, 1);
    assert_eq!(s[0], (1, false, "a2".to_string(), 4));
    assert_eq!(s[3], (4, false, "d".to_string(), 2));
}

#[test]
fn delete_and_update_touch_the_newest_message_with_the_id() {
    let mut chats = Chats::new();
    chats.add_chat(1, 0, 0);
    chats.received_message(1, 5, "x".to_string());
    chats.received_message(1, 6, "y".to_string());
    chats.received_message(1, 5, "z".to_string());
    chats.delete(1, 5);
    assert_eq!(summary(&chats, 1), vec![
        (5, false, "x".to_string(), 1),
        (6, false, "y".to_string(), 1),
        (5, false, "".to_string(), 3),
    ]);
    chats.update(1, 6, "new");
    assert_eq!(summary(&chats, 1)[1], (6, false, "new".to_string(), 4));
    chats.update(1, 77, "none");
    chats.delete(1, 77);
    assert_eq!(summary(&chats, 1).len(), 3);
}

#[test]
fn load_opens_chats_and_deciphers_messages() {
    let mut chats = Chats::new();
    chats.set_id(1);
    chats.set_a(6);
    let key = modular_pow(19, 6, 23) as i32;
    let stored = vec![
        ServerMessage { message_id: 10, chat_id: 23, sender_id: 1, content: xor_encrypt("mine", key), status: 2 },
        ServerMessage { message_id: 11, chat_id: 23, sender_id: 2, content: xor_encrypt("theirs", key), status: 1 },
    ];
    assert!(chats.load(stored, "[[23,5,19],[23,8,8],[30,5,0]]"));
    assert_eq!(chats.get_b(23), 19);
    assert!(chats.is_chat(30));
    assert_eq!(summary(&chats, 23), vec![
        (10, true, "mine".to_string(), 2),
        (11, false, "theirs".to_string(), 1),
    ]);
}

#[test]
fn load_refuses_bad_json_and_unknown_chats() {
    let mut chats = Chats::new();
    assert!(!chats.load(Vec::new(), "not json"));
    assert!(!chats.is_chat(5));
    let stored = vec![ServerMessage { message_id: 1, chat_id: 9, sender_id: 1, content: "x".to_string(), status: 1 }];
    assert!(!chats.load(stored, "[[5,1,1]]"));
    assert!(chats.is_chat(5));
    assert!(chats.get_chat(5).is_empty());
    let zero = vec![ServerMessage { message_id: 1, chat_id: 0, sender_id: 1, content: "x".to_string(), status: 1 }];
    assert!(!chats.load(zero, "[[0,1,1]]"));
}

#[test]
fn switch_chat_copies_and_search_finds_by_text() {
    let mut chats = Chats::new();
    chats.add_chat(1, 0, 0);
    chats.received_message(1, 1, "hello there".to_string());
    chats.received_message(1, 2, "bye".to_string());
    chats.received_message(1, 3, "well hello".to_string());
    let copy = switch_chat(1, &chats);
    assert_eq!(copy.iter().map(msg).collect::<Vec<_>>(), summary(&chats, 1));
    assert_eq!(search(1, "hello".to_string(), &chats), vec![1, 3]);
    assert_eq!(search(1, "zzz".to_string(), &chats), Vec::<i32>::new());
    assert_eq!(search(1, "".to_string(), &chats), vec![1, 2, 3]);
}
