use messenger::client::chats::Chats;
use messenger::client::hashing::{modular_pow, xor_encrypt};
use messenger::client::to_server::{
    connect, delete, get_all, get_friends, login, read_chat, register, send, send_a, update,
};

#[test]
fn fixed_frames() {
    assert_eq!(get_all(), "GET;ALL\n");
    assert_eq!(get_friends(), "GET;FRD\n");
    assert_eq!(register("ann", "pw"), "REG;ann;pw\n");
    assert_eq!(connect(-4), "CNT;-4\n");
    assert_eq!(send_a(3, 12), "A;3;12\n");
}

#[test]
fn login_records_the_password_length_as_secret() {
    let mut chats = Chats::new();
    assert_eq!(login(&mut chats, "ann", "pässword"), "LGN;ann;pässword\n");
    assert_eq!(chats.get_a(), "pässword".len() as i32);
}

#[test]
fn send_enciphers_and_queues() {
    let mut chats = Chats::new();
    chats.set_a(6);
    chats.add_chat(23, 5, 19);
    let key = modular_pow(19, 6, 23) as i32;
    let frame = send(&mut chats, 23, "hello".to_string()).unwrap();
    assert_eq!(frame, format!("SND;23;{}\n", xor_encrypt("hello", key)));
    assert_eq!(chats.next_pending_chat(), Some(23));
    assert_eq!(send(&mut chats, 24, "x".to_string()), None);
}

#[test]
fn read_delete_update_frames() {
    let mut chats = Chats::new();
    chats.set_a(6);
    chats.add_chat(23, 5, 19);
    chats.received_message(23, 9, "hi".to_string());
    assert_eq!(read_chat(&mut chats, 23), Some("STS;23\n".to_string()));
    assert_eq!(chats.get_chat(23)[0].status, 2);
    assert_eq!(read_chat(&mut chats, 24), None);
    let key = modular_pow(19, 6, 23) as i32;
    assert_eq!(update(&mut chats, 23, 9, "ho".to_string()), Some(format!("UPD;23;9;{}\n", xor_encrypt("ho", key))));
    assert_eq!(chats.get_chat(23)[0].content, "ho");
    assert_eq!(delete(&mut chats, 23, 9), Some("DEL;23;9\n".to_string()));
    assert_eq!(chats.get_chat(23)[0].status, 3);
    assert_eq!(delete(&mut chats, 24, 9), None);
}

#[test]
fn partners_read_each_others_messages() {
    let (g, chat) = (5, 23);
    let (a1, a2) = (4, 9);
    let mut alice = Chats::new();
    alice.set_a(a1);
    alice.add_chat(chat, g, modular_pow(g as u64, a2 as u64, chat as u64) as i32);
    let mut bob = Chats::new();
    bob.set_a(a2);
    bob.add_chat(chat, g, modular_pow(g as u64, a1 as u64, chat as u64) as i32);
    let frame = send(&mut alice, chat, "secret".to_string()).unwrap();
    let cipher = frame.strip_prefix("SND;23;").unwrap().strip_suffix('\n').unwrap();
    let relayed = format!("23;1;{}", cipher);
    let (_, m) = messenger::client::from_server::receive(&mut bob, &relayed).unwrap();
    assert_eq!(m.content, "secret");
}
