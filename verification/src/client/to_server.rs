//! The frames the client writes to the server, one line each, and the
//! changes to its store that go with them.

use vstd::prelude::*;
use vstd::utf8::*;
use vstd::string::*;
use crate::client::chats::{
    chat_key, edit_last, pend_spec, read_spec, with_messages, Chats, ChatsView,
};
use crate::client::hashing::{
    cipher_bytes, lemma_shared_key, lemma_xor_encrypt_round_trip, modular_pow, modular_pow_spec,
    xor_encrypt_checked,
};
use vstd::arithmetic::power::pow;
use crate::text::{int_text, push_i32};

verus! {

fn user_key(chats: &Chats, user: i32) -> (res: i32)
    requires
        chats@.chats.contains_key(user),
        user != 0,
    ensures
        res == chat_key(chats@, user),
{
    assert(user != 0 ==> (user as u64) != 0) by (bit_vector);
    modular_pow(chats.get_b(user) as u64, chats.get_a() as u64, user as u64) as i32
}

/// The text of `message` can be sent in chat `user`: the chat is known,
/// its id is not zero (it is the key's modulus), and the enciphered bytes
/// are valid UTF-8.
pub open spec fn can_encipher(v: ChatsView, user: i32, message: Seq<char>) -> bool {
    &&& v.chats.contains_key(user)
    &&& user != 0
    &&& valid_utf8(cipher_bytes(message, chat_key(v, user)))
}

/// `message` enciphered with the key of chat `user`.
pub open spec fn enciphered(v: ChatsView, user: i32, message: Seq<char>) -> Seq<char> {
    decode_utf8(cipher_bytes(message, chat_key(v, user)))
}

/// Sends `message` in chat `user`: the frame `SND;user;cipher\n` with the
/// enciphered text, and the message queued until the server gives its id.
/// `None` (nothing changes) when the chat is unknown, its id is `0`, or
/// the enciphered text is not valid UTF-8.
pub fn send(chats: &mut Chats, user: i32, message: String) -> (res: Option<String>)
    ensures
        res is Some <==> can_encipher(old(chats)@, user, message@),
        res is None ==> final(chats)@ == old(chats)@,
        res matches Some(frame) ==> {
            &&& frame@ == "SND;"@ + int_text(user as int) + ";"@ + enciphered(old(chats)@, user, message@)
                + "\n"@
            &&& final(chats)@ == pend_spec(old(chats)@, user, message@)
        },
{
    if user == 0 || !chats.is_chat(user) {
        return None;
    }
    let key = user_key(chats, user);
    let s_message = match xor_encrypt_checked(message.as_str(), key) {
        Some(s) => s,
        None => return None,
    };
    let mut frame = String::new();
    frame.append("SND;");
    push_i32(&mut frame, user);
    frame.append(";");
    frame.append(s_message.as_str());
    frame.append("\n");
    chats.pend_message(user, message);
    Some(frame)
}

/// The user opened chat `user`: the partner's messages are marked read and
/// the frame `STS;user\n` tells the server. `None` (nothing changes) when
/// the chat is unknown.
pub fn read_chat(chats: &mut Chats, user: i32) -> (res: Option<String>)
    ensures
        res is Some <==> old(chats)@.chats.contains_key(user),
        res is None ==> final(chats)@ == old(chats)@,
        res matches Some(frame) ==> {
            &&& frame@ == "STS;"@ + int_text(user as int) + "\n"@
            &&& final(chats)@ == read_spec(old(chats)@, user, false)
        },
{
    if !chats.is_chat(user) {
        return None;
    }
    chats.other_message_read(user);
    let mut frame = String::new();
    frame.append("STS;");
    push_i32(&mut frame, user);
    frame.append("\n");
    Some(frame)
}

/// The frame that asks for the list of all users.
pub fn get_all() -> (res: String)
    ensures
        res@ == "GET;ALL\n"@,
{
    let mut frame = String::new();
    frame.append("GET;ALL\n");
    frame
}

/// The frame that asks for the list of friends.
pub fn get_friends() -> (res: String)
    ensures
        res@ == "GET;FRD\n"@,
{
    let mut frame = String::new();
    frame.append("GET;FRD\n");
    frame
}

/// The frame `REG;username;password\n` that registers a user.
pub fn register(username: &str, password: &str) -> (res: String)
    ensures
        res@ == "REG;"@ + username@ + ";"@ + password@ + "\n"@,
{
    let mut frame = String::new();
    frame.append("REG;");
    frame.append(username);
    frame.append(";");
    frame.append(password);
    frame.append("\n");
    frame
}

/// Logs in: the user's secret exponent becomes the byte length of the
/// password (truncated to `i32`), and the frame is
/// `LGN;username;password\n`.
pub fn login(chats: &mut Chats, username: &str, password: &str) -> (res: String)
    ensures
        res@ == "LGN;"@ + username@ + ";"@ + password@ + "\n"@,
        final(chats)@ == (ChatsView { a: password.len() as i32, ..old(chats)@ }),
{
    chats.set_a(password.len() as i32);
    let mut frame = String::new();
    frame.append("LGN;");
    frame.append(username);
    frame.append(";");
    frame.append(password);
    frame.append("\n");
    frame
}

/// Deletes a message of chat `user` locally and gives the frame
/// `DEL;user;message_id\n`. `None` (nothing changes) when the chat is
/// unknown.
pub fn delete(chats: &mut Chats, user: i32, message_id: i32) -> (res: Option<String>)
    ensures
        res is Some <==> old(chats)@.chats.contains_key(user),
        res is None ==> final(chats)@ == old(chats)@,
        res matches Some(frame) ==> {
            &&& frame@ == "DEL;"@ + int_text(user as int) + ";"@ + int_text(message_id as int) + "\n"@
            &&& final(chats)@ == with_messages(
                old(chats)@,
                user,
                edit_last(old(chats)@.chats[user].messages, message_id, Seq::<char>::empty(), 3),
            )
        },
{
    if !chats.is_chat(user) {
        return None;
    }
    chats.delete(user, message_id);
    let mut frame = String::new();
    frame.append("DEL;");
    push_i32(&mut frame, user);
    frame.append(";");
    push_i32(&mut frame, message_id);
    frame.append("\n");
    Some(frame)
}

/// Edits a message of chat `user` locally and gives the frame
/// `UPD;user;message_id;cipher\n` with the enciphered new text. `None`
/// (nothing changes) when the chat is unknown, its id is `0`, or the
/// enciphered text is not valid UTF-8.
pub fn update(chats: &mut Chats, user: i32, message_id: i32, content: String) -> (res: Option<String>)
    ensures
        res is Some <==> can_encipher(old(chats)@, user, content@),
        res is None ==> final(chats)@ == old(chats)@,
        res matches Some(frame) ==> {
            &&& frame@ == "UPD;"@ + int_text(user as int) + ";"@ + int_text(message_id as int) + ";"@
                + enciphered(old(chats)@, user, content@) + "\n"@
            &&& final(chats)@ == with_messages(
                old(chats)@,
                user,
                edit_last(old(chats)@.chats[user].messages, message_id, content@, 4),
            )
        },
{
    if user == 0 || !chats.is_chat(user) {
        return None;
    }
    let key = user_key(chats, user);
    let cipher = match xor_encrypt_checked(content.as_str(), key) {
        Some(s) => s,
        None => return None,
    };
    chats.update(user, message_id, content.as_str());
    let mut frame = String::new();
    frame.append("UPD;");
    push_i32(&mut frame, user);
    frame.append(";");
    push_i32(&mut frame, message_id);
    frame.append(";");
    frame.append(cipher.as_str());
    frame.append("\n");
    Some(frame)
}

/// The frame `CNT;id\n` that asks to open a chat with user `id`.
pub fn connect(id: i32) -> (res: String)
    ensures
        res@ == "CNT;"@ + int_text(id as int) + "\n"@,
{
    let mut frame = String::new();
    frame.append("CNT;");
    push_i32(&mut frame, id);
    frame.append("\n");
    frame
}

/// The frame `A;user;a\n` that hands the user's public value to chat
/// `user`.
pub fn send_a(user: i32, a: i32) -> (res: String)
    ensures
        res@ == "A;"@ + int_text(user as int) + ";"@ + int_text(a as int) + "\n"@,
{
    let mut frame = String::new();
    frame.append("A;");
    push_i32(&mut frame, user);
    frame.append(";");
    push_i32(&mut frame, a);
    frame.append("\n");
    frame
}

/// Two partners of chat `c` hold the same key when each stored the
/// other's public value `g^a mod c`: the chat id is the modulus, so for a
/// positive id the values fit in an `i32` and survive the storage.
pub proof fn lemma_partners_share_key(v1: ChatsView, v2: ChatsView, c: i32, g: i32)
    requires
        c > 0,
        v1.a >= 0,
        v2.a >= 0,
        v1.chats.contains_key(c),
        v2.chats.contains_key(c),
        v1.chats[c].b == modular_pow_spec(g as u64, v2.a as u64, c as u64) as i32,
        v2.chats[c].b == modular_pow_spec(g as u64, v1.a as u64, c as u64) as i32,
    ensures
        chat_key(v1, c) == chat_key(v2, c),
{
    let m = c as u64;
    let x2 = modular_pow_spec(g as u64, v2.a as u64, m);
    let x1 = modular_pow_spec(g as u64, v1.a as u64, m);
    assert(0 <= x2 < c && 0 <= x1 < c);
    assert((x2 as i32) as u64 == x2);
    assert((x1 as i32) as u64 == x1);
    lemma_shared_key(g as u64, v2.a as u64, v1.a as u64, m);
    assert(modular_pow_spec(x2 as u64, v1.a as u64, m) == pow(x2, v1.a as nat) % (m as int));
    assert(modular_pow_spec(x1 as u64, v2.a as u64, m) == pow(x1, v2.a as nat) % (m as int));
}

/// What one partner sends in chat `c`, the other deciphers to the same
/// text, given the key agreement of `lemma_partners_share_key`.
pub proof fn lemma_partner_reads_what_was_sent(v1: ChatsView, v2: ChatsView, c: i32, g: i32, text: Seq<
    char,
>)
    requires
        c > 0,
        v1.a >= 0,
        v2.a >= 0,
        v1.chats.contains_key(c),
        v2.chats.contains_key(c),
        v1.chats[c].b == modular_pow_spec(g as u64, v2.a as u64, c as u64) as i32,
        v2.chats[c].b == modular_pow_spec(g as u64, v1.a as u64, c as u64) as i32,
        can_encipher(v1, c, text),
    ensures
        can_encipher(v2, c, enciphered(v1, c, text)),
        enciphered(v2, c, enciphered(v1, c, text)) == text,
{
    lemma_partners_share_key(v1, v2, c, g);
    lemma_xor_encrypt_round_trip(text, chat_key(v1, c));
}

} // verus!
