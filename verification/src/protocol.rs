//! Frames travel unchanged between the ends: what one end prints, the
//! other end's parser reads back. These laws join the printing of one
//! module to the parsing of another.

use vstd::prelude::*;
use vstd::string::*;
use crate::client::from_server::{arg, int_arg, numeric_args};
use crate::server::commands::{delete_requires, update_requires, Command};
use crate::server::process::{command_post, command_requires};
use crate::text::{
    int_text, is_ws, lemma_i32_text_round_trip, lemma_int_text_plain, lemma_split_concat,
    lemma_split_once_concat, lemma_split_single, lemma_trim_line, parse_i32_spec, split_once_spec,
    split_spec, trim_spec,
};

verus! {

/// The text ends in a character other than whitespace, or is empty.
pub open spec fn no_trailing_ws(t: Seq<char>) -> bool {
    t.len() == 0 || !is_ws(t.last())
}

proof fn lemma_frame_split(cmd: Seq<char>, body: Seq<char>)
    requires
        cmd.len() > 0,
        !cmd.contains(';'),
        !is_ws(cmd[0]),
        no_trailing_ws(body),
    ensures
        split_once_spec(trim_spec(cmd + seq![';'] + body + seq!['\n']), ';') == Some((cmd, body)),
{
    let x = cmd + seq![';'] + body;
    assert(x[0] == cmd[0]);
    if body.len() > 0 {
        assert(x.last() == body.last());
    } else {
        assert(x.last() == ';');
    }
    lemma_trim_line(x);
    lemma_split_once_concat(cmd, ';', body);
}

proof fn lemma_no_sep(s: Seq<char>)
    requires
        s.len() == 3,
        s[0] != ';' && s[1] != ';' && s[2] != ';',
    ensures
        !s.contains(';'),
{
    if s.contains(';') {
        let k = choose|k: int| 0 <= k < s.len() && s[k] == ';';
        assert(s[k] == ';');
    }
}

/// The `MSG` frame that the server relays reaches the receiving client
/// intact: the command is `MSG`, and the three arguments are the chat id,
/// the message id and the text, as long as the text holds no `;` and does
/// not end in whitespace (the client trims each line and splits it at
/// `;`).
pub proof fn lemma_msg_frame_reaches_client(chat_id: i32, message_id: i32, text: Seq<char>)
    requires
        !text.contains(';'),
        no_trailing_ws(text),
    ensures
        ({
            let frame = "MSG;"@ + int_text(chat_id as int) + ";"@ + int_text(message_id as int) + ";"@
                + text + "\n"@;
            let content = int_text(chat_id as int) + seq![';'] + int_text(message_id as int) + seq![';']
                + text;
            &&& split_once_spec(trim_spec(frame), ';') == Some(("MSG"@, content))
            &&& numeric_args(content, 3, 2)
            &&& int_arg(content, 0) == Some(chat_id)
            &&& int_arg(content, 1) == Some(message_id)
            &&& arg(content, 2) == text
        }),
{
    reveal_strlit("MSG;");
    reveal_strlit("MSG");
    reveal_strlit(";");
    reveal_strlit("\n");
    let c = int_text(chat_id as int);
    let m = int_text(message_id as int);
    lemma_int_text_plain(chat_id as int);
    lemma_int_text_plain(message_id as int);
    lemma_i32_text_round_trip(chat_id);
    lemma_i32_text_round_trip(message_id);
    let content = c + seq![';'] + m + seq![';'] + text;
    let cmd = "MSG"@;
    lemma_no_sep(cmd);
    if text.len() == 0 {
        assert(content.last() == ';');
    } else {
        assert(content.last() == text.last());
    }
    lemma_frame_split(cmd, content);
    let frame = "MSG;"@ + c + ";"@ + m + ";"@ + text + "\n"@;
    assert(frame =~= cmd + seq![';'] + content + seq!['\n']);
    assert(content =~= c + seq![';'] + (m + seq![';'] + text));
    lemma_split_concat(c, ';', m + seq![';'] + text);
    lemma_split_concat(m, ';', text);
    lemma_split_single(text, ';');
    let pieces = split_spec(content, ';');
    assert(pieces =~= seq![c, m, text]);
    assert forall|i: int| 0 <= i < 2 implies (#[trigger] int_arg(content, i)) is Some by {
        if i == 0 {
            assert(arg(content, 0) == c);
        } else {
            assert(arg(content, 1) == m);
        }
    }
}

/// The `SND` frame that a client writes reaches the server intact: the
/// command is `SND`, the chat id parses back, and the rest is the
/// enciphered text, as long as that does not end in whitespace.
pub proof fn lemma_snd_frame_reaches_server(user: i32, cipher: Seq<char>)
    requires
        no_trailing_ws(cipher),
    ensures
        ({
            let frame = "SND;"@ + int_text(user as int) + ";"@ + cipher + "\n"@;
            let content = int_text(user as int) + seq![';'] + cipher;
            &&& split_once_spec(trim_spec(frame), ';') == Some(("SND"@, content))
            &&& split_once_spec(content, ';') == Some((int_text(user as int), cipher))
            &&& parse_i32_spec(int_text(user as int)) == Some(user)
        }),
{
    reveal_strlit("SND;");
    reveal_strlit("SND");
    reveal_strlit(";");
    reveal_strlit("\n");
    let c = int_text(user as int);
    lemma_int_text_plain(user as int);
    lemma_i32_text_round_trip(user);
    let content = c + seq![';'] + cipher;
    let cmd = "SND"@;
    lemma_no_sep(cmd);
    if cipher.len() == 0 {
        assert(content.last() == ';');
    } else {
        assert(content.last() == cipher.last());
    }
    lemma_frame_split(cmd, content);
    let frame = "SND;"@ + c + ";"@ + cipher + "\n"@;
    assert(frame =~= cmd + seq![';'] + content + seq!['\n']);
    lemma_split_once_concat(c, ';', cipher);
}

/// The server relays a deletion unchanged: the `DEL` frame a client
/// writes parses into the chat id and message id, and the frame the
/// server prints from them for the partner is the same text.
pub proof fn lemma_delete_relayed_unchanged(chat_id: i32, message_id: i32)
    ensures
        ({
            let frame = "DEL;"@ + int_text(chat_id as int) + ";"@ + int_text(message_id as int) + "\n"@;
            let content = int_text(chat_id as int) + seq![';'] + int_text(message_id as int);
            &&& split_once_spec(trim_spec(frame), ';') == Some(("DEL"@, content))
            &&& delete_requires(content)
            &&& split_once_spec(content, ';') == Some((int_text(chat_id as int), int_text(message_id as int)))
            &&& parse_i32_spec(int_text(chat_id as int)) == Some(chat_id)
            &&& parse_i32_spec(int_text(message_id as int)) == Some(message_id)
        }),
{
    reveal_strlit("DEL;");
    reveal_strlit("DEL");
    reveal_strlit(";");
    reveal_strlit("\n");
    let c = int_text(chat_id as int);
    let m = int_text(message_id as int);
    lemma_int_text_plain(chat_id as int);
    lemma_int_text_plain(message_id as int);
    lemma_i32_text_round_trip(chat_id);
    lemma_i32_text_round_trip(message_id);
    let content = c + seq![';'] + m;
    let cmd = "DEL"@;
    lemma_no_sep(cmd);
    assert(content.last() == m.last());
    assert(m.last() == m[m.len() - 1]);
    lemma_frame_split(cmd, content);
    let frame = "DEL;"@ + c + ";"@ + m + "\n"@;
    assert(frame =~= cmd + seq![';'] + content + seq!['\n']);
    lemma_split_once_concat(c, ';', m);
}

/// The server relays an edit unchanged: the `UPD` frame a client writes
/// parses into chat id, message id and text, and the frame the server
/// prints from them for the partner is the same text, as long as the text
/// holds no `;` and does not end in whitespace.
pub proof fn lemma_update_relayed_unchanged(chat_id: i32, message_id: i32, text: Seq<char>)
    requires
        !text.contains(';'),
        no_trailing_ws(text),
    ensures
        ({
            let frame = "UPD;"@ + int_text(chat_id as int) + ";"@ + int_text(message_id as int) + ";"@
                + text + "\n"@;
            let content = int_text(chat_id as int) + seq![';'] + int_text(message_id as int) + seq![';']
                + text;
            let args = split_spec(content, ';');
            &&& split_once_spec(trim_spec(frame), ';') == Some(("UPD"@, content))
            &&& update_requires(content)
            &&& args == seq![int_text(chat_id as int), int_text(message_id as int), text]
            &&& parse_i32_spec(args[0]) == Some(chat_id)
            &&& parse_i32_spec(args[1]) == Some(message_id)
        }),
{
    reveal_strlit("UPD;");
    reveal_strlit("UPD");
    reveal_strlit(";");
    reveal_strlit("\n");
    let c = int_text(chat_id as int);
    let m = int_text(message_id as int);
    lemma_int_text_plain(chat_id as int);
    lemma_int_text_plain(message_id as int);
    lemma_i32_text_round_trip(chat_id);
    lemma_i32_text_round_trip(message_id);
    let content = c + seq![';'] + m + seq![';'] + text;
    let cmd = "UPD"@;
    lemma_no_sep(cmd);
    if text.len() == 0 {
        assert(content.last() == ';');
    } else {
        assert(content.last() == text.last());
    }
    lemma_frame_split(cmd, content);
    let frame = "UPD;"@ + c + ";"@ + m + ";"@ + text + "\n"@;
    assert(frame =~= cmd + seq![';'] + content + seq!['\n']);
    assert(content =~= c + seq![';'] + (m + seq![';'] + text));
    lemma_split_concat(c, ';', m + seq![';'] + text);
    lemma_split_concat(m, ';', text);
    lemma_split_single(text, ';');
    assert(split_spec(content, ';') =~= seq![c, m, text]);
}

/// The server relays a read receipt unchanged: the `STS` frame a client
/// writes parses into the chat id, and the server prints the same frame
/// for the partner.
pub proof fn lemma_status_relayed_unchanged(chat_id: i32)
    ensures
        ({
            let frame = "STS;"@ + int_text(chat_id as int) + "\n"@;
            &&& split_once_spec(trim_spec(frame), ';') == Some(("STS"@, int_text(chat_id as int)))
            &&& parse_i32_spec(int_text(chat_id as int)) == Some(chat_id)
        }),
{
    reveal_strlit("STS;");
    reveal_strlit("STS");
    reveal_strlit(";");
    reveal_strlit("\n");
    let c = int_text(chat_id as int);
    lemma_int_text_plain(chat_id as int);
    lemma_i32_text_round_trip(chat_id);
    let cmd = "STS"@;
    lemma_no_sep(cmd);
    assert(c.last() == c[c.len() - 1]);
    lemma_frame_split(cmd, c);
    assert("STS;"@ + c + "\n"@ =~= cmd + seq![';'] + c + seq!['\n']);
}

/// A chat request the client writes for user `other` reaches the server's
/// parser as a request from the connection's user `id` to chat with
/// `other`.
pub proof fn lemma_cnt_frame_parses_back(other: i32, id: i32, res: Result<Command, ()>)
    ensures
        command_requires("CNT;"@ + int_text(other as int) + "\n"@),
        command_post("CNT;"@ + int_text(other as int) + "\n"@, id, res) ==> (res matches Ok(
            Command::Connect { id: i, other: o },
        ) && i == id && o == other),
{
    reveal_strlit("TESTINGCLEAR");
    reveal_strlit("SND");
    reveal_strlit("CNT");
    reveal_strlit("GET");
    reveal_strlit("STS");
    reveal_strlit("DEL");
    reveal_strlit("UPD");
    reveal_strlit("BLK");
    reveal_strlit("UBK");
    assert("CNT"@[0] != "TESTINGCLEAR"@[0]);
    assert("CNT"@[0] != "SND"@[0]);
    reveal_strlit(";");
    reveal_strlit("\n");
    let c = int_text(other as int);
    lemma_int_text_plain(other as int);
    lemma_i32_text_round_trip(other);
    reveal_strlit("CNT;");
    let cmd = "CNT"@;
    lemma_no_sep(cmd);
    assert(c.last() == c[c.len() - 1]);
    lemma_frame_split(cmd, c);
    assert("CNT;"@ + c + "\n"@ =~= cmd + seq![';'] + c + seq!['\n']);
}

/// A `BLK` line for user `other` is parsed as user `id` blocking `other`.
pub proof fn lemma_blk_frame_parses_back(other: i32, id: i32, res: Result<Command, ()>)
    ensures
        command_requires("BLK;"@ + int_text(other as int) + "\n"@),
        command_post("BLK;"@ + int_text(other as int) + "\n"@, id, res) ==> (res matches Ok(
            Command::Block { id: i, other: o },
        ) && i == id && o == other),
{
    reveal_strlit("TESTINGCLEAR");
    reveal_strlit("SND");
    reveal_strlit("CNT");
    reveal_strlit("GET");
    reveal_strlit("STS");
    reveal_strlit("DEL");
    reveal_strlit("UPD");
    reveal_strlit("BLK");
    reveal_strlit("UBK");
    assert("BLK"@[0] != "TESTINGCLEAR"@[0]);
    assert("BLK"@[0] != "SND"@[0]);
    assert("BLK"@[0] != "CNT"@[0]);
    assert("BLK"@[0] != "GET"@[0]);
    assert("BLK"@[0] != "STS"@[0]);
    assert("BLK"@[0] != "DEL"@[0]);
    assert("BLK"@[0] != "UPD"@[0]);
    reveal_strlit(";");
    reveal_strlit("\n");
    let c = int_text(other as int);
    lemma_int_text_plain(other as int);
    lemma_i32_text_round_trip(other);
    reveal_strlit("BLK;");
    let cmd = "BLK"@;
    lemma_no_sep(cmd);
    assert(c.last() == c[c.len() - 1]);
    lemma_frame_split(cmd, c);
    assert("BLK;"@ + c + "\n"@ =~= cmd + seq![';'] + c + seq!['\n']);
}

/// A `UBK` line for user `other` is parsed as user `id` unblocking
/// `other`.
pub proof fn lemma_ubk_frame_parses_back(other: i32, id: i32, res: Result<Command, ()>)
    ensures
        command_requires("UBK;"@ + int_text(other as int) + "\n"@),
        command_post("UBK;"@ + int_text(other as int) + "\n"@, id, res) ==> (res matches Ok(
            Command::Unblock { id: i, other: o },
        ) && i == id && o == other),
{
    reveal_strlit("TESTINGCLEAR");
    reveal_strlit("SND");
    reveal_strlit("CNT");
    reveal_strlit("GET");
    reveal_strlit("STS");
    reveal_strlit("DEL");
    reveal_strlit("UPD");
    reveal_strlit("BLK");
    reveal_strlit("UBK");
    assert("UBK"@[0] != "TESTINGCLEAR"@[0]);
    assert("UBK"@[0] != "SND"@[0]);
    assert("UBK"@[0] != "CNT"@[0]);
    assert("UBK"@[0] != "GET"@[0]);
    assert("UBK"@[0] != "STS"@[0]);
    assert("UBK"@[0] != "DEL"@[0]);
    assert("UBK"@[1] != "UPD"@[1]);
    assert("UBK"@[0] != "BLK"@[0]);
    reveal_strlit(";");
    reveal_strlit("\n");
    let c = int_text(other as int);
    lemma_int_text_plain(other as int);
    lemma_i32_text_round_trip(other);
    reveal_strlit("UBK;");
    let cmd = "UBK"@;
    lemma_no_sep(cmd);
    assert(c.last() == c[c.len() - 1]);
    lemma_frame_split(cmd, c);
    assert("UBK;"@ + c + "\n"@ =~= cmd + seq![';'] + c + seq!['\n']);
}

/// The `DEL` frame a client writes is parsed by the server as a deletion
/// by the connection's user `id` of that message in that chat.
pub proof fn lemma_delete_frame_parses_back(chat_id: i32, message_id: i32, id: i32, res: Result<Command, ()>)
    ensures
        ({
            let frame = "DEL;"@ + int_text(chat_id as int) + ";"@ + int_text(message_id as int) + "\n"@;
            &&& command_requires(frame)
            &&& command_post(frame, id, res) ==> (res matches Ok(Command::Delete { chat_id: c, id: i, message_id: m })
                && c == chat_id && i == id && m == message_id)
        }),
{
    reveal_strlit("TESTINGCLEAR");
    reveal_strlit("SND");
    reveal_strlit("CNT");
    reveal_strlit("GET");
    reveal_strlit("STS");
    reveal_strlit("DEL");
    reveal_strlit("UPD");
    reveal_strlit("BLK");
    reveal_strlit("UBK");
    assert("DEL"@[0] != "TESTINGCLEAR"@[0]);
    assert("DEL"@[0] != "SND"@[0]);
    assert("DEL"@[0] != "CNT"@[0]);
    assert("DEL"@[0] != "GET"@[0]);
    assert("DEL"@[0] != "STS"@[0]);
    lemma_delete_relayed_unchanged(chat_id, message_id);
}

/// The `STS` frame a client writes is parsed by the server as user `id`
/// having read that chat.
pub proof fn lemma_status_frame_parses_back(chat_id: i32, id: i32, res: Result<Command, ()>)
    ensures
        ({
            let frame = "STS;"@ + int_text(chat_id as int) + "\n"@;
            &&& command_requires(frame)
            &&& command_post(frame, id, res) ==> (res matches Ok(Command::Status { chat_id: c, id: i }) && c
                == chat_id && i == id)
        }),
{
    reveal_strlit("TESTINGCLEAR");
    reveal_strlit("SND");
    reveal_strlit("CNT");
    reveal_strlit("GET");
    reveal_strlit("STS");
    reveal_strlit("DEL");
    reveal_strlit("UPD");
    reveal_strlit("BLK");
    reveal_strlit("UBK");
    assert("STS"@[0] != "TESTINGCLEAR"@[0]);
    assert("STS"@[1] != "SND"@[1]);
    assert("STS"@[0] != "CNT"@[0]);
    assert("STS"@[0] != "GET"@[0]);
    lemma_status_relayed_unchanged(chat_id);
}

/// The `UPD` frame a client writes is parsed by the server as an edit by
/// the connection's user `id`: that message of that chat gets the text,
/// with status 4, as long as the text holds no `;` and does not end in
/// whitespace.
pub proof fn lemma_update_frame_parses_back(chat_id: i32, message_id: i32, text: Seq<char>, id: i32, res: Result<Command, ()>)
    requires
        !text.contains(';'),
        no_trailing_ws(text),
    ensures
        ({
            let frame = "UPD;"@ + int_text(chat_id as int) + ";"@ + int_text(message_id as int) + ";"@ + text
                + "\n"@;
            &&& command_requires(frame)
            &&& command_post(frame, id, res) ==> (res matches Ok(Command::Update { message }) && message.chat_id
                == chat_id && message.message_id == message_id && message.sender_id == id && message.content@
                == text && message.status == 4)
        }),
{
    reveal_strlit("TESTINGCLEAR");
    reveal_strlit("SND");
    reveal_strlit("CNT");
    reveal_strlit("GET");
    reveal_strlit("STS");
    reveal_strlit("DEL");
    reveal_strlit("UPD");
    reveal_strlit("BLK");
    reveal_strlit("UBK");
    assert("UPD"@[0] != "TESTINGCLEAR"@[0]);
    assert("UPD"@[0] != "SND"@[0]);
    assert("UPD"@[0] != "CNT"@[0]);
    assert("UPD"@[0] != "GET"@[0]);
    assert("UPD"@[0] != "STS"@[0]);
    assert("UPD"@[0] != "DEL"@[0]);
    lemma_update_relayed_unchanged(chat_id, message_id, text);
}

} // verus!
