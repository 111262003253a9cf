use std::collections::{HashMap, VecDeque};

use messenger::server::commands::Command;
use messenger::server::container::{Container, Outgoing};
use messenger::server::manager::handle_command;
use messenger::server::process::{command_is_parsable, get_command};
use messenger::test_client::{check_command, check_number_of_arguments, extract_arg};

/// The server's decisions run in process: users, chats and message ids are
/// handed out in order, and each frame lands in its receiver's inbox.
struct Server {
    clients: Container,
    inbox: HashMap<i32, VecDeque<String>>,
    next_user: i32,
    next_chat: i32,
    next_message: i32,
}

impl Server {
    fn new() -> Server {
        Server {
            clients: Container::new(Vec::new(), Vec::new()),
            inbox: HashMap::new(),
            next_user: 1,
            next_chat: 1,
            next_message: 1,
        }
    }

    fn deliver(&mut self, out: Vec<Outgoing>) {
        for o in out {
            assert!(self.clients.is_user(o.to), "frame for an unknown user");
            self.inbox.entry(o.to).or_default().push_back(o.frame);
        }
    }

    fn handle(&mut self, id: i32, line: &str) {
        assert!(command_is_parsable(line));
        let mut command = get_command(line, id).expect("a known command");
        let mut chat_id = 0;
        match &mut command {
            Command::Send { message } => {
                message.message_id = self.next_message;
                self.next_message += 1;
            }
            Command::Connect { .. } => {
                chat_id = self.next_chat;
                self.next_chat += 1;
            }
            Command::Testing_Clear => self.inbox.clear(),
            _ => {}
        }
        let out = handle_command(&mut self.clients, command, chat_id, true).expect("a handled request");
        self.deliver(out);
    }
}

struct TestClient {
    id: i32,
}

impl TestClient {
    fn receive(&self, s: &mut Server) -> String {
        s.inbox.get_mut(&self.id).and_then(|q| q.pop_front()).expect("a frame")
    }

    fn reg_and_login(s: &mut Server, i: usize) -> TestClient {
        let id = s.next_user;
        s.next_user += 1;
        s.clients.new_user(id, format!("USR{i}"));
        let reply = s.clients.login(id, "[]", "[]").expect("first login");
        assert!(check_command(&reply, "LGN"));
        assert!(check_number_of_arguments(&reply, 3));
        let id: i32 = extract_arg(&reply, 0).unwrap().parse().unwrap();
        TestClient { id }
    }

    fn connect(&self, s: &mut Server, other: &TestClient) -> i32 {
        s.handle(self.id, &format!("CNT;{}\n", other.id));
        let r1 = self.receive(s);
        let r2 = other.receive(s);
        let id: i32 = extract_arg(&r1, 0).unwrap().parse().unwrap();
        assert_eq!(id, extract_arg(&r2, 0).unwrap().parse::<i32>().unwrap());
        assert_eq!(other.id, extract_arg(&r1, 1).unwrap().parse::<i32>().unwrap());
        assert_eq!(self.id, extract_arg(&r2, 1).unwrap().parse::<i32>().unwrap());
        id
    }

    fn message(&self, s: &mut Server, other: &TestClient, id: i32) -> i32 {
        s.handle(self.id, &format!("SND;{};hello\n", id));
        let r1 = self.receive(s);
        let r2 = other.receive(s);
        assert!(check_command(&r1, "MID"));
        assert!(check_number_of_arguments(&r1, 1));
        assert!(check_command(&r2, "MSG"));
        assert!(check_number_of_arguments(&r2, 3));
        let mid: i32 = extract_arg(&r1, 0).unwrap().parse().unwrap();
        assert_eq!(id, extract_arg(&r2, 0).unwrap().parse::<i32>().unwrap());
        assert_eq!(mid, extract_arg(&r2, 1).unwrap().parse::<i32>().unwrap());
        assert_eq!("hello", extract_arg(&r2, 2).unwrap());
        mid
    }

    fn block(&self, s: &mut Server, other: &TestClient) {
        s.handle(self.id, &format!("BLK;{}\n", other.id));
        let r = other.receive(s);
        assert!(check_command(&r, "BLK"));
        assert_eq!(self.id, extract_arg(&r, 0).unwrap().parse::<i32>().unwrap());
    }

    fn unblock(&self, s: &mut Server, other: &TestClient) {
        s.handle(self.id, &format!("UBK;{}\n", other.id));
        let r = other.receive(s);
        assert!(check_command(&r, "ALL"));
        assert_eq!(self.id, extract_arg(&r, 0).unwrap().parse::<i32>().unwrap());
    }
}

fn connect(s: &mut Server) -> (TestClient, TestClient, i32) {
    let c1 = TestClient::reg_and_login(s, 1);
    let c2 = TestClient::reg_and_login(s, 2);
    let c = c1.connect(s, &c2);
    (c1, c2, c)
}

#[test]
fn connect_once() {
    let mut s = Server::new();
    let _c = TestClient::reg_and_login(&mut s, 1);
    s.handle(1, "TESTINGCLEAR;\n");
    assert!(!s.clients.is_user(1));
}

#[test]
fn connect_10_times() {
    let mut s = Server::new();
    for n in 0..10 {
        let c = TestClient::reg_and_login(&mut s, n);
        s.handle(c.id, "GET;ALL\n");
        let reply = c.receive(&mut s);
        assert!(check_command(&reply, "ALL"));
        assert!(check_number_of_arguments(
            &reply,
            match n {
                0 | 1 => n + 1,
                _ => (n + 1) * 2 - 2,
            },
        ));
    }
}

#[test]
fn connecting_2_users() {
    let mut s = Server::new();
    let c1 = TestClient::reg_and_login(&mut s, 1);
    let c2 = TestClient::reg_and_login(&mut s, 2);
    c1.connect(&mut s, &c2);
}

#[test]
fn send_message() {
    let mut s = Server::new();
    let (c1, c2, id) = connect(&mut s);
    c1.message(&mut s, &c2, id);
}

#[test]
fn set_read() {
    let mut s = Server::new();
    let (c1, c2, id) = connect(&mut s);
    c1.message(&mut s, &c2, id);
    s.handle(c2.id, &format!("STS;{id}\n"));
    let r = c1.receive(&mut s);
    assert!(check_command(&r, "STS"));
    assert_eq!(id, extract_arg(&r, 0).unwrap().parse::<i32>().unwrap());
}

#[test]
fn delete_message() {
    let mut s = Server::new();
    let (c1, c2, id) = connect(&mut s);
    let mid = c1.message(&mut s, &c2, id);
    let command = format!("DEL;{id};{mid}\n");
    s.handle(c2.id, &command);
    let r = c1.receive(&mut s);
    assert_eq!(r, command);
}

#[test]
fn edit_message() {
    let mut s = Server::new();
    let (c1, c2, id) = connect(&mut s);
    let mid = c1.message(&mut s, &c2, id);
    let command = format!("UPD;{id};{mid};hii\n");
    s.handle(c2.id, &command);
    let r = c1.receive(&mut s);
    assert_eq!(r, command);
}

#[test]
fn block() {
    let mut s = Server::new();
    let c1 = TestClient::reg_and_login(&mut s, 1);
    let c2 = TestClient::reg_and_login(&mut s, 2);
    c1.block(&mut s, &c2);
}

#[test]
fn unblock() {
    let mut s = Server::new();
    let c1 = TestClient::reg_and_login(&mut s, 1);
    let c2 = TestClient::reg_and_login(&mut s, 2);
    c1.block(&mut s, &c2);
    c1.unblock(&mut s, &c2);
}
