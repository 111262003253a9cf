use messenger::relay::commands::Command;
use messenger::relay::message::{receive, Message};
use messenger::test_client::{check_command, check_number_of_arguments, extract_arg};

#[test]
fn relayed_line_names_the_sender() {
    let m = Message::new("ann".to_string(), "bob".to_string(), "hi".to_string());
    assert_eq!(m.parse(), ("bob".to_string(), "ann: hi".to_string()));
}

#[test]
fn relay_commands() {
    match Command::send("bob;hello;you", "ann".to_string()) {
        Ok(Command::Send { message }) => assert_eq!(message.parse(), ("bob".to_string(), "ann: hello;you".to_string())),
        _ => panic!("expected a message"),
    }
    assert!(matches!(Command::send(";hello", "ann".to_string()), Err(e) if e.is_empty()));
    assert!(matches!(Command::send("hello", "ann".to_string()), Err(e) if e.is_empty()));
    assert!(matches!(Command::connect("bob\r\n", "ann".to_string()),
        Ok(Command::Connect { me, other }) if me == "ann" && other == "bob"));
}

#[test]
fn answer_checks() {
    assert!(check_command("MID;7\n", "MID"));
    assert!(!check_command("MID;7\n", "MSG"));
    assert!(!check_command("MID\n", "MID"));
    assert!(check_number_of_arguments("MSG;1;2;hello\n", 3));
    assert!(!check_number_of_arguments("MSG;1;2;hello\n", 2));
    assert!(check_number_of_arguments("LGN;5;[];[]\n", 3));
    assert_eq!(extract_arg("MSG;1;2;hello\n", 2), Some("hello"));
    assert_eq!(extract_arg("MSG;1;2;hello\n", 0).map(|s| s.parse::<i32>().unwrap()), Some(1));
    assert_eq!(extract_arg("MSG;1;2;hello\n", 3), None);
    assert_eq!(extract_arg("MSG\n", 0), None);
}

#[test]
fn typed_lines_name_their_receiver() {
    assert_eq!(receive("ann", "bob:hi:there").map(|m| m.parse()), Some(("bob".to_string(), "ann: hi:there".to_string())));
    assert!(receive("ann", ":hi").is_none());
    assert!(receive("ann", "hi").is_none());
}
