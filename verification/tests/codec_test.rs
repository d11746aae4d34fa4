use minirc::command::{ping_response, Command, UiCommand};

#[test]
fn blank_or_prefix_only_lines_are_unknown() {
    assert_eq!(Command::from_str(""), Command::Unknown);
    assert_eq!(Command::from_str("   "), Command::Unknown);
    assert_eq!(Command::from_str(":onlyprefix"), Command::Unknown);
}

#[test]
fn unknown_verbs_are_unknown() {
    assert_eq!(Command::from_str(":server 001 user :welcome"), Command::Unknown);
    assert_eq!(Command::from_str("JOIN #foo\r\n"), Command::Unknown);
    assert_eq!(Command::from_str("QUIT :bye\r\n"), Command::Unknown);
}

#[test]
fn decode_example_privmsg() {
    let decoded = Command::from_str(":Ranmaru!~r@host PRIVMSG ##foo :Hello World");
    assert_eq!(
        decoded,
        Command::Privmsg(
            String::from("Ranmaru"),
            String::from("##foo"),
            String::from("Hello World"),
        )
    );
    let encoded = Command::Privmsg(
        String::from("whoever"),
        String::from("##foo"),
        String::from("Hello World"),
    )
    .to_string();
    assert_eq!(encoded, Some(String::from("PRIVMSG ##foo :Hello World\r\n")));
}

#[test]
fn decode_without_prefix_has_empty_sender() {
    let decoded = Command::from_str("PRIVMSG #chan :hi there\r\n");
    assert_eq!(
        decoded,
        Command::Privmsg(String::new(), String::from("#chan"), String::from("hi there"))
    );
}

#[test]
fn ping_is_answered_with_pong() {
    let decoded = Command::from_str(":server PING :abc123");
    assert_eq!(decoded, Command::Ping(String::from("abc123")));
    let reply = ping_response(&decoded).expect("a ping demands a pong");
    assert_eq!(reply, Command::Pong(String::from("abc123")));
    assert_eq!(reply.to_string(), Some(String::from("PONG abc123\r\n")));
}

#[test]
fn only_pings_are_answered() {
    let msg = Command::Privmsg(String::from("a"), String::from("#b"), String::from("c"));
    assert_eq!(ping_response(&msg), None);
    assert_eq!(ping_response(&Command::Unknown), None);
}

#[test]
fn encode_templates() {
    assert_eq!(
        Command::Pass(String::from("pw")).to_string(),
        Some(String::from("PASS pw\r\n"))
    );
    assert_eq!(
        Command::Nick(String::from("alice")).to_string(),
        Some(String::from("NICK alice\r\n"))
    );
    assert_eq!(
        Command::User(String::from("alice"), String::from("alice")).to_string(),
        Some(String::from("USER alice * * :alice\r\n"))
    );
    assert_eq!(
        Command::Quit(String::from("bye")).to_string(),
        Some(String::from("QUIT :bye\r\n"))
    );
    assert_eq!(
        Command::Part(vec![String::from("#a"), String::from("#b")]).to_string(),
        Some(String::from("PART #a,#b\r\n"))
    );
}

#[test]
fn internal_and_unknown_have_no_wire_form() {
    assert_eq!(Command::Unknown.to_string(), None);
    assert_eq!(Command::Internal(UiCommand::PrintBuffers).to_string(), None);
    assert_eq!(Command::Internal(UiCommand::SwitchBuffer(3)).to_string(), None);
}

#[test]
fn round_trip_of_encoded_messages() {
    let original = Command::Privmsg(
        String::from("me"),
        String::from("#room"),
        String::from("one :two three"),
    );
    let wire = original.to_string().unwrap();
    assert_eq!(
        Command::from_str(&wire),
        Command::Privmsg(String::new(), String::from("#room"), String::from("one :two three"))
    );

    let ping = Command::Ping(String::from("token-42"));
    let wire = ping.to_string().unwrap();
    assert_eq!(Command::from_str(&wire), ping);

    let pong = Command::Pong(String::from("token 43"));
    let wire = pong.to_string().unwrap();
    assert_eq!(Command::from_str(&wire), pong);

    let notice = Command::Notice(String::from("x"), String::from("*"), String::from("n"));
    let wire = notice.to_string().unwrap();
    assert_eq!(
        Command::from_str(&wire),
        Command::Notice(String::new(), String::from("*"), String::from("n"))
    );
}

#[test]
fn printable_trims_the_text() {
    let notice = Command::Notice(
        String::from("srv"),
        String::from("*"),
        String::from(" hi \r\n"),
    );
    assert_eq!(notice.to_printable(), Some(String::from("-> hi")));
    let msg = Command::Privmsg(
        String::from("bob"),
        String::from("#a"),
        String::from("text\r\n"),
    );
    assert_eq!(msg.to_printable(), Some(String::from("<bob> text")));
    assert_eq!(Command::Ping(String::from("x")).to_printable(), None);
}
