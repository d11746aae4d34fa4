use minirc::command::Command;

#[test]
pub fn parsing_privmsg_works() {
    let test_str = ":Ranmaru!~ranmaru@2a02:908:13b2:5380:6c18:852b:8306:ac33 PRIVMSG ##rantestfoobazinga1337 :Foo! :D";
    let expected = Command::Privmsg(
        String::from("Ranmaru"),
        String::from("##rantestfoobazinga1337"),
        String::from("Foo! :D"),
    );
    let as_sent = String::from("PRIVMSG ##rantestfoobazinga1337 :Foo! :D\r\n");
    assert_eq!(Command::from_str(test_str), expected);
    assert_eq!(expected.to_string(), Some(as_sent));
}

#[test]
pub fn parsing_notice_works() {
    let test_str = ":niven.freenode.net NOTICE * :*** Looking up your hostname...";
    let expected = Command::Notice(
        String::from("niven.freenode.net"),
        String::from("*"),
        String::from("*** Looking up your hostname..."),
    );
    let as_sent = String::from("NOTICE * :*** Looking up your hostname...\r\n");
    assert_eq!(Command::from_str(test_str), expected);
    assert_eq!(expected.to_string(), Some(as_sent));
}

#[test]
pub fn parsing_ping_works() {
    let test_str = ":niven.freenode.net PING :pong me back";
    let expected = Command::Ping(String::from("pong me back"));
    let as_sent = String::from("PING pong me back\r\n");
    assert_eq!(Command::from_str(test_str), expected);
    assert_eq!(expected.to_string(), Some(as_sent));
}

#[test]
pub fn parsing_pong_works() {
    let test_str = ":Ranmaru!~ranmaru@2a02:908:13b2:5380:6c18:852b:8306:ac33 PONG :pong pong pong";
    let expected = Command::Pong(String::from("pong pong pong"));
    let as_sent = String::from("PONG pong pong pong\r\n");
    assert_eq!(Command::from_str(test_str), expected);
    assert_eq!(expected.to_string(), Some(as_sent));
}

#[test]
pub fn sending_join_and_part_works() {
    let single = Command::Join(vec![String::from("##foo")]);
    let multiple = Command::Join(vec![
        String::from("##foo"),
        String::from("#bar"),
        String::from("##baz"),
    ]);
    let expected = String::from("JOIN ##foo\r\n");
    let expected_mult = String::from("JOIN ##foo,#bar,##baz\r\n");
    assert_eq!(single.to_string(), Some(expected));
    assert_eq!(multiple.to_string(), Some(expected_mult));
}

#[test]
pub fn printing_works() {
    let privmsg = Command::Privmsg(
        String::from("Ranmaru"),
        String::from("##foo"),
        String::from("Hello World!"),
    );
    assert_eq!(
        privmsg.to_printable().unwrap(),
        String::from("<Ranmaru> Hello World!")
    );
}
