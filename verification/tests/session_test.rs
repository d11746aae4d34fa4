use minirc::channel::Channel;
use minirc::command::{auth_commands, Command, UiCommand};
use minirc::connection::Connection;
use minirc::interface::Interface;
use minirc::thread_tools::{parse_incoming_cmd, parse_user_input};

fn fresh_session() -> Interface {
    let conn = Connection::new(
        String::from("irc.example.net"),
        String::from("6667"),
        String::new(),
        String::from("user"),
    );
    Interface::new(conn)
}

#[test]
fn connection_splits_empty_password() {
    let conn = Connection::new(
        String::from("irc.example.net"),
        String::from("6667"),
        String::new(),
        String::from("user"),
    );
    assert_eq!(conn.address, String::from("irc.example.net:6667"));
    assert_eq!(conn.password, None);
    let with_pw = Connection::new(
        String::from("irc.example.net"),
        String::from("6667"),
        String::from("pw"),
        String::from("user"),
    );
    assert_eq!(with_pw.password, Some(String::from("pw")));
}

#[test]
fn auth_sequence_with_and_without_password() {
    let conn = Connection::new(
        String::from("srv"),
        String::from("6667"),
        String::from("pw"),
        String::from("alice"),
    );
    let cmds = auth_commands(&conn);
    assert_eq!(cmds.len(), 3);
    assert_eq!(cmds[0], Command::Pass(String::from("pw")));
    assert_eq!(cmds[1], Command::Nick(String::from("alice")));
    assert_eq!(cmds[2], Command::User(String::from("alice"), String::from("alice")));

    let conn = Connection::new(
        String::from("srv"),
        String::from("6667"),
        String::new(),
        String::from("alice"),
    );
    let cmds = auth_commands(&conn);
    assert_eq!(cmds.len(), 2);
    assert_eq!(cmds[0], Command::Nick(String::from("alice")));
}

#[test]
fn join_then_part_reclamps_active() {
    let mut itf = fresh_session();
    assert_eq!(itf.channels_len(), 1);
    assert_eq!(itf.get_channel(0), Some(String::from("irc.example.net")));

    let joined = parse_user_input(":j #a", &mut itf);
    assert_eq!(joined, Command::Join(vec![String::from("#a")]));
    let joined = parse_user_input(":j #b", &mut itf);
    assert_eq!(joined, Command::Join(vec![String::from("#b")]));

    assert_eq!(itf.channels_len(), 3);
    assert_eq!(itf.get_channel(1), Some(String::from("#a")));
    assert_eq!(itf.get_channel(2), Some(String::from("#b")));
    assert_eq!(itf.get_active_channel_pos(), 2);

    let parted = parse_user_input(":p #a", &mut itf);
    assert_eq!(parted, Command::Part(vec![String::from("#a")]));
    assert_eq!(itf.channels_len(), 2);
    assert_eq!(itf.get_channel(0), Some(String::from("irc.example.net")));
    assert_eq!(itf.get_channel(1), Some(String::from("#b")));
    assert_eq!(itf.get_active_channel_pos(), 1);
}

#[test]
fn part_keeps_unaffected_active_index() {
    let mut itf = fresh_session();
    parse_user_input(":j #a #b #c", &mut itf);
    assert_eq!(itf.channels_len(), 4);
    assert_eq!(itf.get_active_channel_pos(), 3);
    itf.store_active_channel(1);
    parse_user_input(":p #c", &mut itf);
    assert_eq!(itf.get_active_channel_pos(), 1);
    assert_eq!(itf.get_channel(1), Some(String::from("#a")));
}

#[test]
fn status_channel_is_permanent() {
    let mut itf = fresh_session();
    let parted = parse_user_input(":p irc.example.net", &mut itf);
    assert_eq!(parted, Command::Part(Vec::new()));
    assert_eq!(itf.channels_len(), 1);
    itf.remove_channel(0);
    assert_eq!(itf.channels_len(), 1);
}

#[test]
fn part_of_missing_channel_is_a_noop() {
    let mut itf = fresh_session();
    let parted = parse_user_input(":p #nowhere", &mut itf);
    assert_eq!(parted, Command::Part(Vec::new()));
    assert_eq!(itf.channels_len(), 1);
}

#[test]
fn take_refresh_needed_reads_and_clears() {
    let mut itf = fresh_session();
    assert!(!itf.should_refresh_buffers());
    itf.set_refresh_buffers_flag();
    assert!(itf.take_refresh_needed());
    assert!(!itf.take_refresh_needed());
    assert!(!itf.should_refresh_buffers());
}

#[test]
fn quit_raises_shutdown() {
    let mut itf = fresh_session();
    assert!(!itf.should_shutdown());
    let quit = parse_user_input(":q", &mut itf);
    assert_eq!(quit, Command::Quit(String::from("Quitting ...")));
    assert!(itf.should_shutdown());

    let mut itf = fresh_session();
    let quit = parse_user_input(":q gone fishing", &mut itf);
    assert_eq!(quit, Command::Quit(String::from("gone fishing")));
    assert!(itf.should_shutdown());
}

#[test]
fn change_active_selects_in_range_indices_only() {
    let mut itf = fresh_session();
    parse_user_input(":j #a", &mut itf);
    assert_eq!(itf.get_active_channel_pos(), 1);

    let cmd = parse_user_input(":c 0", &mut itf);
    assert_eq!(cmd, Command::Internal(UiCommand::SwitchBuffer(0)));
    assert_eq!(itf.get_active_channel_pos(), 0);

    let cmd = parse_user_input(":c 99", &mut itf);
    assert_eq!(cmd, Command::Internal(UiCommand::PrintBuffers));
    assert_eq!(itf.get_active_channel_pos(), 0);

    let cmd = parse_user_input(":c", &mut itf);
    assert_eq!(cmd, Command::Internal(UiCommand::PrintBuffers));
    let cmd = parse_user_input(":c x1", &mut itf);
    assert_eq!(cmd, Command::Internal(UiCommand::PrintBuffers));
}

#[test]
fn unknown_selector_is_unknown() {
    let mut itf = fresh_session();
    assert_eq!(parse_user_input(":x whatever", &mut itf), Command::Unknown);
    assert_eq!(parse_user_input(":", &mut itf), Command::Unknown);
    assert_eq!(itf.channels_len(), 1);
}

#[test]
fn plain_line_is_a_message_to_the_active_channel() {
    let mut itf = fresh_session();
    parse_user_input(":j #a", &mut itf);
    let cmd = parse_user_input("hello there", &mut itf);
    assert_eq!(
        cmd,
        Command::Privmsg(String::from("user"), String::from("#a"), String::from("hello there"))
    );
}

#[test]
fn incoming_message_creates_channel_on_first_contact() {
    let mut itf = fresh_session();
    let cmd = Command::from_str(":bob!~b@host PRIVMSG #room :first words");
    let out = parse_incoming_cmd(cmd, &mut itf);
    assert_eq!(out, None);
    assert_eq!(itf.channels_len(), 2);
    assert_eq!(itf.get_channel(1), Some(String::from("#room")));
    assert!(itf.should_refresh_buffers());
    assert_eq!(itf.channel_buffer(1), vec![String::from("<bob> first words")]);
}

#[test]
fn incoming_message_to_active_channel_is_forwarded() {
    let mut itf = fresh_session();
    parse_user_input(":j #room", &mut itf);
    assert_eq!(itf.get_active_channel_pos(), 1);
    let cmd = Command::from_str(":bob!~b@host PRIVMSG #room :hi");
    let out = parse_incoming_cmd(cmd, &mut itf);
    assert_eq!(out, Some(String::from("<bob> hi")));
    let cmd = Command::from_str(":bob!~b@host PRIVMSG irc.example.net :psst");
    let out = parse_incoming_cmd(cmd, &mut itf);
    assert_eq!(out, None);
}

#[test]
fn private_query_files_under_the_sender() {
    let mut itf = fresh_session();
    let cmd = Command::from_str(":bob!~b@host PRIVMSG user :just us");
    parse_incoming_cmd(cmd, &mut itf);
    assert_eq!(itf.channels_len(), 2);
    assert_eq!(itf.get_channel(1), Some(String::from("bob")));
}

#[test]
fn notice_goes_to_the_status_channel() {
    let mut itf = fresh_session();
    let cmd = Command::from_str(":srv NOTICE * :*** hello");
    let out = parse_incoming_cmd(cmd, &mut itf);
    assert_eq!(out, Some(String::from("-> *** hello")));
    assert_eq!(itf.channels_len(), 1);
    assert_eq!(itf.channel_buffer(0), vec![String::from("-> *** hello")]);

    parse_user_input(":j #a", &mut itf);
    let cmd = Command::from_str(":srv NOTICE * :*** more");
    let out = parse_incoming_cmd(cmd, &mut itf);
    assert_eq!(out, None);
}

#[test]
fn undisplayable_commands_are_dropped() {
    let mut itf = fresh_session();
    let out = parse_incoming_cmd(Command::from_str(":srv PING :x"), &mut itf);
    assert_eq!(out, None);
    let out = parse_incoming_cmd(Command::Unknown, &mut itf);
    assert_eq!(out, None);
    assert_eq!(itf.channels_len(), 1);
    assert_eq!(itf.channel_buffer(0), Vec::<String>::new());
}

#[test]
fn pending_appends_record_every_write() {
    let mut itf = fresh_session();
    parse_incoming_cmd(Command::from_str(":srv NOTICE * :one"), &mut itf);
    parse_incoming_cmd(Command::from_str(":bob!b@h PRIVMSG #a :two"), &mut itf);
    let pending = itf.take_pending();
    assert_eq!(pending.len(), 2);
    assert_eq!(pending[0].channel, String::from("irc.example.net"));
    assert_eq!(pending[0].line, String::from("-> one"));
    assert_eq!(pending[1].channel, String::from("#a"));
    assert_eq!(pending[1].line, String::from("<bob> two"));
    assert_eq!(itf.take_pending().len(), 0);
}

#[test]
fn write_to_chan_reports_whether_it_wrote() {
    let mut itf = fresh_session();
    assert!(itf.write_to_chan(0, "line"));
    assert!(!itf.write_to_chan(5, "line"));
    assert_eq!(itf.channel_buffer(0), vec![String::from("line")]);
}

#[test]
fn channel_lookup_finds_the_first_match() {
    let mut itf = fresh_session();
    itf.push_channel(Channel::new("#dup", "irc.example.net"));
    itf.push_channel(Channel::new("#dup", "irc.example.net"));
    assert_eq!(itf.get_channel_pos("#dup"), Some(1));
    assert_eq!(itf.get_channel_pos("#none"), None);
    assert!(itf.is_active("irc.example.net"));
    assert!(!itf.is_active("#dup"));
}
