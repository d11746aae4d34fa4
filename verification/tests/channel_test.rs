use minirc::channel::{Channel, MAX_HIST};
use minirc::text::split_lines;
use minirc::ui::split_line;

#[test]
fn split_lines_handles_terminators() {
    assert_eq!(
        split_lines("a\r\nb\r\n"),
        vec![String::from("a"), String::from("b")]
    );
    assert_eq!(split_lines("a\nb"), vec![String::from("a"), String::from("b")]);
    assert_eq!(
        split_lines("x\n\ny"),
        vec![String::from("x"), String::new(), String::from("y")]
    );
    assert_eq!(split_lines(""), Vec::<String>::new());
}

#[test]
fn ring_buffer_keeps_the_most_recent_lines() {
    let mut chan = Channel::new("#t", "srv");
    let total = MAX_HIST + 5;
    for i in 0..total {
        chan.write(&format!("msg{}", i));
    }
    let buffer = chan.get_buffer();
    assert_eq!(buffer.len(), MAX_HIST);
    for (j, line) in buffer.iter().enumerate() {
        assert_eq!(line, &format!("msg{}", j + 5));
    }
}

#[test]
fn fresh_channel_is_empty() {
    let chan = Channel::new("#t", "srv");
    assert_eq!(chan.get_id(), "#t");
    assert_eq!(chan.get_buffer().len(), 0);
}

#[test]
fn history_drops_the_truncated_first_line() {
    let lines = vec![
        String::from("cut off"),
        String::from("one"),
        String::from("two"),
    ];
    let chan = Channel::with_history("#t", "srv", &lines, true);
    let buffer = chan.get_buffer();
    assert_eq!(buffer.len(), 2);
    assert_eq!(buffer[0], String::from("one"));
    assert_eq!(buffer[1], String::from("two"));

    let chan = Channel::with_history("#t", "srv", &lines, false);
    assert_eq!(chan.get_buffer().len(), 3);
}

#[test]
fn history_is_capped_at_the_window_size() {
    let mut lines = Vec::new();
    for i in 0..MAX_HIST + 7 {
        lines.push(format!("old{}", i));
    }
    let chan = Channel::with_history("#t", "srv", &lines, false);
    let buffer = chan.get_buffer();
    assert_eq!(buffer.len(), MAX_HIST);
    assert_eq!(buffer[0], format!("old{}", 7));
    assert_eq!(buffer[MAX_HIST - 1], format!("old{}", MAX_HIST + 6));
}

#[test]
fn writes_after_a_full_history_evict_the_oldest() {
    let mut lines = Vec::new();
    for i in 0..MAX_HIST {
        lines.push(format!("old{}", i));
    }
    let mut chan = Channel::with_history("#t", "srv", &lines, false);
    chan.write("fresh");
    let buffer = chan.get_buffer();
    assert_eq!(buffer.len(), MAX_HIST);
    assert_eq!(buffer[0], String::from("old1"));
    assert_eq!(buffer[MAX_HIST - 1], String::from("fresh"));
}

#[test]
fn split_line_wraps_greedily() {
    assert_eq!(
        split_line("foo bar baz", 8),
        vec![String::from("foo bar"), String::from("baz")]
    );
    assert_eq!(split_line("a b", 3), vec![String::from("a b")]);
    assert_eq!(split_line("a b", 1), vec![String::from("a"), String::from("b")]);
}

#[test]
fn split_line_keeps_wide_words_whole() {
    assert_eq!(
        split_line("verylongword", 4),
        vec![String::from("verylongword")]
    );
    assert_eq!(
        split_line("hi verylongword yo", 4),
        vec![
            String::from("hi"),
            String::from("verylongword"),
            String::from("yo"),
        ]
    );
}

#[test]
fn split_line_collapses_whitespace() {
    assert_eq!(split_line("a   b", 9), vec![String::from("a b")]);
    assert_eq!(split_line("", 10), Vec::<String>::new());
    assert_eq!(split_line("   ", 10), Vec::<String>::new());
}
