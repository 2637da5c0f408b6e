use dirtail::follow::{FollowAction, FollowReply, Follower};
use dirtail::order::TimeKey;
use dirtail::path::FilePath;
use dirtail::startup::{oldest_first, ColoredFile};
use dirtail::tail::{resume_position, ReadEvent, TailRing, TAIL_LINES};
use dirtail::text::{contains, to_decimal, trim_line_end};

fn file() -> FilePath {
    FilePath::new(b"/d/x.log".to_vec(), Some(String::from("x.log")))
}

/// Feeds a text to a ring, line by line, as a buffered reader would.
fn read_all(ring: &mut TailRing, content: &str) {
    for line in content.split_inclusive('\n') {
        assert!(ring.on_read(&ReadEvent::Line(String::from(line))));
    }
    assert!(!ring.on_read(&ReadEvent::EndOfFile));
}

fn received(ring: &TailRing) -> Vec<String> {
    ring.messages(&file(), 0).into_iter().map(|m| m.line).collect()
}

fn line_of(action: FollowAction) -> String {
    match action {
        FollowAction::Send(message) => message.line,
        other => panic!("expected a line, got {:?}", other),
    }
}

#[test]
fn tail_existing_file_emits_last_10_of_15_lines() {
    let content: String = (1..=15).map(|i| format!("line {}\n", i)).collect();
    let mut ring = TailRing::new();
    read_all(&mut ring, &content);
    let received = received(&ring);
    assert_eq!(received.len(), 10);
    assert_eq!(received[0], "line 6");
    assert_eq!(received[9], "line 15");
}

#[test]
fn tail_existing_file_fewer_than_10_lines_emits_all() {
    let mut ring = TailRing::new();
    read_all(&mut ring, "line 1\nline 2\nline 3\n");
    assert_eq!(received(&ring), vec!["line 1", "line 2", "line 3"]);
}

#[test]
fn tail_new_file_follows_from_beginning() {
    let mut follower = Follower::new(file(), 0, 0);
    assert!(matches!(follower.step(&FollowReply::Opened(true)), FollowAction::Read));
    assert!(matches!(
        follower.step(&FollowReply::Read(ReadEvent::EndOfFile)),
        FollowAction::Wait
    ));
    assert!(matches!(
        follower.step(&FollowReply::Waited(Some(0), Some(26))),
        FollowAction::Read
    ));
    let line = String::from("INFO: hello from new file\n");
    let action = follower.step(&FollowReply::Read(ReadEvent::Line(line)));
    assert_eq!(line_of(action), "INFO: hello from new file");
}

#[test]
fn tail_follows_appended_lines() {
    let mut ring = TailRing::new();
    read_all(&mut ring, "existing\n");
    assert_eq!(received(&ring), vec!["existing"]);
    let mut follower = Follower::new(file(), 9, 0);
    assert!(matches!(follower.step(&FollowReply::Opened(true)), FollowAction::SeekTo(9)));
    assert!(matches!(follower.step(&FollowReply::Sought(true)), FollowAction::Read));
    let line = String::from("ERROR: appended error\n");
    let action = follower.step(&FollowReply::Read(ReadEvent::Line(line)));
    assert_eq!(line_of(action), "ERROR: appended error");
}

#[test]
fn tail_empty_file_then_write_is_picked_up() {
    let mut ring = TailRing::new();
    read_all(&mut ring, "");
    assert_eq!(received(&ring).len(), 0);
    let mut follower = Follower::new(file(), 0, 0);
    follower.step(&FollowReply::Opened(true));
    follower.step(&FollowReply::Read(ReadEvent::EndOfFile));
    follower.step(&FollowReply::Waited(Some(0), Some(0)));
    let line = String::from("DEBUG: written after start\n");
    let action = follower.step(&FollowReply::Read(ReadEvent::Line(line)));
    assert_eq!(line_of(action), "DEBUG: written after start");
}

#[test]
fn startup_initial_lines_emitted_in_mtime_ascending_order() {
    // Colors are not in the order of age: new, old, mid.
    let lines = ["new line\n", "old line\n", "mid line\n"];
    let files = vec![
        ColoredFile { entry: 0, color_idx: 0 },
        ColoredFile { entry: 1, color_idx: 1 },
        ColoredFile { entry: 2, color_idx: 2 },
    ];
    let times = vec![
        TimeKey { nanos: Some(1_767_225_600_000_000_000) },
        TimeKey { nanos: Some(1_577_836_800_000_000_000) },
        TimeKey { nanos: Some(1_672_531_200_000_000_000) },
    ];
    let mut all: Vec<String> = Vec::new();
    for file in oldest_first(&files, &times) {
        let mut ring = TailRing::new();
        read_all(&mut ring, lines[file.entry]);
        all.extend(received(&ring));
    }
    // Lines must arrive oldest-first: old, mid, new
    assert_eq!(all, vec!["old line", "mid line", "new line"]);
}

#[test]
fn a_ring_of_exactly_ten_lines_keeps_them() {
    let mut ring = TailRing::new();
    for i in 0..TAIL_LINES {
        ring.push(&format!("{}\r\n", i));
    }
    assert_eq!(ring.lines(), vec!["0", "1", "2", "3", "4", "5", "6", "7", "8", "9"]);
    ring.push("10");
    assert_eq!(ring.lines(), vec!["1", "2", "3", "4", "5", "6", "7", "8", "9", "10"]);
    for i in 11..134 {
        ring.push(&format!("{}\n", i));
    }
    assert_eq!(
        ring.lines(),
        vec!["124", "125", "126", "127", "128", "129", "130", "131", "132", "133"]
    );
}

#[test]
fn a_failed_read_keeps_the_lines_so_far() {
    let mut ring = TailRing::new();
    ring.push("one\n");
    assert!(!ring.on_read(&ReadEvent::Failed));
    let messages = ring.messages(&file(), 7);
    assert_eq!(messages.len(), 1);
    assert_eq!(messages[0].line, "one");
    assert_eq!(messages[0].color_idx, 7);
    assert!(messages[0].path.same_as(&file()));
}

#[test]
fn only_line_ends_are_trimmed() {
    assert_eq!(trim_line_end("a\n"), "a");
    assert_eq!(trim_line_end("a\r\n\r\n"), "a");
    assert_eq!(trim_line_end("  a b \t\n"), "  a b \t");
    assert_eq!(trim_line_end("a\nb"), "a\nb");
    assert_eq!(trim_line_end("\n\r\n"), "");
    assert_eq!(trim_line_end("größe\n"), "größe");
    assert_eq!(trim_line_end(""), "");
}

#[test]
fn substrings_and_numbers() {
    assert!(contains("abcabd", "abd"));
    assert!(contains("abc", ""));
    assert!(contains("", ""));
    assert!(!contains("ab", "abc"));
    assert!(!contains("abc", "ac"));
    assert_eq!(to_decimal(0), "0");
    assert_eq!(to_decimal(10), "10");
    assert_eq!(to_decimal(usize::MAX), format!("{}", usize::MAX));
}

#[test]
fn a_truncated_file_is_read_from_its_start() {
    let mut follower = Follower::new(file(), 100, 3);
    follower.step(&FollowReply::Opened(true));
    follower.step(&FollowReply::Sought(true));
    follower.step(&FollowReply::Read(ReadEvent::EndOfFile));
    assert!(matches!(
        follower.step(&FollowReply::Waited(Some(100), Some(99))),
        FollowAction::Rewind
    ));
    assert!(matches!(follower.step(&FollowReply::Rewound), FollowAction::Read));
    follower.step(&FollowReply::Read(ReadEvent::EndOfFile));
    // An unknown position or length is no sign of a cut.
    assert!(matches!(
        follower.step(&FollowReply::Waited(None, Some(0))),
        FollowAction::Read
    ));
    follower.step(&FollowReply::Read(ReadEvent::EndOfFile));
    assert!(matches!(
        follower.step(&FollowReply::Waited(Some(5), None)),
        FollowAction::Read
    ));
    follower.step(&FollowReply::Read(ReadEvent::EndOfFile));
    assert!(matches!(
        follower.step(&FollowReply::Waited(Some(5), Some(5))),
        FollowAction::Read
    ));
}

#[test]
fn failures_end_a_follow() {
    let mut follower = Follower::new(file(), 0, 0);
    assert!(matches!(follower.step(&FollowReply::Opened(false)), FollowAction::Stop));
    assert!(matches!(follower.step(&FollowReply::Opened(true)), FollowAction::Stop));

    let mut follower = Follower::new(file(), 1, 0);
    follower.step(&FollowReply::Opened(true));
    assert!(matches!(follower.step(&FollowReply::Sought(false)), FollowAction::Stop));

    let mut follower = Follower::new(file(), 0, 0);
    follower.step(&FollowReply::Opened(true));
    assert!(matches!(
        follower.step(&FollowReply::Read(ReadEvent::Failed)),
        FollowAction::Stop
    ));

    let mut follower = Follower::new(file(), 0, 0);
    follower.step(&FollowReply::Opened(true));
    follower.step(&FollowReply::Read(ReadEvent::Line(String::from("x"))));
    assert!(matches!(follower.step(&FollowReply::Sent(false)), FollowAction::Stop));

    let mut follower = Follower::new(file(), 0, 0);
    assert!(matches!(follower.step(&FollowReply::Sent(true)), FollowAction::Stop));
}

#[test]
fn lines_are_sent_in_order() {
    let mut follower = Follower::new(file(), 0, 4);
    follower.step(&FollowReply::Opened(true));
    let mut sent: Vec<String> = Vec::new();
    for line in ["a\n", "\n", "b\r\n", "c"] {
        let reply = FollowReply::Read(ReadEvent::Line(String::from(line)));
        match follower.step(&reply) {
            FollowAction::Send(message) => {
                assert_eq!(message.color_idx, 4);
                assert_eq!(message.path.name(), Some("x.log"));
                sent.push(message.line);
            }
            other => panic!("expected a line, got {:?}", other),
        }
        assert!(matches!(follower.step(&FollowReply::Sent(true)), FollowAction::Read));
    }
    assert_eq!(sent, vec!["a", "", "b", "c"]);
}

#[test]
fn following_goes_on_where_the_first_look_ended() {
    assert_eq!(resume_position(Some(17)), 17);
    assert_eq!(resume_position(None), 0);
}
