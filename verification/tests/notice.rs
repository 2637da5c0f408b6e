use dirtail::message::{file_label, join_line, render_line, LogLine};
use dirtail::notice::{banner, new_file_notice};
use dirtail::path::FilePath;

#[test]
fn banner_is_styled() {
    colored::control::set_override(true);
    let lines = banner("/d", "*.log", &vec![String::from("/d/x.log")]);
    assert_eq!(
        lines,
        vec![
            "\x1b[1m=== dirtail ===\x1b[0m",
            "  Dir     : \x1b[36m/d\x1b[0m",
            "  Pattern : \x1b[36m*.log\x1b[0m",
            "  Tailing 1 existing file(s):",
            "    \x1b[32m/d/x.log\x1b[0m",
            "\x1b[1m===============\x1b[0m",
        ]
    );
    let none = banner("/d", "*.log", &Vec::new());
    assert_eq!(
        none[3],
        "  \x1b[33mNo existing files match. Watching for new files...\x1b[0m"
    );
}

#[test]
fn new_files_are_announced() {
    colored::control::set_override(true);
    assert_eq!(
        new_file_notice("/d/x.log"),
        "\x1b[1m[dirtail] new file:\x1b[0m \x1b[32m/d/x.log\x1b[0m"
    );
}

#[test]
fn a_line_is_printed_after_its_file() {
    colored::control::set_override(true);
    let message = LogLine {
        path: FilePath::new(b"/d/x.log".to_vec(), Some(String::from("x.log"))),
        line: String::from("WARN: late"),
        color_idx: 6,
    };
    assert_eq!(
        render_line(&message),
        "\x1b[1;35m[x.log]\x1b[0m \x1b[33mWARN: late\x1b[0m"
    );
}

#[test]
fn a_name_that_is_not_unicode_is_a_question_mark() {
    let path = FilePath::new(vec![0x2f, 0xff], None);
    assert_eq!(file_label(&path), "[?]");
    assert_eq!(join_line("a", "b"), "a b");
}
