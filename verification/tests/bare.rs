use dirtail::color::{color_prefix, colorize_content, content_shown, prefix_shown};
use dirtail::notice::{banner, new_file_notice};

#[test]
fn with_colors_off_texts_stay_bare() {
    colored::control::set_override(false);
    assert_eq!(colorize_content("ERROR: crash"), "ERROR: crash");
    assert_eq!(color_prefix("[a]", 2), "[a]");
    let prefix = prefix_shown("[a]", 2);
    assert!(!prefix.on);
    assert_eq!(prefix.out, "[a]");
    let content = content_shown("fatal").unwrap();
    assert!(!content.on);
    assert_eq!(content.out, "fatal");
    assert_eq!(new_file_notice("/tmp/a"), "[dirtail] new file: /tmp/a");
}

#[test]
fn banner_lists_the_files() {
    colored::control::set_override(false);
    let files: Vec<String> = (0..12).map(|i| format!("/tmp/{}.log", i)).collect();
    let lines = banner("/tmp", "*.log", &files);
    assert_eq!(lines.len(), 17);
    assert_eq!(lines[0], "=== dirtail ===");
    assert_eq!(lines[1], "  Dir     : /tmp");
    assert_eq!(lines[2], "  Pattern : *.log");
    assert_eq!(lines[3], "  Tailing 12 existing file(s):");
    assert_eq!(lines[4], "    /tmp/0.log");
    assert_eq!(lines[15], "    /tmp/11.log");
    assert_eq!(lines[16], "===============");
}

#[test]
fn banner_says_when_there_are_no_files() {
    colored::control::set_override(false);
    let lines = banner(".", "*", &Vec::new());
    assert_eq!(
        lines,
        vec![
            "=== dirtail ===",
            "  Dir     : .",
            "  Pattern : *",
            "  No existing files match. Watching for new files...",
            "===============",
        ]
    );
}
