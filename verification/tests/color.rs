use dirtail::color::{
    color_prefix, colorize_content, content_shown, level_of, level_of_upper, level_shown, level_style,
    prefix_shown, prefix_style, Level,
};
use dirtail::style::{paint, Style};

/// Strip ANSI escape codes so we can test colorize_content text content.
fn strip_ansi(s: &str) -> String {
    let mut out = String::new();
    let mut chars = s.chars().peekable();
    while let Some(c) = chars.next() {
        if c == '\x1b' && chars.peek() == Some(&'[') {
            chars.next();
            while let Some(&ch) = chars.peek() {
                chars.next();
                if ch == 'm' {
                    break;
                }
            }
        } else {
            out.push(c);
        }
    }
    out
}

// colored skips ANSI codes when stdout isn't a TTY (e.g. in tests).
// Force them on at the start of each colorize test.

#[test]
fn colorize_error_applies_ansi_and_preserves_text() {
    colored::control::set_override(true);
    let line = "2024-01-01 ERROR: crash";
    let out = colorize_content(line);
    assert_ne!(out, line, "expected ANSI codes to be added");
    assert!(strip_ansi(&out).contains("ERROR: crash"));
}

#[test]
fn colorize_fatal_same_path_as_error() {
    colored::control::set_override(true);
    let out = colorize_content("FATAL: out of memory");
    assert_ne!(out, "FATAL: out of memory");
    assert!(strip_ansi(&out).contains("FATAL: out of memory"));
}

#[test]
fn colorize_warn_applies_ansi() {
    colored::control::set_override(true);
    let out = colorize_content("WARN: disk 90% full");
    assert_ne!(out, "WARN: disk 90% full");
    assert!(strip_ansi(&out).contains("WARN: disk 90% full"));
}

#[test]
fn colorize_warning_matches_warn_check() {
    colored::control::set_override(true);
    let out = colorize_content("WARNING: slow response");
    assert_ne!(out, "WARNING: slow response");
}

#[test]
fn colorize_info_applies_ansi() {
    colored::control::set_override(true);
    let out = colorize_content("INFO: server started");
    assert_ne!(out, "INFO: server started");
    assert!(strip_ansi(&out).contains("INFO: server started"));
}

#[test]
fn colorize_debug_applies_ansi() {
    colored::control::set_override(true);
    let out = colorize_content("DEBUG: processing request");
    assert_ne!(out, "DEBUG: processing request");
}

#[test]
fn colorize_trace_applies_ansi() {
    colored::control::set_override(true);
    let out = colorize_content("TRACE: entering function");
    assert_ne!(out, "TRACE: entering function");
}

#[test]
fn colorize_plain_text_unchanged() {
    // plain text has no keywords — no ANSI regardless of color setting
    let line = "plain log line with no level keyword";
    assert_eq!(colorize_content(line), line);
}

#[test]
fn colorize_case_insensitive() {
    colored::control::set_override(true);
    // lowercase "error" should still trigger red
    let out = colorize_content("error: lowercase");
    assert_ne!(out, "error: lowercase");
}

#[test]
fn each_level_has_its_style() {
    colored::control::set_override(true);
    assert_eq!(colorize_content("an Error"), "\x1b[1;31man Error\x1b[0m");
    assert_eq!(colorize_content("critical"), "\x1b[1;31mcritical\x1b[0m");
    assert_eq!(colorize_content("warning"), "\x1b[33mwarning\x1b[0m");
    assert_eq!(colorize_content("info"), "\x1b[32minfo\x1b[0m");
    assert_eq!(colorize_content("debug"), "\x1b[36mdebug\x1b[0m");
    assert_eq!(colorize_content("trace"), "\x1b[2mtrace\x1b[0m");
    assert_eq!(level_shown("x", Level::Warn).out, "\x1b[33mx\x1b[0m");
}

#[test]
fn the_gravest_level_wins() {
    assert_eq!(level_of("trace debug info warn error"), Some(Level::Error));
    assert_eq!(level_of("trace debug info warn"), Some(Level::Warn));
    assert_eq!(level_of("trace debug info"), Some(Level::Info));
    assert_eq!(level_of("trace debug"), Some(Level::Debug));
    assert_eq!(level_of("trace"), Some(Level::Trace));
    assert_eq!(level_of(""), None);
}

#[test]
fn levels_are_found_in_upper_case_only_once_it_is_made() {
    assert_eq!(level_of_upper("AN ERROR"), Some(Level::Error));
    assert_eq!(level_of_upper("an error"), None);
    assert_eq!(level_of("an eRRoR"), Some(Level::Error));
    assert_eq!(level_of("größter fatAl fehler"), Some(Level::Error));
    // The ligature of f and i becomes two letters.
    assert_eq!(level_of("In\u{fb01}nfo"), Some(Level::Info));
}

#[test]
fn an_inner_reset_does_not_end_the_style() {
    colored::control::set_override(true);
    assert_eq!(
        colorize_content("info \x1b[0m and \x1b[0mon"),
        "\x1b[32minfo \x1b[0m\x1b[32m and \x1b[0m\x1b[32mon\x1b[0m"
    );
}

#[test]
fn styling_keeps_what_is_left_without_sequences() {
    colored::control::set_override(true);
    for line in ["error", "a \x1b[31mwarn\x1b[0m b", "info \x1b[3", "debug \x1b", "trace \x1b[0m"] {
        assert_eq!(strip_ansi(&colorize_content(line)), strip_ansi(line));
        assert_eq!(strip_ansi(&color_prefix(line, 3)), strip_ansi(line));
    }
}

#[test]
fn prefixes_go_through_five_colors() {
    colored::control::set_override(true);
    assert_eq!(color_prefix("[a]", 0), "\x1b[1;36m[a]\x1b[0m");
    assert_eq!(color_prefix("[a]", 1), "\x1b[1;35m[a]\x1b[0m");
    assert_eq!(color_prefix("[a]", 2), "\x1b[1;34m[a]\x1b[0m");
    assert_eq!(color_prefix("[a]", 3), "\x1b[1;93m[a]\x1b[0m");
    assert_eq!(color_prefix("[a]", 4), "\x1b[1;92m[a]\x1b[0m");
    assert_eq!(color_prefix("[a]", 5), color_prefix("[a]", 0));
    assert_eq!(color_prefix("[a]", usize::MAX), color_prefix("[a]", usize::MAX % 5));
}

#[test]
fn styles_are_chosen_by_index_and_level() {
    assert_eq!(prefix_style(0), Style::BoldCyan);
    assert_eq!(prefix_style(8), Style::BoldBrightYellow);
    assert_eq!(prefix_style(9), Style::BoldBrightGreen);
    assert_eq!(level_style(Level::Error), Style::BoldRed);
    assert_eq!(level_style(Level::Trace), Style::Dimmed);
    colored::control::set_override(true);
    let shown = paint(Style::Bold, "");
    assert!(shown.on);
    assert_eq!(shown.out, "\x1b[1m\x1b[0m");
}

#[test]
fn styles_show_when_they_are_on() {
    colored::control::set_override(true);
    let prefix = prefix_shown("[a]", 1);
    assert!(prefix.on);
    assert_eq!(prefix.out, "\x1b[1;35m[a]\x1b[0m");
    let content = content_shown("debug").unwrap();
    assert!(content.on);
    assert_eq!(content.out, "\x1b[36mdebug\x1b[0m");
    assert!(content_shown("nothing special").is_none());
}

#[test]
fn prefixes_tell_names_and_colors_apart() {
    colored::control::set_override(true);
    let texts = ["[a]", "[b]", "[]", "[?]", "[\x1b[0m]", "[\x1b[0m\x1b[1;36m]", "[\x1b[1;36ma]"];
    for (i, a) in texts.iter().enumerate() {
        for (j, b) in texts.iter().enumerate() {
            for (idx_a, idx_b) in [(0, 0), (0, 5), (0, 1), (2, 9), (3, 8)] {
                let alike = i == j && idx_a % 5 == idx_b % 5;
                assert_eq!(color_prefix(a, idx_a) == color_prefix(b, idx_b), alike);
            }
        }
    }
}
