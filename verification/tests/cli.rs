use dirtail::cli::Cli;
use dirtail::filter::NameFilter;
use dirtail::path::FilePath;

fn make_cli(
    dir_pos: Option<&str>,
    pattern_pos: Option<&str>,
    dir_flag: Option<&str>,
    pattern_flag: Option<&str>,
) -> Cli {
    Cli {
        dir_pos: dir_pos.map(String::from),
        pattern_pos: pattern_pos.map(String::from),
        dir_flag: dir_flag.map(String::from),
        pattern_flag: pattern_flag.map(String::from),
    }
}

#[test]
fn cli_resolve_dir_defaults_to_dot() {
    assert_eq!(make_cli(None, None, None, None).resolve_dir(), ".");
}

#[test]
fn cli_resolve_dir_from_positional() {
    assert_eq!(make_cli(Some("/tmp"), None, None, None).resolve_dir(), "/tmp");
}

#[test]
fn cli_resolve_dir_flag_wins_over_positional() {
    assert_eq!(
        make_cli(Some("/tmp"), None, Some("/var/log"), None).resolve_dir(),
        "/var/log"
    );
}

#[test]
fn cli_resolve_pattern_defaults_to_star() {
    assert_eq!(make_cli(Some("/tmp"), None, None, None).resolve_pattern(), "*");
}

#[test]
fn cli_resolve_pattern_from_second_positional() {
    assert_eq!(
        make_cli(Some("/tmp"), Some("*.log"), None, None).resolve_pattern(),
        "*.log"
    );
}

#[test]
fn cli_resolve_pattern_flag_wins_over_positional() {
    assert_eq!(
        make_cli(Some("/tmp"), Some("*.log"), None, Some("*.txt")).resolve_pattern(),
        "*.txt"
    );
}

#[test]
fn cli_resolve_pattern_pos_ignored_without_dir_pos() {
    // pattern_pos alone (no dir_pos) should fall back to "*"
    assert_eq!(make_cli(None, Some("*.log"), None, None).resolve_pattern(), "*");
}

#[test]
fn cli_pattern_flag_needs_no_directory() {
    let cli = make_cli(None, Some("*.log"), Some("/var"), Some("*.txt"));
    assert_eq!(cli.resolve_pattern(), "*.txt");
    assert_eq!(cli.resolve_dir(), "/var");
    // A directory by flag does not make the pattern by position count.
    assert_eq!(make_cli(None, Some("*.log"), Some("/var"), None).resolve_pattern(), "*");
}

#[test]
fn a_pattern_that_does_not_count_lets_every_name_through() {
    for cli in [
        make_cli(None, Some("*.log"), None, None),
        make_cli(None, Some("*.log"), Some("/tmp"), None),
        make_cli(Some("/tmp"), None, None, None),
    ] {
        let filter = NameFilter::new(&cli.resolve_pattern()).unwrap();
        let path = FilePath::new(b"/tmp/a.txt".to_vec(), Some(String::from("a.txt")));
        assert!(filter.accepts(&path));
    }
}
