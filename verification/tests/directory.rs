use dirtail::filter::NameFilter;
use dirtail::order::{stable_order, NameKey, TimeKey};
use dirtail::path::FilePath;
use dirtail::registry::FileRegistry;
use dirtail::startup::{
    accepted_names, assign_colors, existing_files, oldest_first, select_existing, ColoredFile,
    DirEntry,
};
use dirtail::watch::{on_change, on_changes, on_watch_event, WatchKind};

fn path(name: &str) -> FilePath {
    FilePath::new(format!("/d/{}", name).into_bytes(), Some(String::from(name)))
}

fn entry(name: &str, is_file: bool) -> DirEntry {
    DirEntry { path: path(name), is_file }
}

fn filter(pattern: &str) -> NameFilter {
    match NameFilter::new(pattern) {
        Ok(filter) => filter,
        Err(error) => panic!("{}", error.message),
    }
}

#[test]
fn names_are_matched() {
    let logs = filter("*.log");
    assert!(logs.accepts(&path("app.log")));
    assert!(!logs.accepts(&path("app.txt")));
    assert!(!logs.accepts(&path("app.LOG")));
    assert!(filter("c?t[0-9]").accepts(&path("cat7")));
    assert!(!filter("c?t[!0-9]").accepts(&path("cat7")));
}

#[test]
fn the_star_takes_every_name() {
    let all = filter("*");
    assert!(all.accepts(&path("a")));
    assert!(all.accepts(&path(".hidden")));
    assert!(all.accepts(&path("with\\backslash")));
    assert!(!all.accepts(&FilePath::new(vec![0xff], None)));
}

#[test]
fn bad_patterns_are_refused() {
    let error = NameFilter::new("a***").unwrap_err();
    assert_eq!(
        error.message,
        "Pattern syntax error near position 3: wildcards are either regular `*` or recursive `**`"
    );
    let error = NameFilter::new("a**").unwrap_err();
    assert_eq!(
        error.message,
        "Pattern syntax error near position 0: recursive wildcards must form a single path component"
    );
    let error = NameFilter::new("x[").unwrap_err();
    assert_eq!(error.message, "Pattern syntax error near position 1: invalid range pattern");
}

#[test]
fn existing_files_come_by_name() {
    let entries = vec![
        entry("c.log", true),
        entry("a.log", true),
        entry("sub.log", false),
        entry("B.log", true),
        entry("a.txt", true),
        entry("\u{e9}.log", true),
        DirEntry { path: FilePath::new(vec![0xff], None), is_file: true },
        entry("a", true),
    ];
    assert_eq!(existing_files(&filter("*.log"), &entries), vec![3, 1, 0, 5]);
    assert_eq!(existing_files(&filter("*"), &entries), vec![3, 7, 1, 4, 0, 5]);
    assert_eq!(existing_files(&filter("*.none"), &entries), Vec::<usize>::new());
}

#[test]
fn selection_goes_by_the_given_answers() {
    let entries = vec![entry("b", true), entry("a", true), entry("b", true), entry("0", false)];
    assert_eq!(select_existing(&entries, &vec![true, true, true, true]), vec![1, 0, 2]);
    assert_eq!(select_existing(&entries, &vec![true, false, true, true]), vec![0, 2]);
    assert_eq!(accepted_names(&filter("b"), &entries), vec![true, false, true, false]);
}

#[test]
fn colors_follow_the_names() {
    let mut registry = FileRegistry::new();
    let entries = vec![entry("b", true), entry("a", true), entry("b", true)];
    let chosen = select_existing(&entries, &vec![true, true, true]);
    let files = assign_colors(&mut registry, &entries, &chosen);
    // The second entry for the same path is not tailed again.
    assert_eq!(
        files,
        vec![ColoredFile { entry: 1, color_idx: 0 }, ColoredFile { entry: 0, color_idx: 1 }]
    );
    assert_eq!(registry.index_of(&path("b")), 1);
    assert_eq!(registry.next_index(), 2);
}

#[test]
fn equal_times_keep_their_order_and_unknown_ones_come_first() {
    let files: Vec<ColoredFile> =
        (0..5).map(|i| ColoredFile { entry: i, color_idx: 10 + i }).collect();
    let times = vec![
        TimeKey { nanos: Some(7) },
        TimeKey { nanos: Some(-3) },
        TimeKey { nanos: None },
        TimeKey { nanos: Some(7) },
        TimeKey { nanos: None },
    ];
    let order: Vec<usize> = oldest_first(&files, &times).iter().map(|f| f.entry).collect();
    assert_eq!(order, vec![2, 4, 1, 0, 3]);
}

#[test]
fn sorting_agrees_with_the_standard_library() {
    let mut keys: Vec<NameKey> = Vec::new();
    let mut seed: u32 = 12345;
    for _ in 0..200 {
        seed = seed.wrapping_mul(1_103_515_245).wrapping_add(12345);
        let len = (seed >> 16) % 4;
        let bytes = (0..len).map(|i| ((seed >> (8 + 3 * i)) % 3) as u8).collect();
        keys.push(NameKey { bytes: if seed % 11 == 0 { None } else { Some(bytes) } });
    }
    let mut expected: Vec<usize> = (0..keys.len()).collect();
    expected.sort_by(|a, b| keys[*a].bytes.cmp(&keys[*b].bytes));
    assert_eq!(stable_order(&keys), expected);
}

#[test]
fn a_new_file_is_tailed_once() {
    let mut registry = FileRegistry::new();
    let logs = filter("*.log");
    let created = vec![entry("x.log", true), entry("y.txt", true), entry("z.log", false)];
    assert_eq!(
        on_watch_event(&mut registry, &logs, WatchKind::Created, &created),
        vec![ColoredFile { entry: 0, color_idx: 0 }]
    );
    assert_eq!(on_watch_event(&mut registry, &logs, WatchKind::Created, &created), vec![]);
    assert_eq!(on_watch_event(&mut registry, &logs, WatchKind::Other, &created), vec![]);
    assert_eq!(registry.next_index(), 1);
}

#[test]
fn a_rotated_file_is_tailed_again() {
    for gone in [WatchKind::Removed, WatchKind::RenamedAway] {
        let mut registry = FileRegistry::new();
        let logs = filter("*.log");
        let file = vec![entry("x.log", true)];
        on_watch_event(&mut registry, &logs, WatchKind::Created, &file);
        // What is gone is no file any more.
        assert_eq!(
            on_watch_event(&mut registry, &logs, gone, &vec![entry("x.log", false)]),
            vec![]
        );
        assert_eq!(
            on_watch_event(&mut registry, &logs, WatchKind::Created, &file),
            vec![ColoredFile { entry: 0, color_idx: 1 }]
        );
    }
}

#[test]
fn one_event_can_bring_several_files() {
    let mut registry = FileRegistry::new();
    let entries = vec![entry("a", true), entry("b", true), entry("a", true), entry("c", true)];
    let files =
        on_changes(&mut registry, WatchKind::Created, &entries, &vec![true, false, true, true]);
    assert_eq!(
        files,
        vec![ColoredFile { entry: 0, color_idx: 0 }, ColoredFile { entry: 3, color_idx: 1 }]
    );
    assert_eq!(on_change(&mut registry, WatchKind::Created, &path("d"), true, true), Some(2));
    assert_eq!(on_change(&mut registry, WatchKind::Created, &path("e"), true, false), None);
    assert_eq!(on_change(&mut registry, WatchKind::Created, &path("e"), false, true), None);
    assert_eq!(on_change(&mut registry, WatchKind::Removed, &path("a"), false, false), None);
    assert_eq!(on_change(&mut registry, WatchKind::Created, &path("a"), true, true), Some(3));
}

#[test]
fn order_of_listing_plays_no_part() {
    let listings = vec![
        vec![entry("c.log", true), entry("a.log", true), entry("d", false), entry("b.log", true)],
        vec![entry("b.log", true), entry("c.log", true), entry("a.log", true), entry("d", false)],
        vec![entry("d", false), entry("b.log", true), entry("a.log", true), entry("c.log", true)],
    ];
    for entries in listings {
        let chosen = existing_files(&filter("*.log"), &entries);
        let mut registry = FileRegistry::new();
        let files = assign_colors(&mut registry, &entries, &chosen);
        let colors: Vec<(Option<&str>, usize)> =
            files.iter().map(|file| (entries[file.entry].path.name(), file.color_idx)).collect();
        assert_eq!(colors, vec![(Some("a.log"), 0), (Some("b.log"), 1), (Some("c.log"), 2)]);
    }
}

#[test]
fn backslashes_are_taken_as_the_platform_takes_them() {
    let separates = std::path::is_separator('\\');
    assert_eq!(NameFilter::new("a\\**").is_ok(), separates);
    assert_eq!(NameFilter::new("**\\a").is_ok(), separates);
    assert!(NameFilter::new("a\\*").is_ok());
    assert!(filter("a\\*").accepts(&path("a\\b")));
    assert!(!filter("a\\*").accepts(&path("ab")));
    assert!(filter("a?b").accepts(&path("a\\b")));
}
