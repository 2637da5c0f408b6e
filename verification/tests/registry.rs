use dirtail::path::FilePath;
use dirtail::registry::FileRegistry;
use std::path::{Path, PathBuf};

fn key(path: &Path) -> FilePath {
    let normal: PathBuf = path.components().collect();
    let name = path.file_name().and_then(|n| n.to_str()).map(String::from);
    FilePath::new(normal.into_os_string().into_encoded_bytes(), name)
}

#[test]
fn registry_new_insert_returns_index_zero() {
    let mut reg = FileRegistry::new();
    assert_eq!(reg.insert(key(&PathBuf::from("/tmp/a.log"))), Some(0));
}

#[test]
fn registry_duplicate_insert_returns_none() {
    let mut reg = FileRegistry::new();
    let p = key(&PathBuf::from("/tmp/a.log"));
    reg.insert(p.clone());
    assert_eq!(reg.insert(p), None);
}

#[test]
fn registry_sequential_indices() {
    let mut reg = FileRegistry::new();
    assert_eq!(reg.insert(key(&PathBuf::from("/a"))), Some(0));
    assert_eq!(reg.insert(key(&PathBuf::from("/b"))), Some(1));
    assert_eq!(reg.insert(key(&PathBuf::from("/c"))), Some(2));
}

#[test]
fn registry_index_of_known() {
    let mut reg = FileRegistry::new();
    let p0 = key(&PathBuf::from("/a"));
    let p1 = key(&PathBuf::from("/b"));
    reg.insert(p0.clone());
    reg.insert(p1.clone());
    assert_eq!(reg.index_of(&p0), 0);
    assert_eq!(reg.index_of(&p1), 1);
}

#[test]
fn registry_index_of_unknown_returns_zero() {
    let reg = FileRegistry::new();
    assert_eq!(reg.index_of(&key(&PathBuf::from("/unknown"))), 0);
}

#[test]
fn registry_remove_allows_reinsert() {
    let mut reg = FileRegistry::new();
    let p = key(&PathBuf::from("/tmp/app.log"));
    assert_eq!(reg.insert(p.clone()), Some(0));
    // Duplicate insert blocked
    assert_eq!(reg.insert(p.clone()), None);
    // After remove (log rotation), same path can be inserted again
    reg.remove(&p);
    assert_eq!(reg.insert(p.clone()), Some(1));
}

#[test]
fn registry_goes_by_components() {
    let mut reg = FileRegistry::new();
    assert_eq!(reg.insert(key(Path::new("/tmp//a.log"))), Some(0));
    assert_eq!(reg.insert(key(Path::new("/tmp/./a.log"))), None);
    assert_eq!(reg.insert(key(Path::new("/tmp/a.log/"))), None);
    assert_eq!(reg.insert(key(Path::new("/tmp/b/../a.log"))), Some(1));
}

#[test]
fn registry_removal_leaves_the_others() {
    let mut reg = FileRegistry::new();
    let a = key(Path::new("/a"));
    let b = key(Path::new("/b"));
    let c = key(Path::new("/c"));
    reg.insert(a.clone());
    reg.insert(b.clone());
    reg.insert(c.clone());
    reg.remove(&b);
    assert_eq!(reg.index_of(&a), 0);
    assert_eq!(reg.index_of(&c), 2);
    assert_eq!(reg.index_of(&b), 0);
    assert_eq!(reg.next_index(), 3);
    assert_eq!(reg.insert(c), None);
    assert_eq!(reg.insert(b.clone()), Some(3));
    assert_eq!(reg.index_of(&b), 3);
}

#[test]
fn registry_removing_an_unknown_path_changes_nothing() {
    let mut reg = FileRegistry::new();
    let a = key(Path::new("/a"));
    reg.insert(a.clone());
    reg.remove(&key(Path::new("/b")));
    assert_eq!(reg.insert(a), None);
    assert_eq!(reg.next_index(), 1);
}

#[test]
fn paths_compare_by_their_bytes() {
    let a = FilePath::new(vec![1, 2, 3], Some(String::from("x")));
    let b = FilePath::new(vec![1, 2, 3], None);
    let c = FilePath::new(vec![1, 2], Some(String::from("x")));
    assert!(a.same_as(&b));
    assert!(!a.same_as(&c));
    assert!(!c.same_as(&FilePath::new(vec![1, 3], None)));
    assert_eq!(a.clone().name(), Some("x"));
    assert_eq!(b.name(), None);
}
