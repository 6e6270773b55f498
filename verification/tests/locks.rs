use std::collections::HashSet;

use elba::path::FilePath;
use elba::util::lock::DirLock;

fn path(text: &str) -> FilePath {
    FilePath::parse(text.as_bytes())
}

#[test]
fn lock_file_is_a_sibling() {
    let file = DirLock::lock_file(&path("/cache/src/package"));
    assert_eq!(file.to_bytes(), b"/cache/src/package.lock");
    assert_eq!(file.parent().unwrap().to_bytes(), b"/cache/src");
}

#[test]
fn lock_is_had_if_its_file_was_created() {
    let lock = DirLock::acquire(path("/cache/src/package"), true).unwrap();
    assert_eq!(lock.path().to_bytes(), b"/cache/src/package");
    assert_eq!(lock.lock_path().to_bytes(), b"/cache/src/package.lock");
}

#[test]
fn lock_is_not_had_if_its_file_was_not_created() {
    assert!(DirLock::acquire(path("/cache/src/package"), false).is_none());
}

#[test]
fn directories_without_extensions_have_their_own_lock_files() {
    let left = DirLock::lock_file(&path("/a/left"));
    let right = DirLock::lock_file(&path("/a/right"));
    assert_ne!(left.to_bytes(), right.to_bytes());
}

#[test]
fn an_extension_is_replaced() {
    let left = DirLock::lock_file(&path("/a/b.left"));
    let right = DirLock::lock_file(&path("/a/b.right"));
    assert_eq!(left.to_bytes(), right.to_bytes());
    assert_eq!(left.to_bytes(), b"/a/b.lock");
}

#[test]
fn root_has_no_lock_file_of_its_own() {
    assert_eq!(DirLock::lock_file(&path("/")).to_bytes(), b"/");
}

/// Locks a directory, with the files that there are.
fn lock(files: &mut HashSet<Vec<u8>>, text: &str) -> Option<DirLock> {
    let created = files.insert(DirLock::lock_file(&path(text)).to_bytes());
    DirLock::acquire(path(text), created)
}

#[test]
fn held_lock_keeps_others_out_until_it_is_given_up() {
    let mut files = HashSet::new();
    let held = lock(&mut files, "/cache/build/a").unwrap();
    assert!(lock(&mut files, "/cache/build/a").is_none());
    assert!(lock(&mut files, "/cache/build/b").is_some());
    assert!(lock(&mut files, "/cache/build/a").is_none());
    assert!(files.remove(&held.lock_path().to_bytes()));
    assert!(lock(&mut files, "/cache/build/a").is_some());
    assert!(lock(&mut files, "/cache/build/b").is_none());
}

#[test]
fn lock_leaves_nothing_behind() {
    let mut files = HashSet::new();
    let other = lock(&mut files, "/cache/build/b").unwrap();
    let before = files.clone();
    let held = lock(&mut files, "/cache/build/a").unwrap();
    assert_ne!(files, before);
    assert!(files.remove(&held.lock_path().to_bytes()));
    assert_eq!(files, before);
    assert!(files.contains(&other.lock_path().to_bytes()));
}
