//! In-memory filesystem behavior tests.

use wanted::engine::fs::{Fs, MemFs};

#[test]
fn mem_fs_write_read_roundtrip() {
    let mut fs = MemFs::new();
    fs.write("/a/b/c.txt", b"hello").unwrap();
    assert_eq!(fs.read("/a/b/c.txt").unwrap(), b"hello");
    assert!(fs.path_exists("/a/b/c.txt").unwrap());
    assert!(fs.path_exists("/a/b").unwrap());
}

#[test]
fn mem_fs_rename_moves_subtree() {
    let mut fs = MemFs::new();
    fs.write("/staging/go/bin/go.exe", b"x").unwrap();
    fs.write("/staging/go/LICENSE", b"y").unwrap();
    fs.rename("/staging/go", "/apps/golang").unwrap();
    assert!(!fs.path_exists("/staging/go").unwrap());
    assert_eq!(fs.read("/apps/golang/bin/go.exe").unwrap(), b"x");
    assert_eq!(fs.read("/apps/golang/LICENSE").unwrap(), b"y");
}

#[test]
fn mem_fs_remove_dir_all_prunes_subtree() {
    let mut fs = MemFs::new();
    fs.write("/a/b/c.txt", b"x").unwrap();
    fs.remove_dir_all("/a").unwrap();
    assert!(!fs.path_exists("/a").unwrap());
}

#[test]
fn mem_fs_rename_replaces_existing_target() {
    let mut fs = MemFs::new();
    fs.write("/from.txt", b"new").unwrap();
    fs.write("/to.txt", b"old").unwrap();
    fs.rename("/from.txt", "/to.txt").unwrap();
    assert_eq!(fs.read("/to.txt").unwrap(), b"new");
}

#[test]
fn mem_fs_read_dir_lists_children() {
    let mut fs = MemFs::new();
    fs.write("/apps/go/bin/go", b"x").unwrap();
    fs.write("/apps/readme", b"y").unwrap();
    let mut entries = fs.read_dir("/apps").unwrap();
    entries.sort();
    assert_eq!(
        entries,
        vec![("go".to_string(), true), ("readme".to_string(), false)]
    );
}

#[test]
fn mem_fs_paths_are_normalised() {
    let mut fs = MemFs::new();
    fs.write("/a//b/./c.txt", b"z").unwrap();
    assert_eq!(fs.read("/a/b/c.txt").unwrap(), b"z");
    fs.remove_file("/a/b/c.txt").unwrap();
    assert!(!fs.path_exists("/a/b/c.txt").unwrap());
    assert!(fs.read("/a/b/c.txt").is_err());
}
