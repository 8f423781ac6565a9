//! Record-directory layout tests.

use wanted::engine::fs::{Fs, MemFs};
use wanted::fs_path::DirName;
use wanted::store::Store;

#[test]
fn layout_paths() {
    let store = Store::new("/proj".to_string());
    assert_eq!(store.root(), "/proj");
    assert_eq!(store.store_dir(), "/proj/.wanted");
    assert_eq!(store.apps_dir(), "/proj/.wanted/apps");
    assert_eq!(store.installed_dir(), "/proj/.wanted/installed");
    let name = DirName::new("go".to_string()).unwrap();
    assert_eq!(store.receipt_path(&name), "/proj/.wanted/installed/go/receipt.toml");
}

#[test]
fn list_installed_sorts_directories_only() {
    let mut fs = MemFs::new();
    let store = Store::new("/proj".to_string());
    assert!(store.list_installed(&fs).unwrap().is_empty());
    fs.write("/proj/.wanted/apps/zig/bin/zig", b"z").unwrap();
    fs.write("/proj/.wanted/apps/go/bin/go", b"g").unwrap();
    fs.write("/proj/.wanted/apps/notes.txt", b"n").unwrap();
    fs.create_dir_all("/proj/.wanted/apps/node").unwrap();
    assert_eq!(
        store.list_installed(&fs).unwrap(),
        vec!["go".to_string(), "node".to_string(), "zig".to_string()]
    );
}

#[test]
fn dir_names_reject_unusable_segments() {
    assert!(DirName::new(String::new()).is_err());
    assert!(DirName::new(".".to_string()).is_err());
    assert!(DirName::new("..".to_string()).is_err());
    assert!(DirName::new("a\0b".to_string()).is_err());
    assert_eq!(
        DirName::new("a/b".to_string()).unwrap_err().message(),
        "invalid name a/b: contains '/'"
    );
    assert_eq!(DirName::new("node".to_string()).unwrap().as_str(), "node");
}
