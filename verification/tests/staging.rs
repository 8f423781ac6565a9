//! Staging area lifecycle tests.

use wanted::engine::fs::{Fs, MemFs};
use wanted::engine::staging::Staging;

#[test]
fn abort_removes_staged_content() {
    let mut fs = MemFs::new();
    let dir = Staging::new("/root", "go");
    dir.ensure_clean(&mut fs).unwrap();
    let file = format!("{}/bin/go.exe", dir.dir());
    fs.write(&file, b"x").unwrap();
    dir.abort(&mut fs).unwrap();
    assert!(!fs.path_exists(dir.dir()).unwrap());
    assert!(!fs.path_exists(&file).unwrap());
}

#[test]
fn staging_dir_is_named_after_the_tool() {
    let dir = Staging::new("/root/.wanted", "go");
    assert!(dir.dir().starts_with("/root/.wanted/.staging/go-"));
    let nonce = &dir.dir()["/root/.wanted/.staging/go-".len()..];
    assert!(!nonce.is_empty());
    assert!(nonce.chars().all(|c| c.is_ascii_hexdigit() && !c.is_ascii_uppercase()));
}
