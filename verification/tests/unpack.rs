//! Extraction tests: uniform leading-directory stripping, flat archives kept
//! intact, and path sanitization.

use std::io::{Cursor, Write};
use zip::write::SimpleFileOptions;

use wanted::engine::fs::{Fs, MemFs};
use wanted::engine::unpack::{archive_entries, extract, sanitize_rel, strip_leading_dir};

fn zip_with(entries: &[(&str, &str)]) -> Vec<u8> {
    let mut writer = zip::ZipWriter::new(Cursor::new(Vec::new()));
    let options = SimpleFileOptions::default();
    for (name, content) in entries {
        writer.start_file(*name, options).unwrap();
        writer.write_all(content.as_bytes()).unwrap();
    }
    writer.finish().unwrap().into_inner()
}

fn tar_bytes(entries: &[(&str, &str)]) -> Vec<u8> {
    let mut tar_bytes = Vec::new();
    {
        let mut builder = tar::Builder::new(&mut tar_bytes);
        for (name, content) in entries {
            let mut header = tar::Header::new_gnu();
            header.set_entry_type(tar::EntryType::Regular);
            header.set_size(content.len() as u64);
            header.set_mode(0o644);
            header.set_cksum();
            builder.append_data(&mut header, *name, content.as_bytes()).unwrap();
        }
        builder.finish().unwrap();
    }
    tar_bytes
}

fn tar_xz_with(entries: &[(&str, &str)]) -> Vec<u8> {
    let mut xz = xz2::write::XzEncoder::new(Vec::new(), 6);
    xz.write_all(&tar_bytes(entries)).unwrap();
    xz.finish().unwrap()
}

fn tar_gz_with(entries: &[(&str, &str)]) -> Vec<u8> {
    let mut gz = flate2::write::GzEncoder::new(Vec::new(), flate2::Compression::default());
    gz.write_all(&tar_bytes(entries)).unwrap();
    gz.finish().unwrap()
}

#[test]
fn extracts_tar_xz() {
    let mut fs = MemFs::new();
    let dest = "/apps/llvm";
    let bytes = tar_xz_with(&[("llvm/bin/clang.exe", "clang"), ("llvm/LICENSE", "apache")]);
    extract(&bytes, dest, &mut fs).unwrap();
    assert!(fs.path_exists("/apps/llvm/bin/clang.exe").unwrap());
    assert!(fs.path_exists("/apps/llvm/LICENSE").unwrap());
    assert!(!fs.path_exists("/apps/llvm/llvm/bin/clang.exe").unwrap());
}

#[test]
fn strips_uniform_leading_dir() {
    let mut fs = MemFs::new();
    let dest = "/apps/golang";
    let bytes = zip_with(&[("go/bin/go.exe", "binary"), ("go/LICENSE", "mit")]);
    extract(&bytes, dest, &mut fs).unwrap();
    assert!(fs.path_exists("/apps/golang/bin/go.exe").unwrap());
    assert!(fs.path_exists("/apps/golang/LICENSE").unwrap());
    assert!(!fs.path_exists("/apps/golang/go/bin/go.exe").unwrap());
}

#[test]
fn keeps_flat_archive_untouched() {
    let mut fs = MemFs::new();
    let dest = "/apps/foo";
    let bytes = zip_with(&[("bin/foo.exe", "binary"), ("LICENSE", "mit")]);
    extract(&bytes, dest, &mut fs).unwrap();
    assert!(fs.path_exists("/apps/foo/bin/foo.exe").unwrap());
    assert!(fs.path_exists("/apps/foo/LICENSE").unwrap());
}

#[test]
fn extracts_tar_gz() {
    let mut fs = MemFs::new();
    let bytes = tar_gz_with(&[("node/bin/node", "n"), ("node/README", "r")]);
    extract(&bytes, "/apps/node", &mut fs).unwrap();
    assert_eq!(fs.read("/apps/node/bin/node").unwrap(), b"n");
}

#[test]
fn unknown_magic_is_rejected() {
    let err = archive_entries(b"hello world").unwrap_err();
    assert_eq!(err.message(), "archive: unknown archive magic");
}

#[test]
fn sanitize_rejects_traversal_and_roots() {
    assert_eq!(sanitize_rel("a/./b//c"), Some("a/b/c".to_string()));
    assert_eq!(sanitize_rel("../etc/passwd"), None);
    assert_eq!(sanitize_rel("a/../b"), None);
    assert_eq!(sanitize_rel("/etc/passwd"), None);
    assert_eq!(sanitize_rel("./"), None);
}

#[test]
fn traversal_entries_are_skipped() {
    let bytes = zip_with(&[("../evil", "x"), ("ok/file", "y")]);
    let entries = archive_entries(&bytes).unwrap();
    assert_eq!(entries, vec![("ok/file".to_string(), b"y".to_vec())]);
}

#[test]
fn strip_leading_dir_needs_a_shared_root() {
    let mut mixed = vec![
        ("a/x".to_string(), b"1".to_vec()),
        ("b/y".to_string(), b"2".to_vec()),
    ];
    strip_leading_dir(&mut mixed);
    assert_eq!(mixed[0].0, "a/x");
    let mut shared = vec![
        ("go/bin/go".to_string(), b"1".to_vec()),
        ("go".to_string(), b"".to_vec()),
    ];
    strip_leading_dir(&mut shared);
    assert_eq!(shared[0].0, "bin/go");
    assert_eq!(shared[1].0, "");
}
