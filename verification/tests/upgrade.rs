//! Self-upgrade tests: release discovery, checksum parsing and
//! verification, and the rename-dance swap.

use std::collections::HashMap;
use sha2::{Digest, Sha256};

use wanted::engine::fs::{Fs, MemFs};
use wanted::engine::{Downloader, Url};
use wanted::report::SilentReporter;
use wanted::upgrade::{
    hex_string, parse_checksum, sibling, verify_bytes, Release, UpgradeOutcome, Upgrader,
    RELEASES_URL,
};
use wanted::version::SemVer;

const OLD: &[u8] = b"old binary";
const NEW: &[u8] = b"new binary";

fn digest(bytes: &[u8]) -> String {
    format!("{:x}", Sha256::digest(bytes))
}

fn release_json(tag: &str) -> String {
    format!(
        r#"{{
          "tag_name": "{tag}",
          "assets": [
            {{"name": "wanted-{tag}-linux-x86_64", "browser_download_url": "https://ex/l-{tag}"}},
            {{"name": "wanted-{tag}-windows-x86_64.exe", "browser_download_url": "https://ex/w-{tag}.exe"}},
            {{"name": "wanted-{tag}-macos-x86_64", "browser_download_url": "https://ex/m-{tag}"}}
          ]
        }}"#
    )
}

struct StubDownloader {
    files: HashMap<String, Vec<u8>>,
}

impl Downloader for StubDownloader {
    fn fetch<P: Fn(u64, Option<u64>)>(&self, url: &Url, _progress: &P) -> wanted::Result<Vec<u8>> {
        self.files
            .get(url.as_str())
            .cloned()
            .ok_or_else(|| wanted::Error::Network(format!("no stub for {}", url.as_str())))
    }
}

fn stub_for(tag: &str, checksum_of: &[u8]) -> StubDownloader {
    let mut files = HashMap::new();
    files.insert(RELEASES_URL.to_string(), release_json(tag).into_bytes());
    let exe = format!("https://ex/w-{tag}.exe");
    files.insert(exe.clone(), NEW.to_vec());
    files.insert(
        format!("{exe}.sha256"),
        format!("{}  wanted.exe", digest(checksum_of)).into_bytes(),
    );
    StubDownloader { files }
}

const VTAG: &str = "wanted-v0.2.0-windows-x86_64.exe";

#[test]
fn parse_release_picks_platform_asset_and_strips_v() {
    let release = Release::parse(&release_json("v0.2.0"), "windows").expect("parses");
    assert_eq!(release.version.text(), "0.2.0");
    assert_eq!(release.asset.name, VTAG);
    assert_eq!(release.asset.url, "https://ex/w-v0.2.0.exe");
}

#[test]
fn parse_release_errors_on_missing_platform_asset() {
    let err = Release::parse(&release_json("v0.2.0"), "freebsd").expect_err("no freebsd asset");
    assert!(err.message().contains("unsupported platform"));
}

#[test]
fn parse_checksum_extracts_lowercase_hex() {
    assert_eq!(parse_checksum("AABB CC  wanted.exe").expect("parses"), "aabb");
    assert_eq!(parse_checksum("deadbeef").unwrap(), "deadbeef");
}

#[test]
fn parse_checksum_rejects_non_hex() {
    assert!(parse_checksum("not-a-hex").is_err());
    assert!(parse_checksum("").is_err());
}

#[test]
fn verify_bytes_accepts_matching_digest() {
    assert!(verify_bytes(&digest(NEW), NEW).is_ok());
}

#[test]
fn verify_bytes_rejects_mismatched_digest() {
    assert!(verify_bytes(&digest(OLD), NEW).is_err());
}

#[test]
fn hex_string_formats_two_digits_per_byte() {
    assert_eq!(hex_string(&[0x00, 0x0f, 0xa0, 0xff]), "000fa0ff");
    assert_eq!(sibling("bin/wanted", ".old"), "bin/wanted.old");
}

#[test]
fn upgrade_is_up_to_date_without_changes() {
    let mut fs = MemFs::new();
    fs.write("bin/wanted.exe", OLD).unwrap();
    let current = SemVer::parse("0.9.0").unwrap();
    let downloader = stub_for("v0.2.0", NEW);
    let outcome = Upgrader::new(&mut fs, &downloader, &SilentReporter)
        .run("bin/wanted.exe", &current, "windows")
        .unwrap();
    assert!(matches!(outcome, UpgradeOutcome::UpToDate));
    assert_eq!(fs.read("bin/wanted.exe").unwrap(), OLD);
}

#[test]
fn upgrade_swaps_binary_and_keeps_backup() {
    let mut fs = MemFs::new();
    fs.write("bin/wanted.exe", OLD).unwrap();
    let current = SemVer::parse("0.1.0").unwrap();
    let downloader = stub_for("v0.2.0", NEW);
    let outcome = Upgrader::new(&mut fs, &downloader, &SilentReporter)
        .run("bin/wanted.exe", &current, "windows")
        .unwrap();
    assert!(matches!(outcome, UpgradeOutcome::Upgraded(ref v) if v.text() == "0.2.0"));
    assert_eq!(fs.read("bin/wanted.exe").unwrap(), NEW);
    assert_eq!(fs.read("bin/wanted.exe.old").unwrap(), OLD);
}

#[test]
fn upgrade_rejects_checksum_mismatch_and_leaves_binary_untouched() {
    let mut fs = MemFs::new();
    fs.write("bin/wanted.exe", OLD).unwrap();
    let current = SemVer::parse("0.1.0").unwrap();
    let downloader = stub_for("v0.2.0", OLD);
    let err = Upgrader::new(&mut fs, &downloader, &SilentReporter)
        .run("bin/wanted.exe", &current, "windows")
        .unwrap_err();
    assert!(err.message().contains("checksum mismatch"));
    assert_eq!(fs.read("bin/wanted.exe").unwrap(), OLD);
}

/// A filesystem that refuses to rename one particular path.
struct FailingFs {
    inner: MemFs,
    deny_from: String,
}

impl Fs for FailingFs {
    fn read(&self, path: &str) -> wanted::Result<Vec<u8>> {
        self.inner.read(path)
    }
    fn write(&mut self, path: &str, data: &[u8]) -> wanted::Result<()> {
        self.inner.write(path, data)
    }
    fn path_exists(&self, path: &str) -> wanted::Result<bool> {
        self.inner.path_exists(path)
    }
    fn create_dir_all(&mut self, path: &str) -> wanted::Result<()> {
        self.inner.create_dir_all(path)
    }
    fn rename(&mut self, from: &str, to: &str) -> wanted::Result<()> {
        if from == self.deny_from {
            return Err(wanted::Error::Other("denied rename".to_string()));
        }
        self.inner.rename(from, to)
    }
    fn remove_dir_all(&mut self, path: &str) -> wanted::Result<()> {
        self.inner.remove_dir_all(path)
    }
    fn remove_file(&mut self, path: &str) -> wanted::Result<()> {
        self.inner.remove_file(path)
    }
    fn read_dir(&self, path: &str) -> wanted::Result<Vec<(String, bool)>> {
        self.inner.read_dir(path)
    }
}

#[test]
fn failed_swap_restores_previous_binary() {
    let exe = "bin/wanted.exe";
    let mut fs = FailingFs {
        inner: MemFs::new(),
        deny_from: "bin/wanted.exe.part".to_string(),
    };
    fs.inner.write(exe, OLD).unwrap();
    let current = SemVer::parse("0.1.0").unwrap();
    let downloader = stub_for("v0.2.0", NEW);
    let err = Upgrader::new(&mut fs, &downloader, &SilentReporter)
        .run(exe, &current, "windows")
        .expect_err("rename of .part denied");

    assert!(err.message().contains("denied rename"));
    assert_eq!(fs.read(exe).unwrap(), OLD);
    assert!(!fs.path_exists("bin/wanted.exe.old").unwrap());
}

#[test]
fn malformed_release_descriptions_name_the_field() {
    let missing = Release::parse(r#"{"tag_name": "v1.0.0"}"#, "linux").unwrap_err();
    assert_eq!(missing.message(), "bad release payload: missing field `assets`");
    let no_url = Release::parse(
        r#"{"tag_name": "v1.0.0", "assets": [{"name": "wanted-v1.0.0-linux-x86_64"}]}"#,
        "linux",
    )
    .unwrap_err();
    assert_eq!(
        no_url.message(),
        "bad release payload: missing field `browser_download_url`"
    );
    let bad_tag = Release::parse(r#"{"tag_name": 7, "assets": []}"#, "linux").unwrap_err();
    assert_eq!(bad_tag.message(), "bad release payload: invalid type for field `tag_name`");
    let not_json = Release::parse("nope", "linux").unwrap_err();
    assert!(not_json.message().starts_with("bad release payload: "));
}
