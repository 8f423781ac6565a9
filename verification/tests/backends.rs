//! Behaviour against the in-memory backends, which carry out every call: the
//! engine then fails only where a download, a process or an archive decides.

use std::str::FromStr;

use wanted::cli::spec::ToolSpec;
use wanted::engine::download::{retries_left, Segment};
use wanted::engine::execute;
use wanted::fs_path::Platform;
use wanted::engine::execute::UndoLog;
use wanted::engine::fs::{Fs, MemFs};
use wanted::engine::ops::{all_commands_failed, CommandInvocation, Compensation, Op, RestoreEnv};
use wanted::engine::plan::Plan;
use wanted::engine::{Ctx, Downloader, ProcessRunner, Url};
use wanted::env::{add_to_path, apply_deltas, EnvDelta, EnvOp, EnvStore, EnvVar, MemEnvStore};
use wanted::plugin::InstallMethod;
use wanted::report::SilentReporter;
use wanted::cli::app::{bytes_to_manifest, no_install_method, receipt_for};
use wanted::plugin::VersionsSource;
use wanted::upgrade::{cleanup_stale, release_from_payload, Upgrader};
use wanted::{Error, Version};

struct NoDownloads;

impl Downloader for NoDownloads {
    fn fetch<P: Fn(u64, Option<u64>)>(&self, _url: &Url, _on_progress: &P) -> wanted::Result<Vec<u8>> {
        Err(Error::Other("offline".to_string()))
    }
}

struct FixedBytes(Vec<u8>);

impl Downloader for FixedBytes {
    fn fetch<P: Fn(u64, Option<u64>)>(&self, _url: &Url, _on_progress: &P) -> wanted::Result<Vec<u8>> {
        Ok(self.0.clone())
    }
}

struct Refusing;

impl EnvStore for Refusing {
    fn platform(&self) -> Platform {
        Platform::Posix
    }
    fn read(&self, _name: &EnvVar) -> wanted::Result<Option<String>> {
        Ok(None)
    }
    fn write(&mut self, _name: &EnvVar, _value: &str) -> wanted::Result<()> {
        Err(Error::Other("refused".to_string()))
    }
    fn remove(&mut self, _name: &EnvVar) -> wanted::Result<()> {
        Err(Error::Other("refused".to_string()))
    }
}

struct WindowsEnv {
    inner: MemEnvStore,
}

impl EnvStore for WindowsEnv {
    fn platform(&self) -> Platform {
        Platform::Windows
    }
    fn read(&self, name: &EnvVar) -> wanted::Result<Option<String>> {
        self.inner.read(name)
    }
    fn write(&mut self, name: &EnvVar, value: &str) -> wanted::Result<()> {
        self.inner.write(name, value)
    }
    fn remove(&mut self, name: &EnvVar) -> wanted::Result<()> {
        self.inner.remove(name)
    }
}

struct PathRefusing {
    inner: MemEnvStore,
}

impl EnvStore for PathRefusing {
    fn platform(&self) -> Platform {
        Platform::Posix
    }
    fn read(&self, name: &EnvVar) -> wanted::Result<Option<String>> {
        self.inner.read(name)
    }
    fn write(&mut self, name: &EnvVar, value: &str) -> wanted::Result<()> {
        if name.as_str() == "PATH" {
            return Err(Error::Other("simulated PATH failure".to_string()));
        }
        self.inner.write(name, value)
    }
    fn remove(&mut self, name: &EnvVar) -> wanted::Result<()> {
        self.inner.remove(name)
    }
}

struct NoProcesses;

impl ProcessRunner for NoProcesses {
    fn run(&self, _program: &str, _args: &[String]) -> wanted::Result<()> {
        Err(Error::Process("not allowed".to_string()))
    }
}

fn delta(name: &str, value: &str, op: EnvOp) -> EnvDelta {
    EnvDelta { name: EnvVar::new(name), value: value.to_string(), op }
}

fn env_only_plan(dest: &str) -> Plan {
    Plan {
        method: InstallMethod::Download,
        name: "tool".to_string(),
        version: Version::parse("1.0.0").unwrap(),
        staging_dir: "/root/.staging/tool-1".to_string(),
        download_to: "/root/.staging/tool-1/asset".to_string(),
        app_dir: dest.to_string(),
        dest_dir: dest.to_string(),
        staged_ops: Vec::new(),
        commit_ops: vec![Op::WriteEnv {
            deltas: vec![
                delta("TOOL_HOME", "/root/tool", EnvOp::Assign),
                delta("PATH", "/root/tool/bin", EnvOp::Prepend),
            ],
        }],
    }
}

#[test]
fn env_only_plan_runs_through_in_memory() {
    let mut fs = MemFs::new();
    let mut env = MemEnvStore::new();
    let plan = env_only_plan("/root/tool");
    let mut ctx = Ctx {
        root: "/root".to_string(),
        fs: &mut fs,
        downloader: &NoDownloads,
        runner: &NoProcesses,
        env: &mut env,
        reporter: &SilentReporter,
    };
    execute::execute(&plan, &mut ctx).unwrap();
    assert_eq!(env.read(&EnvVar::new("TOOL_HOME")).unwrap().as_deref(), Some("/root/tool"));
    assert_eq!(env.read(&EnvVar::new("PATH")).unwrap().as_deref(), Some("/root/tool/bin"));
    assert!(fs.path_exists("/root").unwrap());
    assert!(!fs.path_exists("/root/.staging/tool-1").unwrap());
}

#[test]
fn destination_without_parent_is_refused() {
    let mut fs = MemFs::new();
    let mut env = MemEnvStore::new();
    let plan = env_only_plan("");
    let mut ctx = Ctx {
        root: "/root".to_string(),
        fs: &mut fs,
        downloader: &NoDownloads,
        runner: &NoProcesses,
        env: &mut env,
        reporter: &SilentReporter,
    };
    let err = execute::execute(&plan, &mut ctx).unwrap_err();
    assert_eq!(err, Error::Other("dest has no parent: ".to_string()));
    assert_eq!(env.read(&EnvVar::new("PATH")).unwrap(), None);
}

#[test]
fn unpack_of_stored_non_archive_reports_archive_error() {
    let mut fs = MemFs::new();
    fs.write("/root/.staging/t/asset", b"plain text").unwrap();
    let mut env = MemEnvStore::new();
    let op = Op::Unpack { from: "/root/.staging/t/asset".to_string(), to: "/root/.staging/t/app".to_string() };
    let mut ctx = Ctx {
        root: "/root".to_string(),
        fs: &mut fs,
        downloader: &NoDownloads,
        runner: &NoProcesses,
        env: &mut env,
        reporter: &SilentReporter,
    };
    match op.apply(&mut ctx) {
        Err(Error::Archive(m)) => assert_eq!(m, "unknown archive magic"),
        other => panic!("expected an archive error, got {:?}", other),
    }
}

#[test]
fn env_write_op_returns_snapshots_in_memory() {
    let mut fs = MemFs::new();
    let mut env = MemEnvStore::new();
    env.write(&EnvVar::new("TOOL_HOME"), "/old").unwrap();
    let op = Op::WriteEnv { deltas: vec![delta("TOOL_HOME", "/new", EnvOp::Assign)] };
    let mut ctx = Ctx {
        root: "/root".to_string(),
        fs: &mut fs,
        downloader: &NoDownloads,
        runner: &NoProcesses,
        env: &mut env,
        reporter: &SilentReporter,
    };
    let c = op.apply(&mut ctx).unwrap();
    match &c {
        Compensation::Composite(parts) => {
            assert_eq!(parts.len(), 1);
            assert_eq!(parts[0].old.as_deref(), Some("/old"));
        }
        other => panic!("expected a composite compensation, got {:?}", other),
    }
    c.undo(&mut fs, &mut env).unwrap();
    assert_eq!(env.read(&EnvVar::new("TOOL_HOME")).unwrap().as_deref(), Some("/old"));
}

#[test]
fn env_helpers_succeed_in_memory() {
    let mut env = MemEnvStore::new();
    let snaps = apply_deltas(&[delta("A", "1", EnvOp::Assign)], &mut env).unwrap();
    assert_eq!(snaps.len(), 1);
    assert_eq!(snaps[0].1, None);
    assert!(add_to_path("/bin", &mut env).unwrap());
    assert!(!add_to_path("/bin", &mut env).unwrap());
    RestoreEnv { name: EnvVar::new("A"), old: None }.undo(&mut env).unwrap();
    assert_eq!(env.read(&EnvVar::new("A")).unwrap(), None);
}

#[test]
fn snapshot_lists_every_file() {
    let mut fs = MemFs::new();
    fs.write("/a/b.txt", b"one").unwrap();
    fs.write("/a/c/d.txt", b"two").unwrap();
    fs.create_dir_all("/e").unwrap();
    let mut snap = fs.snapshot();
    snap.sort();
    assert_eq!(
        snap,
        vec![("a/b.txt".to_string(), b"one".to_vec()), ("a/c/d.txt".to_string(), b"two".to_vec())]
    );
}

#[test]
fn snapshot_lists_files_in_path_order() {
    let mut fs = MemFs::new();
    fs.write("/z/b", b"3").unwrap();
    fs.write("/a.b", b"2").unwrap();
    fs.write("/a/b", b"1").unwrap();
    fs.write("/a/b", b"1").unwrap();
    let snap = fs.snapshot();
    assert_eq!(
        snap,
        vec![
            ("a/b".to_string(), b"1".to_vec()),
            ("a.b".to_string(), b"2".to_vec()),
            ("z/b".to_string(), b"3".to_vec()),
        ]
    );
}

#[test]
fn segment_keeps_its_url() {
    let s = Segment::new(Url::new("https://ex/file".to_string()), 0, 9);
    assert_eq!(s.url(), &Url::new("https://ex/file".to_string()));
}

#[test]
fn tool_spec_from_str_matches_parse() {
    let a = ToolSpec::from_str(" go@1.22.0 ").unwrap();
    let b = ToolSpec::parse("go@1.22.0").unwrap();
    assert_eq!(a.text(), b.text());
    assert!(ToolSpec::from_str("").is_err());
}

#[test]
fn replace_then_restore_in_memory() {
    let mut fs = MemFs::new();
    fs.write("/bin/wanted", b"v1").unwrap();
    {
        let downloader = FixedBytes(Vec::new());
        let mut up = Upgrader::new(&mut fs, &downloader, &SilentReporter);
        up.replace_binary("/bin/wanted", b"v2").unwrap();
        up.restore_backup("/bin/wanted.old", "/bin/wanted").unwrap();
    }
    assert_eq!(fs.read("/bin/wanted").unwrap(), b"v1");
    assert!(!fs.path_exists("/bin/wanted.old").unwrap());
    cleanup_stale(&mut fs, "/bin/wanted").unwrap();
    assert_eq!(fs.read("/bin/wanted").unwrap(), b"v1");
}

#[test]
fn default_fetch_to_writes_the_fetched_bytes() {
    let mut fs = MemFs::new();
    let d = FixedBytes(b"payload".to_vec());
    d.fetch_to(&mut fs, &Url::new("https://ex/p".to_string()), "/dl/p.bin", &|_, _| {}).unwrap();
    assert_eq!(fs.read("/dl/p.bin").unwrap(), b"payload");
    let err = NoDownloads.fetch_to(&mut fs, &Url::new("https://ex/q".to_string()), "/dl/q.bin", &|_, _| {});
    assert!(err.is_err());
    assert!(!fs.path_exists("/dl/q.bin").unwrap());
}

fn bad_utf8_text() -> String {
    std::str::from_utf8(&[0xff, 0xfe]).unwrap_err().to_string()
}

#[test]
fn execute_chain_takes_an_env_only_first_plan() {
    let mut fs = MemFs::new();
    let mut env = MemEnvStore::new();
    let plans = vec![env_only_plan("/root/tool"), env_only_plan("")];
    let mut ctx = Ctx {
        root: "/root".to_string(),
        fs: &mut fs,
        downloader: &NoDownloads,
        runner: &NoProcesses,
        env: &mut env,
        reporter: &SilentReporter,
    };
    assert_eq!(execute::execute_chain(&plans, &mut ctx).unwrap(), 0);
}

#[test]
fn execute_chain_reports_the_last_parentless_destination() {
    let mut fs = MemFs::new();
    let mut env = MemEnvStore::new();
    let plans = vec![env_only_plan(""), env_only_plan("/")];
    let mut ctx = Ctx {
        root: "/root".to_string(),
        fs: &mut fs,
        downloader: &NoDownloads,
        runner: &NoProcesses,
        env: &mut env,
        reporter: &SilentReporter,
    };
    let err = execute::execute_chain(&plans, &mut ctx).unwrap_err();
    assert_eq!(err, Error::Other("dest has no parent: /".to_string()));
}

#[test]
fn failed_download_restores_env_and_clears_staging() {
    let mut fs = MemFs::new();
    let mut env = MemEnvStore::new();
    env.write(&EnvVar::new("PATH"), "/usr/bin").unwrap();
    let mut plan = env_only_plan("/root/tool");
    plan.staged_ops = vec![Op::Download {
        url: Url::new("https://ex/tool.zip".to_string()),
        to: "/root/.staging/tool-1/asset".to_string(),
    }];
    let mut ctx = Ctx {
        root: "/root".to_string(),
        fs: &mut fs,
        downloader: &NoDownloads,
        runner: &NoProcesses,
        env: &mut env,
        reporter: &SilentReporter,
    };
    let err = execute::execute(&plan, &mut ctx).unwrap_err();
    assert_eq!(err, Error::Other("offline".to_string()));
    assert_eq!(env.read(&EnvVar::new("PATH")).unwrap().as_deref(), Some("/usr/bin"));
    assert_eq!(env.read(&EnvVar::new("TOOL_HOME")).unwrap(), None);
    assert!(!fs.path_exists("/root/.staging/tool-1").unwrap());
}

#[test]
fn segment_check_complete_names_a_short_range() {
    let s = Segment::new(Url::new("https://ex/f".to_string()), 10, 19);
    assert!(s.check_complete(10).is_ok());
    assert_eq!(
        s.check_complete(4),
        Err(Error::Network("segment bytes=10-19 truncated: got 4 bytes".to_string()))
    );
}

#[test]
fn mem_env_snapshot_lists_every_variable() {
    let mut env = MemEnvStore::new();
    env.write(&EnvVar::new("A"), "1").unwrap();
    env.write(&EnvVar::new("B"), "2").unwrap();
    env.write(&EnvVar::new("A"), "3").unwrap();
    let mut snap: Vec<(String, String)> =
        env.snapshot().into_iter().map(|(n, v)| (n.as_str().to_string(), v)).collect();
    snap.sort();
    assert_eq!(snap, vec![("A".to_string(), "3".to_string()), ("B".to_string(), "2".to_string())]);
}

#[test]
fn undecodable_payloads_are_named() {
    assert_eq!(
        bytes_to_manifest(&[0xff, 0xfe]),
        Err(Error::Other(format!("plugin is not valid UTF-8: {}", bad_utf8_text())))
    );
    assert_eq!(bytes_to_manifest(b"[meta]").unwrap(), "[meta]");
    let source = VersionsSource {
        url: "https://ex/v.json".to_string(),
        field: None,
        strip: None,
        suffix: None,
        stable_only: false,
    };
    assert_eq!(
        source.parse_body(&[0xff, 0xfe]),
        Err(Error::Other(format!("versions source https://ex/v.json: {}", bad_utf8_text())))
    );
    assert_eq!(source.parse_body(b"[\"1.2.3\"]").unwrap(), vec!["1.2.3".to_string()]);
    match release_from_payload(&[0xff, 0xfe], "linux") {
        Err(Error::Other(m)) => {
            assert_eq!(m, format!("release payload is not UTF-8: {}", bad_utf8_text()))
        }
        other => panic!("expected a decoding error, got {:?}", other.map(|r| r.asset)),
    }
}

#[test]
fn command_run_fails_when_every_command_fails() {
    let mut fs = MemFs::new();
    let mut env = MemEnvStore::new();
    let op = Op::RunCommand {
        commands: vec![CommandInvocation { tool: "cargo".to_string(), args: vec![], env: vec![] }],
        base: "/root/tool".to_string(),
    };
    let mut ctx = Ctx {
        root: "/root".to_string(),
        fs: &mut fs,
        downloader: &NoDownloads,
        runner: &NoProcesses,
        env: &mut env,
        reporter: &SilentReporter,
    };
    match op.apply(&mut ctx) {
        Err(Error::Process(m)) => {
            assert_eq!(m, "all install commands failed: cargo: process: not allowed")
        }
        other => panic!("expected an aggregated failure, got {:?}", other),
    }
}

#[test]
fn rollback_restores_files_even_when_env_refuses() {
    let mut fs = MemFs::new();
    fs.write("/d/f.txt", b"x").unwrap();
    let mut log = UndoLog::new();
    log.push(Compensation::RemoveDir("/d".to_string()));
    log.push(Compensation::RestoreEnv(RestoreEnv { name: EnvVar::new("A"), old: Some("1".to_string()) }));
    let report = log.rollback(&mut fs, &mut Refusing);
    assert_eq!(report.failures, vec!["refused".to_string()]);
    assert!(!fs.path_exists("/d").unwrap());
}

#[test]
fn all_commands_failed_joins_each_failure() {
    use_all_commands_failed();
}

fn use_all_commands_failed() {
    let commands = vec![
        CommandInvocation { tool: "cargo".to_string(), args: vec![], env: vec![] },
        CommandInvocation { tool: "npm".to_string(), args: vec![], env: vec![] },
    ];
    let errs = vec![Error::Process("exit 1".to_string()), Error::Other("not found".to_string())];
    assert_eq!(
        all_commands_failed(&commands, &errs),
        Error::Process(
            "all install commands failed: cargo: process: exit 1; npm: not found".to_string()
        )
    );
}

#[test]
fn install_helpers_build_receipt_and_error() {
    let plan = env_only_plan("/root/tool");
    let r = receipt_for(&plan, Vec::new());
    assert_eq!(r.name, "tool");
    assert_eq!(r.app_dir.as_path(), "/root/tool");
    assert_eq!(
        no_install_method("go"),
        Error::Other("no install method available for go on this platform".to_string())
    );
    assert!(retries_left(0) && retries_left(2) && !retries_left(3));
}

#[test]
fn windows_store_merges_with_semicolons_and_ignores_case() {
    let mut env = WindowsEnv { inner: MemEnvStore::new() };
    env.write(&EnvVar::new("PATH"), "C:\\Go\\bin").unwrap();
    apply_deltas(&[delta("PATH", "c:\\go\\BIN", EnvOp::Prepend)], &mut env).unwrap();
    assert_eq!(env.read(&EnvVar::new("PATH")).unwrap().as_deref(), Some("C:\\Go\\bin"));
    apply_deltas(&[delta("PATH", "D:\\x", EnvOp::Prepend)], &mut env).unwrap();
    assert_eq!(env.read(&EnvVar::new("PATH")).unwrap().as_deref(), Some("D:\\x;C:\\Go\\bin"));
    wanted::env::undo_delta(&delta("PATH", "d:\\X", EnvOp::Prepend), None, &mut env).unwrap();
    assert_eq!(env.read(&EnvVar::new("PATH")).unwrap().as_deref(), Some("C:\\Go\\bin"));
    assert!(!add_to_path("c:\\GO\\bin", &mut env).unwrap());
}

#[test]
fn failed_env_write_puts_earlier_variables_back() {
    let mut env = PathRefusing { inner: MemEnvStore::new() };
    env.write(&EnvVar::new("GOROOT"), "/old").unwrap();
    let deltas = vec![
        delta("GOROOT", "/new", EnvOp::Assign),
        delta("TOOL_HOME", "/t", EnvOp::Assign),
        delta("PATH", "/t/bin", EnvOp::Prepend),
    ];
    let err = apply_deltas(&deltas, &mut env).unwrap_err();
    assert_eq!(err, Error::Other("simulated PATH failure".to_string()));
    assert_eq!(env.read(&EnvVar::new("GOROOT")).unwrap().as_deref(), Some("/old"));
    assert_eq!(env.read(&EnvVar::new("TOOL_HOME")).unwrap(), None);
}

#[test]
fn failed_commit_leaves_no_half_finished_environment() {
    let mut fs = MemFs::new();
    let mut env = PathRefusing { inner: MemEnvStore::new() };
    let plan = env_only_plan("/root/tool");
    let mut ctx = Ctx {
        root: "/root".to_string(),
        fs: &mut fs,
        downloader: &NoDownloads,
        runner: &NoProcesses,
        env: &mut env,
        reporter: &SilentReporter,
    };
    let err = execute::execute(&plan, &mut ctx).unwrap_err();
    assert!(err.message().contains("simulated"));
    assert_eq!(env.read(&EnvVar::new("TOOL_HOME")).unwrap(), None);
    assert!(!fs.path_exists("/root/.staging/tool-1").unwrap());
}
