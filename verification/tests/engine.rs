//! Execution engine tests: planning is pure, and execution rolls back by
//! replaying compensations against the in-memory filesystem.

use std::cell::RefCell;
use std::io::{Cursor, Write};
use zip::write::SimpleFileOptions;

use wanted::engine::execute;
use wanted::engine::fs::{Fs, MemFs};
use wanted::engine::ops::Op;
use wanted::engine::plan::{Plan, Selection};
use wanted::engine::{Ctx, Downloader, ProcessRunner, Url};
use wanted::fs_path::Platform;
use wanted::env::{EnvStore, EnvVar, MemEnvStore};
use wanted::plugin::{AssetMap, EnvBox, Install, InstallMethod, Manifest, Meta, Target};
use wanted::report::{Progress, Reporter, SilentReporter};
use wanted::table::Table;
use wanted::Version;

fn table<V>(pairs: Vec<(&str, V)>) -> Table<V> {
    let mut t = Table::new();
    for (k, v) in pairs {
        t.insert(k.to_string(), v);
    }
    t
}

fn sources(pairs: Vec<(&str, &str)>) -> Table<String> {
    table(pairs.into_iter().map(|(k, v)| (k, v.to_string())).collect())
}

fn download_manifest(name: &str, assets: AssetMap, env: Vec<(&str, &str)>) -> Manifest {
    Manifest {
        meta: Meta {
            name: name.to_string(),
            version: "1.0.0".to_string(),
            url: None,
        },
        install: Install {
            method: InstallMethod::Download,
            assets,
            components: Table::new(),
            base_dir: name.to_string(),
            env_box: EnvBox::Prepend,
            args: Vec::new(),
            strategy: Table::new(),
            commands: Table::new(),
            fallback: Vec::new(),
            versions: Table::new(),
            versions_source: Table::new(),
        },
        env: sources(env),
        env_by_platform: Table::new(),
    }
}

fn golang() -> Manifest {
    download_manifest(
        "golang",
        table(vec![(
            "x86_64-pc-windows-msvc",
            sources(vec![
                ("default", "https://go.dev/d/{version}.zip"),
                ("mirror", "https://mirror/h/{version}.zip"),
            ]),
        )]),
        vec![("PATH", "bin"), ("GOROOT", ".")],
    )
}

fn pbs() -> Manifest {
    download_manifest(
        "python3",
        table(vec![(
            "x86_64-pc-windows-msvc",
            sources(vec![(
                "default",
                "https://ex/python-build-standalone/releases/download/{date}/cpython-{version}-x86_64-pc-windows-msvc-install_only.tar.gz",
            )]),
        )]),
        vec![],
    )
}

fn node() -> Manifest {
    let mut m = download_manifest(
        "node",
        table(vec![
            ("x86_64-pc-windows-msvc", sources(vec![("default", "https://n/{version}-win.zip")])),
            ("x86_64-unknown-linux-gnu", sources(vec![("default", "https://n/{version}-linux.tar.gz")])),
        ]),
        vec![("PATH", "bin")],
    );
    m.env_by_platform = table(vec![("x86_64-pc-windows-msvc", sources(vec![("PATH", ".")]))]);
    m
}

fn llvm() -> Manifest {
    let mut m = download_manifest(
        "llvm",
        table(vec![(
            "x86_64-pc-windows-msvc",
            sources(vec![
                ("default", "https://ex/llvm-{version}.zip"),
                ("mirror", "https://mirror/l-{version}.zip"),
            ]),
        )]),
        vec![("PATH", "bin"), ("CLANG", "clang/bin")],
    );
    m.install.components = table(vec![(
        "clang",
        table(vec![(
            "x86_64-pc-windows-msvc",
            sources(vec![
                ("default", "https://ex/clang-{version}.zip"),
                ("mirror", "https://mirror/c-{version}.zip"),
            ]),
        )]),
    )]);
    m
}

fn win_target() -> Target {
    Target::parts("x86_64", "windows", "msvc")
}

/// A zip containing `go/bin/go.exe` and `go/LICENSE`.
fn tool_zip() -> Vec<u8> {
    let mut writer = zip::ZipWriter::new(Cursor::new(Vec::new()));
    let options = SimpleFileOptions::default().compression_method(zip::CompressionMethod::Deflated);
    writer.start_file("go/bin/go.exe", options).unwrap();
    writer.write_all(b"binary").unwrap();
    writer.start_file("go/LICENSE", options).unwrap();
    writer.write_all(b"mit").unwrap();
    writer.finish().unwrap().into_inner()
}

struct StubDownloader(Vec<u8>);

impl Downloader for StubDownloader {
    fn fetch<P: Fn(u64, Option<u64>)>(&self, _url: &Url, _on_progress: &P) -> wanted::Result<Vec<u8>> {
        Ok(self.0.clone())
    }
}

struct NoopProcess;

impl ProcessRunner for NoopProcess {
    fn run(&self, _program: &str, _args: &[String]) -> wanted::Result<()> {
        Ok(())
    }
}

struct RecordingReporter(RefCell<Vec<Progress>>);

impl Reporter for RecordingReporter {
    fn report(&self, event: Progress) {
        self.0.borrow_mut().push(event);
    }
}

/// Reports progress in quarter chunks then returns the full archive.
struct ChunkingDownloader;

impl Downloader for ChunkingDownloader {
    fn fetch<P: Fn(u64, Option<u64>)>(&self, _url: &Url, on_progress: &P) -> wanted::Result<Vec<u8>> {
        let body = tool_zip();
        let total = body.len() as u64;
        for done in [total / 4, total / 2, 3 * total / 4, total] {
            on_progress(done, Some(total));
        }
        Ok(body)
    }
}

fn vsn() -> Version {
    Version::parse("1.23.0").unwrap()
}

fn plan_for(manifest: &Manifest) -> Plan {
    manifest
        .plan("/root", &win_target(), &vsn(), &Selection::default(), "/home/u")
        .unwrap()
}

fn run<D: Downloader, R: Reporter, E: EnvStore>(
    plan: &Plan,
    fs: &mut MemFs,
    env: &mut E,
    downloader: &D,
    reporter: &R,
) -> wanted::Result<()> {
    let mut ctx = Ctx {
        root: "/root".to_string(),
        fs,
        downloader,
        runner: &NoopProcess,
        env,
        reporter,
    };
    execute::execute(plan, &mut ctx)
}

#[test]
fn plan_is_pure_and_well_structured() {
    let plan = plan_for(&golang());
    assert_eq!(plan.name.as_str(), "golang");
    assert_eq!(plan.version.text(), "1.23.0");
    assert_eq!(plan.staged_ops.len(), 2);
    assert!(matches!(plan.staged_ops[0], Op::Download { .. }));
    assert!(matches!(plan.staged_ops[1], Op::Unpack { .. }));
    assert_eq!(plan.commit_ops.len(), 1);
    assert!(matches!(plan.commit_ops[0], Op::WriteEnv { .. }));
    assert_eq!(plan.dest_dir, "/root/golang");
}

#[test]
fn env_is_overridden_per_platform() {
    let manifest = node();
    let windows = plan_for(&manifest)
        .env_deltas()
        .into_iter()
        .find(|d| d.name.as_str() == "PATH")
        .unwrap();
    assert_eq!(windows.value, "/root/node");

    let linux = manifest
        .plan(
            "/root",
            &Target::parts("x86_64", "linux", "gnu"),
            &vsn(),
            &Selection::default(),
            "/home/u",
        )
        .unwrap()
        .env_deltas()
        .into_iter()
        .find(|d| d.name.as_str() == "PATH")
        .unwrap();
    assert_eq!(linux.value, "/root/node/bin");
}

#[test]
fn execute_commits_and_persists_env() {
    let mut fs = MemFs::new();
    let mut env = MemEnvStore::new();
    let plan = plan_for(&golang());
    let staging_dir = plan.staging_dir.clone();
    run(&plan, &mut fs, &mut env, &StubDownloader(tool_zip()), &SilentReporter).unwrap();

    assert_eq!(fs.read("/root/golang/bin/go.exe").unwrap(), b"binary");
    assert!(!fs.path_exists(&staging_dir).unwrap());
    assert_eq!(
        env.read(&EnvVar::from("PATH")).unwrap().unwrap(),
        "/root/golang/bin"
    );
    assert_eq!(
        env.read(&EnvVar::from("GOROOT")).unwrap().unwrap(),
        "/root/golang"
    );
}

#[test]
fn execute_reports_phase_progress() {
    let mut fs = MemFs::new();
    let mut env = MemEnvStore::new();
    let reporter = RecordingReporter(RefCell::new(Vec::new()));
    let plan = plan_for(&golang());
    run(&plan, &mut fs, &mut env, &StubDownloader(tool_zip()), &reporter).unwrap();
    let phases: Vec<&'static str> = reporter
        .0
        .borrow()
        .iter()
        .filter_map(|event| match event {
            Progress::Phase(label) => Some(*label),
            _ => None,
        })
        .collect();
    assert_eq!(phases, ["Extracting", "Configuring env"]);
}

#[test]
fn execute_reports_download_source_url() {
    let mut fs = MemFs::new();
    let mut env = MemEnvStore::new();
    let reporter = RecordingReporter(RefCell::new(Vec::new()));
    let plan = plan_for(&golang());
    run(&plan, &mut fs, &mut env, &StubDownloader(tool_zip()), &reporter).unwrap();
    let sources: Vec<String> = reporter
        .0
        .borrow()
        .iter()
        .filter_map(|event| match event {
            Progress::DownloadSource { url } => Some(url.clone()),
            _ => None,
        })
        .collect();
    assert_eq!(sources, ["https://go.dev/d/1.23.0.zip"]);
}

#[test]
fn execute_reports_byte_progress_monotonically() {
    let mut fs = MemFs::new();
    let mut env = MemEnvStore::new();
    let reporter = RecordingReporter(RefCell::new(Vec::new()));
    let plan = plan_for(&golang());
    run(&plan, &mut fs, &mut env, &ChunkingDownloader, &reporter).unwrap();
    let total = tool_zip().len() as u64;
    let expected = [
        (total / 4, Some(total)),
        (total / 2, Some(total)),
        (3 * total / 4, Some(total)),
        (total, Some(total)),
    ];
    let bytes: Vec<(u64, Option<u64>)> = reporter
        .0
        .borrow()
        .iter()
        .filter_map(|event| match event {
            Progress::Bytes { done, total } => Some((*done, *total)),
            _ => None,
        })
        .collect();
    assert_eq!(bytes, expected);
}

/// Fails to write PATH.
struct FailingEnv {
    inner: MemEnvStore,
}

impl EnvStore for FailingEnv {
    fn platform(&self) -> Platform {
        self.inner.platform()
    }
    fn read(&self, name: &EnvVar) -> wanted::Result<Option<String>> {
        self.inner.read(name)
    }
    fn write(&mut self, name: &EnvVar, value: &str) -> wanted::Result<()> {
        if name.is_path() {
            Err(wanted::Error::Other("simulated env write failure".into()))
        } else {
            self.inner.write(name, value)
        }
    }
    fn remove(&mut self, name: &EnvVar) -> wanted::Result<()> {
        self.inner.remove(name)
    }
}

#[test]
fn execute_rolls_back_when_commit_fails() {
    let mut fs = MemFs::new();
    let mut env = FailingEnv { inner: MemEnvStore::new() };
    let plan = plan_for(&golang());
    let err = run(&plan, &mut fs, &mut env, &StubDownloader(tool_zip()), &SilentReporter).unwrap_err();
    assert!(err.message().contains("simulated"));
    assert!(!fs.path_exists(&plan.dest_dir).unwrap());
    assert!(!fs.path_exists(&plan.app_dir).unwrap());
}

#[test]
fn plan_rejects_unsupported_platform() {
    let sparc = Target::parts("sparc64", "sparc", "");
    assert!(golang()
        .plan("/root", &sparc, &vsn(), &Selection::default(), "/home/u")
        .is_err());
}

fn download_url(plan: &Plan) -> &str {
    match &plan.staged_ops[0] {
        Op::Download { url, .. } => url.as_str(),
        _ => unreachable!("first staged op is always Download"),
    }
}

#[test]
fn plan_defaults_to_the_default_asset_source() {
    let plan = plan_for(&golang());
    assert_eq!(download_url(&plan), "https://go.dev/d/1.23.0.zip");
}

#[test]
fn plan_url_expands_version_build_metadata_into_date() {
    let version = Version::parse("3.13.0+20260825").unwrap();
    let plan = pbs()
        .plan("/root", &win_target(), &version, &Selection::default(), "/home/u")
        .unwrap();
    assert_eq!(
        download_url(&plan),
        "https://ex/python-build-standalone/releases/download/20260825/cpython-3.13.0+20260825-x86_64-pc-windows-msvc-install_only.tar.gz"
    );
}

#[test]
fn plan_uses_requested_asset_source() {
    let selection = Selection {
        source: Some("mirror"),
        components: &[],
    };
    let plan = golang()
        .plan("/root", &win_target(), &vsn(), &selection, "/home/u")
        .unwrap();
    assert_eq!(download_url(&plan), "https://mirror/h/1.23.0.zip");
}

#[test]
fn plan_rejects_unknown_asset_source() {
    let selection = Selection {
        source: Some("nope"),
        components: &[],
    };
    let err = golang()
        .plan("/root", &win_target(), &vsn(), &selection, "/home/u")
        .unwrap_err();
    assert!(err.message().contains("no asset source nope"));
}

fn unpack_target(plan: &Plan, index: usize) -> &str {
    match &plan.staged_ops[index] {
        Op::Unpack { to, .. } => to,
        _ => unreachable!("staged op {index} is not Unpack"),
    }
}

#[test]
fn plan_downloads_no_components_by_default() {
    let plan = plan_for(&llvm());
    assert_eq!(plan.staged_ops.len(), 2);
}

#[test]
fn plan_appends_download_and_unpack_for_requested_component() {
    let components = [String::from("clang")];
    let selection = Selection {
        source: None,
        components: &components,
    };
    let plan = llvm()
        .plan("/root", &win_target(), &vsn(), &selection, "/home/u")
        .unwrap();
    assert_eq!(plan.staged_ops.len(), 4);
    assert!(
        matches!(&plan.staged_ops[2], Op::Download { url, .. } if url.as_str() == "https://ex/clang-1.23.0.zip")
    );
    let unpack_to = unpack_target(&plan, 3);
    assert!(unpack_to.ends_with("/app/clang"));
}

#[test]
fn plan_dedupes_repeated_component_requests() {
    let components = [String::from("clang"), String::from("clang")];
    let selection = Selection {
        source: None,
        components: &components,
    };
    let plan = llvm()
        .plan("/root", &win_target(), &vsn(), &selection, "/home/u")
        .unwrap();
    assert_eq!(plan.staged_ops.len(), 4);
}

#[test]
fn plan_rejects_unknown_component() {
    let components = [String::from("bogus")];
    let selection = Selection {
        source: None,
        components: &components,
    };
    let err = llvm()
        .plan("/root", &win_target(), &vsn(), &selection, "/home/u")
        .unwrap_err();
    assert!(err.message().contains("no component 'bogus'"));
}

#[test]
fn plan_component_uses_requested_asset_source() {
    let components = ["clang".to_string()];
    let selection = Selection {
        source: Some("mirror"),
        components: &components,
    };
    let plan = llvm()
        .plan("/root", &win_target(), &vsn(), &selection, "/home/u")
        .unwrap();
    assert!(
        matches!(&plan.staged_ops[2], Op::Download { url, .. } if url.as_str() == "https://mirror/c-1.23.0.zip")
    );
}

#[test]
fn plan_places_staging_under_record_directory() {
    let plan = plan_for(&golang());
    assert!(plan.staging_dir.starts_with("/root/.wanted/.staging/golang-"));
    assert_eq!(plan.app_dir, format!("{}/app", plan.staging_dir));
    assert_eq!(plan.download_to, format!("{}/downloads/1.23.0.zip", plan.staging_dir));
}

#[test]
fn plans_from_equal_arguments_differ_only_in_the_staging_nonce() {
    let a = plan_for(&golang());
    let b = plan_for(&golang());
    assert_eq!(a.method, b.method);
    assert_eq!(a.dest_dir, b.dest_dir);
    let tail = |p: &Plan, s: &str| s.strip_prefix(p.staging_dir.as_str()).map(|t| t.to_string());
    assert_eq!(tail(&a, &a.download_to), tail(&b, &b.download_to));
    assert_eq!(tail(&a, &a.app_dir), tail(&b, &b.app_dir));
    let names = |p: &Plan| -> Vec<(String, String)> {
        p.env_deltas().iter().map(|d| (d.name.as_str().to_string(), d.value.clone())).collect()
    };
    assert_eq!(names(&a), names(&b));
}

#[test]
fn planning_with_a_given_nonce_is_repeatable() {
    let manifest = golang();
    let at = |nonce: u128| {
        manifest
            .plan_method_at(
                InstallMethod::Download,
                &Vec::new(),
                "/root",
                &win_target(),
                &vsn(),
                &Selection::default(),
                "/home/u",
                nonce,
            )
            .unwrap()
    };
    let a = at(0xabc);
    let b = at(0xabc);
    assert_eq!(a.staging_dir, "/root/.wanted/.staging/golang-abc");
    assert_eq!(a.staging_dir, b.staging_dir);
    assert_eq!(a.download_to, "/root/.wanted/.staging/golang-abc/downloads/1.23.0.zip");
    assert_eq!(a.download_to, b.download_to);
    assert_eq!(a.app_dir, b.app_dir);
    assert_eq!(a.dest_dir, b.dest_dir);
    assert_eq!(a.staged_ops.len(), b.staged_ops.len());
}

#[test]
fn plan_expands_user_home_in_env_values() {
    let mut manifest = golang();
    manifest.env = sources(vec![("GOPATH", "{user}/go"), ("GOBIN", "$GOPATH/bin")]);
    let deltas = plan_for(&manifest).env_deltas();
    assert_eq!(deltas[0].name.as_str(), "GOBIN");
    assert_eq!(deltas[0].value, "$GOPATH/bin");
    assert_eq!(deltas[1].name.as_str(), "GOPATH");
    assert_eq!(deltas[1].value, "/home/u/go");
}

#[test]
fn plan_chain_skips_methods_the_platform_lacks() {
    let mut manifest = golang();
    manifest.install.method = InstallMethod::Command;
    manifest.install.fallback = vec![InstallMethod::Download];
    let plans = manifest.plan_chain("/root", &win_target(), &vsn(), &Selection::default(), "/home/u");
    assert_eq!(plans.len(), 1);
    assert_eq!(plans[0].method, InstallMethod::Download);
}

#[test]
fn execute_chain_falls_back_to_the_next_plan() {
    let mut fs = MemFs::new();
    let mut env = MemEnvStore::new();
    let mut failing = plan_for(&golang());
    failing.staged_ops = vec![Op::Unpack {
        from: "/nowhere/archive.zip".to_string(),
        to: failing.app_dir.clone(),
    }];
    let good = plan_for(&golang());
    let chosen = {
        let mut ctx = Ctx {
            root: "/root".to_string(),
            fs: &mut fs,
            downloader: &StubDownloader(tool_zip()),
            runner: &NoopProcess,
            env: &mut env,
            reporter: &SilentReporter,
        };
        execute::execute_chain(&[failing, good], &mut ctx).unwrap()
    };
    assert_eq!(chosen, 1);
    assert_eq!(fs.read("/root/golang/bin/go.exe").unwrap(), b"binary");
}
