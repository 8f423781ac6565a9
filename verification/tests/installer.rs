//! Installer-method tests: downloading an executable and running it silently
//! into `.wanted/apps/<base_dir>`, with the method and arguments selected per
//! platform through `install.strategy`.

use std::cell::RefCell;

use wanted::engine::execute;
use wanted::engine::fs::{Fs, MemFs};
use wanted::engine::ops::Op;
use wanted::engine::plan::{Plan, Selection};
use wanted::engine::{Ctx, Downloader, ProcessRunner, Url};
use wanted::fs_path::Platform;
use wanted::env::{EnvStore, EnvVar, MemEnvStore};
use wanted::plugin::{
    EnvBox, Install, InstallMethod, Manifest, Meta, RawStrategy, Target,
};
use wanted::report::SilentReporter;
use wanted::table::Table;
use wanted::Version;

fn table<V>(pairs: Vec<(&str, V)>) -> Table<V> {
    let mut t = Table::new();
    for (k, v) in pairs {
        t.insert(k.to_string(), v);
    }
    t
}

/// The mixed manifest: Windows installs a silent `.exe`, Linux unpacks a
/// tarball, selected by `install.strategy`.
fn mixed_manifest() -> Manifest {
    Manifest {
        meta: Meta {
            name: "gcc".to_string(),
            version: "1.0.0".to_string(),
            url: None,
        },
        install: Install {
            method: InstallMethod::Download,
            assets: table(vec![
                (
                    "x86_64-pc-windows-msvc",
                    table(vec![("default", "https://ex/gcc-{version}-win.exe".to_string())]),
                ),
                (
                    "x86_64-unknown-linux-gnu",
                    table(vec![("default", "https://ex/gcc-{version}.tar.gz".to_string())]),
                ),
            ]),
            components: Table::new(),
            base_dir: "gcc".to_string(),
            env_box: EnvBox::Prepend,
            args: Vec::new(),
            strategy: table(vec![(
                "x86_64-pc-windows-msvc",
                RawStrategy {
                    method: InstallMethod::Installer,
                    args: vec!["/VERYSILENT".to_string(), "/DIR={base}".to_string()],
                },
            )]),
            commands: Table::new(),
            fallback: Vec::new(),
            versions: Table::new(),
            versions_source: Table::new(),
        },
        env: table(vec![("PATH", "bin".to_string())]),
        env_by_platform: Table::new(),
    }
}

fn win_target() -> Target {
    Target::parts("x86_64", "windows", "msvc")
}

fn vsn() -> Version {
    Version::parse("1.23.0").unwrap()
}

fn plan_for(root: &str) -> Plan {
    mixed_manifest()
        .plan(root, &win_target(), &vsn(), &Selection::default(), "/home/u")
        .unwrap()
}

struct StubDownloader(Vec<u8>);

impl Downloader for StubDownloader {
    fn fetch<P: Fn(u64, Option<u64>)>(&self, _url: &Url, _on_progress: &P) -> wanted::Result<Vec<u8>> {
        Ok(self.0.clone())
    }
}

struct NoopProcess;

impl ProcessRunner for NoopProcess {
    fn run(&self, _program: &str, _args: &[String]) -> wanted::Result<()> {
        Ok(())
    }
}

/// An env backend that fails to write PATH.
struct FailingEnv {
    inner: MemEnvStore,
}

impl EnvStore for FailingEnv {
    fn platform(&self) -> Platform {
        self.inner.platform()
    }
    fn read(&self, name: &EnvVar) -> wanted::Result<Option<String>> {
        self.inner.read(name)
    }
    fn write(&mut self, name: &EnvVar, value: &str) -> wanted::Result<()> {
        if name.is_path() {
            Err(wanted::Error::Other("simulated env write failure".into()))
        } else {
            self.inner.write(name, value)
        }
    }
    fn remove(&mut self, name: &EnvVar) -> wanted::Result<()> {
        self.inner.remove(name)
    }
}

#[test]
fn plan_selects_installer_strategy_on_windows() {
    let plan = plan_for("/root");
    assert_eq!(plan.staged_ops.len(), 2);
    assert!(matches!(plan.staged_ops[0], Op::Download { .. }));
    let Op::RunInstaller { exe, args, base } = &plan.staged_ops[1] else {
        panic!("windows plan should run the installer");
    };
    let expected_base = "/root/.wanted/apps/gcc".to_string();
    assert_eq!(base, &expected_base);
    assert_eq!(plan.dest_dir, expected_base);
    assert_eq!(plan.app_dir, expected_base);
    assert_eq!(
        args,
        &["/VERYSILENT".to_string(), format!("/DIR={expected_base}")]
    );
    assert_eq!(exe, &plan.download_to);
}

#[test]
fn plan_falls_back_to_download_off_strategy_platform() {
    let linux = Target::parts("x86_64", "linux", "gnu");
    let plan = mixed_manifest()
        .plan("/root", &linux, &vsn(), &Selection::default(), "/home/u")
        .unwrap();
    assert_eq!(plan.staged_ops.len(), 2);
    assert!(matches!(plan.staged_ops[0], Op::Download { .. }));
    assert!(matches!(plan.staged_ops[1], Op::Unpack { .. }));
    assert_ne!(plan.app_dir, plan.dest_dir);
}

#[test]
fn execute_installer_keeps_dest_and_persists_env() {
    let mut fs = MemFs::new();
    let mut env = MemEnvStore::new();
    let plan = plan_for("/root");
    let staging_dir = plan.staging_dir.clone();
    {
        let mut ctx = Ctx {
            root: "/root".to_string(),
            fs: &mut fs,
            downloader: &StubDownloader(vec![0x4d, 0x5a]),
            runner: &NoopProcess,
            env: &mut env,
            reporter: &SilentReporter,
        };
        execute::execute(&plan, &mut ctx).unwrap();
    }
    assert!(fs.path_exists(&plan.dest_dir).unwrap());
    assert!(!fs.path_exists(&staging_dir).unwrap());
    assert_eq!(
        env.read(&EnvVar::from("PATH")).unwrap().unwrap(),
        "/root/.wanted/apps/gcc/bin"
    );
}

#[test]
fn execute_installer_rolls_back_dest_on_env_failure() {
    let mut fs = MemFs::new();
    let mut env = FailingEnv { inner: MemEnvStore::new() };
    let plan = plan_for("/root");
    let err = {
        let mut ctx = Ctx {
            root: "/root".to_string(),
            fs: &mut fs,
            downloader: &StubDownloader(vec![0x4d, 0x5a]),
            runner: &NoopProcess,
            env: &mut env,
            reporter: &SilentReporter,
        };
        execute::execute(&plan, &mut ctx).unwrap_err()
    };
    assert!(err.message().contains("simulated"));
    assert!(!fs.path_exists(&plan.dest_dir).unwrap());
    assert!(!fs.path_exists(&plan.app_dir).unwrap());
}

/// Records the phase labels reported during an install.
#[derive(Default)]
struct RecordingReporter {
    phases: RefCell<Vec<&'static str>>,
}

impl wanted::report::Reporter for RecordingReporter {
    fn report(&self, event: wanted::report::Progress) {
        if let wanted::report::Progress::Phase(label) = event {
            self.phases.borrow_mut().push(label);
        }
    }
}

#[test]
fn installer_install_reports_installing_then_env_phases() {
    let mut fs = MemFs::new();
    let mut env = MemEnvStore::new();
    let reporter = RecordingReporter::default();
    let plan = plan_for("/root");
    {
        let mut ctx = Ctx {
            root: "/root".to_string(),
            fs: &mut fs,
            downloader: &StubDownloader(vec![0x4d, 0x5a]),
            runner: &NoopProcess,
            env: &mut env,
            reporter: &reporter,
        };
        execute::execute(&plan, &mut ctx).unwrap();
    }
    assert_eq!(reporter.phases.borrow().as_slice(), ["Installing", "Configuring env"]);
}
