//! Command-method tests: running external package-manager commands in
//! fallback order into `.wanted/apps/<base_dir>`, treating a missing tool and
//! a failing command alike (both fall through to the next candidate).

use std::cell::RefCell;

use wanted::engine::execute;
use wanted::engine::fs::{Fs, MemFs};
use wanted::engine::ops::Op;
use wanted::engine::plan::{Plan, Selection};
use wanted::engine::{Ctx, Downloader, ProcessRunner, Url};
use wanted::fs_path::Platform;
use wanted::env::{EnvStore, EnvVar, MemEnvStore};
use wanted::plugin::{EnvBox, Install, InstallMethod, Manifest, Meta, RawCommand, Target};
use wanted::report::{Progress, Reporter, SilentReporter};
use wanted::table::Table;
use wanted::Version;

fn table<V>(pairs: Vec<(&str, V)>) -> Table<V> {
    let mut t = Table::new();
    for (k, v) in pairs {
        t.insert(k.to_string(), v);
    }
    t
}

fn strings(items: &[&str]) -> Vec<String> {
    items.iter().map(|s| s.to_string()).collect()
}

/// A manifest installing `bat` via cargo first, npm second.
fn command_manifest() -> Manifest {
    Manifest {
        meta: Meta {
            name: "bat".to_string(),
            version: "1.0.0".to_string(),
            url: None,
        },
        install: Install {
            method: InstallMethod::Command,
            assets: Table::new(),
            components: Table::new(),
            base_dir: "bat".to_string(),
            env_box: EnvBox::Prepend,
            args: Vec::new(),
            strategy: Table::new(),
            commands: table(vec![(
                "x86_64-pc-windows-msvc",
                vec![
                    RawCommand {
                        tool: "cargo".to_string(),
                        args: strings(&["install", "--root", "{base}", "bat"]),
                        env: table(vec![("CARGO_INSTALL_ROOT", "{base}".to_string())]),
                    },
                    RawCommand {
                        tool: "npm".to_string(),
                        args: strings(&["install", "--prefix", "{base}", "bat"]),
                        env: Table::new(),
                    },
                ],
            )]),
            fallback: Vec::new(),
            versions: Table::new(),
            versions_source: Table::new(),
        },
        env: table(vec![("PATH", "bin".to_string())]),
        env_by_platform: Table::new(),
    }
}

fn target() -> Target {
    Target::parts("x86_64", "windows", "msvc")
}

fn expected_base() -> String {
    "/root/.wanted/apps/bat".to_string()
}

fn expected_path() -> String {
    "/root/.wanted/apps/bat/bin".to_string()
}

fn vsn() -> Version {
    Version::parse("1.23.0").unwrap()
}

fn plan_for(root: &str) -> Plan {
    command_manifest()
        .plan(root, &target(), &vsn(), &Selection::default(), "/home/u")
        .unwrap()
}

struct StubDownloader(Vec<u8>);

impl Downloader for StubDownloader {
    fn fetch<P: Fn(u64, Option<u64>)>(&self, _url: &Url, _on_progress: &P) -> wanted::Result<Vec<u8>> {
        Ok(self.0.clone())
    }
}

/// Fails the first `remaining` invocations, then succeeds, recording every
/// call.
struct FlakyProcess {
    remaining: RefCell<usize>,
    calls: RefCell<Vec<(String, Vec<String>, Vec<(String, String)>)>>,
}

impl FlakyProcess {
    fn new(remaining: usize) -> Self {
        FlakyProcess {
            remaining: RefCell::new(remaining),
            calls: RefCell::new(Vec::new()),
        }
    }
}

impl ProcessRunner for FlakyProcess {
    fn run(&self, program: &str, args: &[String]) -> wanted::Result<()> {
        self.run_with_env(program, args, &[])
    }
    fn run_with_env(&self, program: &str, args: &[String], env: &[(String, String)]) -> wanted::Result<()> {
        self.calls
            .borrow_mut()
            .push((program.to_string(), args.to_vec(), env.to_vec()));
        if *self.remaining.borrow() > 0 {
            *self.remaining.borrow_mut() -= 1;
            Err(wanted::Error::Process("simulated failure".into()))
        } else {
            Ok(())
        }
    }
}

/// Fails to write PATH.
struct FailingEnv {
    inner: MemEnvStore,
}

impl EnvStore for FailingEnv {
    fn platform(&self) -> Platform {
        self.inner.platform()
    }
    fn read(&self, name: &EnvVar) -> wanted::Result<Option<String>> {
        self.inner.read(name)
    }
    fn write(&mut self, name: &EnvVar, value: &str) -> wanted::Result<()> {
        if name.as_str() == "PATH" {
            Err(wanted::Error::Other("simulated env write failure".into()))
        } else {
            self.inner.write(name, value)
        }
    }
    fn remove(&mut self, name: &EnvVar) -> wanted::Result<()> {
        self.inner.remove(name)
    }
}

/// Records the sequence of phase labels.
#[derive(Default)]
struct RecordingReporter {
    phases: RefCell<Vec<&'static str>>,
}

impl Reporter for RecordingReporter {
    fn report(&self, event: Progress) {
        if let Progress::Phase(label) = event {
            self.phases.borrow_mut().push(label);
        }
    }
}

#[test]
fn plan_builds_run_command_op() {
    let plan = plan_for("/root");
    assert_eq!(plan.staged_ops.len(), 1);
    assert_eq!(plan.app_dir, plan.dest_dir);
    assert!(matches!(plan.commit_ops[0], Op::WriteEnv { .. }));

    let Op::RunCommand { commands, base } = &plan.staged_ops[0] else {
        panic!("command plan should run a RunCommand op");
    };
    assert_eq!(commands.len(), 2);
    assert_eq!(base, &plan.dest_dir);
    assert_eq!(base, &expected_base());

    assert_eq!(commands[0].tool, "cargo");
    let expected_args = vec![
        "install".to_string(),
        "--root".to_string(),
        base.to_string(),
        "bat".to_string(),
    ];
    assert_eq!(commands[0].args, expected_args);
    assert_eq!(
        commands[0].env,
        vec![("CARGO_INSTALL_ROOT".to_string(), base.to_string())]
    );

    assert_eq!(commands[1].tool, "npm");
    assert!(commands[1].env.is_empty());
}

#[test]
fn plan_rejects_command_without_platform_entry() {
    let linux = Target::parts("x86_64", "linux", "gnu");
    let err = command_manifest()
        .plan("/root", &linux, &vsn(), &Selection::default(), "/home/u")
        .unwrap_err();
    assert!(err.message().contains("unsupported platform"));
}

#[test]
fn plan_rejects_components_for_command_method() {
    let components = ["clang".to_string()];
    let selection = Selection {
        source: None,
        components: &components,
    };
    let err = command_manifest()
        .plan("/root", &target(), &vsn(), &selection, "/home/u")
        .unwrap_err();
    assert!(err
        .message()
        .contains("only supported for the 'download' method"));
}

#[test]
fn execute_falls_back_to_second_command_on_first_failure() {
    let mut fs = MemFs::new();
    let mut env = MemEnvStore::new();
    let runner = FlakyProcess::new(1);
    let plan = plan_for("/root");
    {
        let mut ctx = Ctx {
            root: "/root".to_string(),
            fs: &mut fs,
            downloader: &StubDownloader(Vec::new()),
            runner: &runner,
            env: &mut env,
            reporter: &SilentReporter,
        };
        execute::execute(&plan, &mut ctx).unwrap();
    }
    let calls = runner.calls.borrow();
    assert_eq!(calls.len(), 2);
    assert_eq!(calls[0].0, "cargo");
    assert_eq!(calls[1].0, "npm");
    assert!(fs.path_exists(&plan.dest_dir).unwrap());
    assert_eq!(
        env.read(&EnvVar::from("PATH")).unwrap().unwrap(),
        expected_path()
    );
}

#[test]
fn execute_aggregates_errors_when_all_commands_fail() {
    let mut fs = MemFs::new();
    let mut env = MemEnvStore::new();
    let runner = FlakyProcess::new(2);
    let plan = plan_for("/root");
    let keep = format!("{}/keep.txt", plan.dest_dir);
    fs.write(&keep, b"existing").unwrap();
    let err = {
        let mut ctx = Ctx {
            root: "/root".to_string(),
            fs: &mut fs,
            downloader: &StubDownloader(Vec::new()),
            runner: &runner,
            env: &mut env,
            reporter: &SilentReporter,
        };
        execute::execute(&plan, &mut ctx).unwrap_err()
    };
    let text = err.message();
    assert!(text.contains("all install commands failed"), "{text}");
    assert!(text.contains("cargo"), "{text}");
    assert!(text.contains("npm"), "{text}");
    assert!(fs.path_exists(&keep).unwrap(), "a prior install must survive");
}

#[test]
fn command_install_reports_single_installing_phase() {
    let mut fs = MemFs::new();
    let mut env = MemEnvStore::new();
    let reporter = RecordingReporter::default();
    let plan = plan_for("/root");
    {
        let mut ctx = Ctx {
            root: "/root".to_string(),
            fs: &mut fs,
            downloader: &StubDownloader(Vec::new()),
            runner: &FlakyProcess::new(0),
            env: &mut env,
            reporter: &reporter,
        };
        execute::execute(&plan, &mut ctx).unwrap();
    }
    assert_eq!(
        reporter.phases.borrow().as_slice(),
        ["Installing", "Configuring env"]
    );
}

#[test]
fn command_install_rolls_back_dest_on_env_failure() {
    let mut fs = MemFs::new();
    let mut env = FailingEnv {
        inner: MemEnvStore::new(),
    };
    let plan = plan_for("/root");
    let err = {
        let mut ctx = Ctx {
            root: "/root".to_string(),
            fs: &mut fs,
            downloader: &StubDownloader(Vec::new()),
            runner: &FlakyProcess::new(0),
            env: &mut env,
            reporter: &SilentReporter,
        };
        execute::execute(&plan, &mut ctx).unwrap_err()
    };
    assert!(err.message().contains("simulated"));
    assert!(!fs.path_exists(&plan.dest_dir).unwrap());
}

#[test]
fn failed_command_message_names_each_tool_and_error() {
    let mut fs = MemFs::new();
    let mut env = MemEnvStore::new();
    let runner = FlakyProcess::new(2);
    let plan = plan_for("/root");
    let err = {
        let mut ctx = Ctx {
            root: "/root".to_string(),
            fs: &mut fs,
            downloader: &StubDownloader(Vec::new()),
            runner: &runner,
            env: &mut env,
            reporter: &SilentReporter,
        };
        execute::execute(&plan, &mut ctx).unwrap_err()
    };
    assert_eq!(
        err.message(),
        "process: all install commands failed: cargo: process: simulated failure; npm: process: simulated failure"
    );
}
