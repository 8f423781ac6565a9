//! Rollback replays compensations newest first: what they remove is gone,
//! restored variables hold their old values, and everything else stays.

use wanted::engine::execute::UndoLog;
use wanted::engine::fs::{Fs, MemFs};
use wanted::engine::ops::{Compensation, RestoreEnv};
use wanted::env::{EnvStore, EnvVar, MemEnvStore};

#[test]
fn rollback_removes_compensated_paths_and_restores_variables() {
    let mut fs = MemFs::new();
    fs.write("root/keep.txt", b"kept").unwrap();
    fs.write("root/.staging/go.zip", b"archive").unwrap();
    fs.write("root/go/bin/go", b"binary").unwrap();
    let mut env = MemEnvStore::new();
    env.write(&EnvVar::from("GOROOT"), "/opt/go").unwrap();

    let mut log = UndoLog::new();
    log.push(Compensation::RemoveFile("root/.staging/go.zip".to_string()));
    log.push(Compensation::RemoveDir("root/go".to_string()));
    log.push(Compensation::Composite(vec![RestoreEnv {
        name: EnvVar::from("GOROOT"),
        old: None,
    }]));
    assert_eq!(log.len(), 3);

    let report = log.rollback(&mut fs, &mut env);
    assert!(report.failures.is_empty());
    assert!(report.first_failure().is_none());
    assert!(!fs.path_exists("root/.staging/go.zip").unwrap());
    assert!(!fs.path_exists("root/go").unwrap());
    assert!(!fs.path_exists("root/go/bin/go").unwrap());
    assert_eq!(fs.read("root/keep.txt").unwrap(), b"kept");
    assert_eq!(env.read(&EnvVar::from("GOROOT")).unwrap(), None);
}

#[test]
fn rollback_tolerates_paths_that_are_already_gone() {
    let mut fs = MemFs::new();
    let mut env = MemEnvStore::new();
    let mut log = UndoLog::new();
    log.push(Compensation::RemoveFile("missing/file".to_string()));
    log.push(Compensation::RemoveDir("missing/dir".to_string()));
    log.push(Compensation::Nothing);
    let report = log.rollback(&mut fs, &mut env);
    assert!(report.failures.is_empty());
}
