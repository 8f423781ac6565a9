//! Uninstall tests: receipt-based rollback against the in-memory backends.

use wanted::engine::fs::{Fs, MemFs};
use wanted::env::{apply_deltas, EnvDelta, EnvOp, EnvStore, EnvVar, MemEnvStore, PATH_SEP};
use wanted::fs_path::AppDir;
use wanted::uninstall::{apply_receipt, remove_receipt};
use wanted::{Receipt, VarSnapshot, Version};

fn path() -> EnvVar {
    EnvVar::from("PATH")
}

#[test]
fn apply_receipt_removes_app_and_restores_env() {
    let mut fs = MemFs::new();
    let mut env = MemEnvStore::new();
    let app_root = "/root/golang";
    fs.write("/root/golang/go/bin/go.exe", b"binary").unwrap();
    env.write(
        &path(),
        &format!("/root/golang/bin{PATH_SEP}/root/gcc/bin{PATH_SEP}/usr/bin"),
    )
    .unwrap();
    env.write(&EnvVar::from("GOROOT"), "/root/golang").unwrap();

    let receipt = Receipt {
        name: "golang".to_string(),
        version: Version::parse("1.23.0").unwrap(),
        app_dir: AppDir::from_path(app_root),
        vars: vec![
            VarSnapshot {
                name: path(),
                op: EnvOp::Prepend,
                value: "/root/golang/bin".to_string(),
                old: Some("/usr/bin".to_string()),
            },
            VarSnapshot {
                name: EnvVar::from("GOROOT"),
                op: EnvOp::Assign,
                value: "/root/golang".to_string(),
                old: None,
            },
        ],
    };

    apply_receipt(&receipt, &mut fs, &mut env).unwrap();

    assert!(!fs.path_exists(app_root).unwrap());
    assert_eq!(
        env.read(&path()).unwrap().unwrap(),
        format!("/root/gcc/bin{PATH_SEP}/usr/bin")
    );
    assert_eq!(env.read(&EnvVar::from("GOROOT")).unwrap(), None);
}

#[test]
fn uninstall_of_earlier_app_preserves_later_app_path() {
    let mut fs = MemFs::new();
    let mut env = MemEnvStore::new();
    env.write(&path(), "/usr/bin").unwrap();

    let receipt_a = Receipt {
        name: "gcc".to_string(),
        version: Version::parse("13.0.0").unwrap(),
        app_dir: AppDir::from("/root/gcc"),
        vars: vec![VarSnapshot {
            name: path(),
            op: EnvOp::Prepend,
            value: "/root/gcc/bin".to_string(),
            old: Some("/usr/bin".to_string()),
        }],
    };
    apply_deltas(
        &[EnvDelta {
            name: path(),
            value: "/root/gcc/bin".into(),
            op: EnvOp::Prepend,
        }],
        &mut env,
    )
    .unwrap();

    let receipt_b = Receipt {
        name: "golang".to_string(),
        version: Version::parse("1.23.0").unwrap(),
        app_dir: AppDir::from("/root/golang"),
        vars: vec![VarSnapshot {
            name: path(),
            op: EnvOp::Prepend,
            value: "/root/golang/bin".to_string(),
            old: Some(format!("/root/gcc/bin{PATH_SEP}/usr/bin")),
        }],
    };
    apply_deltas(
        &[EnvDelta {
            name: path(),
            value: "/root/golang/bin".into(),
            op: EnvOp::Prepend,
        }],
        &mut env,
    )
    .unwrap();
    assert_eq!(
        env.read(&path()).unwrap().unwrap(),
        format!("/root/golang/bin{PATH_SEP}/root/gcc/bin{PATH_SEP}/usr/bin")
    );

    apply_receipt(&receipt_a, &mut fs, &mut env).unwrap();
    assert_eq!(
        env.read(&path()).unwrap().unwrap(),
        format!("/root/golang/bin{PATH_SEP}/usr/bin")
    );
    apply_receipt(&receipt_b, &mut fs, &mut env).unwrap();
    assert_eq!(env.read(&path()).unwrap().unwrap(), "/usr/bin");
}

#[test]
fn remove_receipt_deletes_subtree() {
    let mut fs = MemFs::new();
    let path = "/root/.wanted/installed/golang/receipt.toml";
    fs.write(path, b"name = \"golang\"").unwrap();
    remove_receipt(&mut fs, path).unwrap();
    assert!(!fs.path_exists(path).unwrap());
    assert!(!fs.path_exists("/root/.wanted/installed/golang").unwrap());
}

#[test]
fn uninstall_right_after_install_restores_every_variable() {
    let mut fs = MemFs::new();
    let mut env = MemEnvStore::new();
    env.write(&path(), "/usr/bin").unwrap();
    env.write(&EnvVar::from("GOROOT"), "/old/go").unwrap();
    let deltas = vec![
        EnvDelta { name: path(), value: "/root/golang/bin".into(), op: EnvOp::Prepend },
        EnvDelta { name: EnvVar::from("GOROOT"), value: "/root/golang".into(), op: EnvOp::Assign },
        EnvDelta { name: EnvVar::from("GOPATH"), value: "/home/u/go".into(), op: EnvOp::Assign },
    ];
    let vars: Vec<VarSnapshot> = deltas
        .iter()
        .map(|d| VarSnapshot {
            name: d.name.clone(),
            op: d.op,
            value: d.value.clone(),
            old: env.read(&d.name).unwrap(),
        })
        .collect();
    apply_deltas(&deltas, &mut env).unwrap();
    fs.write("/root/golang/bin/go", b"binary").unwrap();

    let receipt = Receipt {
        name: "golang".to_string(),
        version: Version::parse("1.23.0").unwrap(),
        app_dir: AppDir::from_path("/root/golang"),
        vars,
    };
    apply_receipt(&receipt, &mut fs, &mut env).unwrap();

    assert_eq!(env.read(&path()).unwrap().unwrap(), "/usr/bin");
    assert_eq!(env.read(&EnvVar::from("GOROOT")).unwrap().unwrap(), "/old/go");
    assert_eq!(env.read(&EnvVar::from("GOPATH")).unwrap(), None);
    assert!(!fs.path_exists("/root/golang").unwrap());
}
