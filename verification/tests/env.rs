//! Environment layer tests: delta merging, compensation replay, path lists.

use wanted::fs_path::Platform;
use wanted::env::{
    add_to_path, apply_deltas, reverse_value, undo_delta, EnvDelta, EnvOp, EnvStore, EnvVar,
    MemEnvStore, PathValue, PATH_SEP,
};

fn joined(parts: &[&str]) -> String {
    PathValue::join(parts)
}

#[test]
fn prepend_inserts_at_front_with_dedup() {
    let mut store = MemEnvStore::new();
    let path = EnvVar::from("PATH");
    store.write(&path, "/old/bin").unwrap();
    let deltas = [EnvDelta {
        name: path.clone(),
        value: "/apps/go/bin".into(),
        op: EnvOp::Prepend,
    }];
    apply_deltas(&deltas, &mut store).unwrap();
    assert_eq!(
        store.read(&path).unwrap().unwrap(),
        joined(&["/apps/go/bin", "/old/bin"])
    );
    apply_deltas(&deltas, &mut store).unwrap();
    assert_eq!(
        store.read(&path).unwrap().unwrap(),
        joined(&["/apps/go/bin", "/old/bin"])
    );
}

#[test]
fn compensation_restores_old_value() {
    let mut store = MemEnvStore::new();
    let path = EnvVar::from("PATH");
    store.write(&path, "/old/bin").unwrap();
    let deltas = [EnvDelta {
        name: path.clone(),
        value: "capnew/bin".into(),
        op: EnvOp::Prepend,
    }];
    let snapshots = apply_deltas(&deltas, &mut store).unwrap();
    for (name, old) in snapshots.iter().rev() {
        store.remove(name).unwrap();
        if let Some(value) = old.as_deref() {
            store.write(name, value).unwrap();
        }
    }
    assert_eq!(store.read(&path).unwrap().unwrap(), "/old/bin");
}

#[test]
fn set_overwrites_and_remove_clears_missing() {
    let mut store = MemEnvStore::new();
    let goroot = EnvVar::from("GOROOT");
    store.write(&goroot, "/usr/local/go").unwrap();
    let delta = EnvDelta {
        name: goroot.clone(),
        value: "/home/u/go".into(),
        op: EnvOp::Assign,
    };
    apply_deltas(std::slice::from_ref(&delta), &mut store).unwrap();
    assert_eq!(store.read(&goroot).unwrap().unwrap(), "/home/u/go");
}

#[test]
fn reverse_prepend_removes_only_applied_segment() {
    let applied = EnvDelta {
        name: EnvVar::from("PATH"),
        value: "/apps/golang/bin".into(),
        op: EnvOp::Prepend,
    };
    let current = joined(&["/apps/golang/bin", "/apps/gcc/bin", "/usr/bin"]);
    let next = reverse_value(&applied, Some("/usr/bin"), Some(&current)).unwrap();
    assert_eq!(next, joined(&["/apps/gcc/bin", "/usr/bin"]));
}

#[test]
fn reverse_prepend_empty_leaves_none() {
    let applied = EnvDelta {
        name: EnvVar::from("PATH"),
        value: "/apps/golang/bin".into(),
        op: EnvOp::Prepend,
    };
    assert_eq!(reverse_value(&applied, None, Some("/apps/golang/bin")), None);
    assert_eq!(reverse_value(&applied, None, None), None);
}

#[test]
fn undo_delta_set_restores_snapshot() {
    let mut store = MemEnvStore::new();
    let goroot = EnvVar::from("GOROOT");
    store.write(&goroot, "/home/u/go").unwrap();
    let delta = EnvDelta {
        name: goroot.clone(),
        value: "/home/u/go".into(),
        op: EnvOp::Assign,
    };
    apply_deltas(std::slice::from_ref(&delta), &mut store).unwrap();
    undo_delta(&delta, Some("/usr/local/go"), &mut store).unwrap();
    assert_eq!(store.read(&goroot).unwrap().unwrap(), "/usr/local/go");
}

#[test]
fn undo_delta_set_without_old_removes_var() {
    let mut store = MemEnvStore::new();
    let goroot = EnvVar::from("GOROOT");
    store.remove(&goroot).unwrap();
    let delta = EnvDelta {
        name: goroot.clone(),
        value: "/home/u/go".into(),
        op: EnvOp::Assign,
    };
    apply_deltas(std::slice::from_ref(&delta), &mut store).unwrap();
    undo_delta(&delta, None, &mut store).unwrap();
    assert_eq!(store.read(&goroot).unwrap(), None);
}

#[test]
fn path_value_prepend_and_append_are_platform_joined() {
    assert_eq!(PathValue::separator(), PATH_SEP);
    assert_eq!(joined(&["a", "b"]), format!("a{PATH_SEP}b"));
    let list = PathValue::new("a".to_string());
    assert_eq!(list.append("b"), joined(&["a", "b"]));
    assert_eq!(list.prepend("z"), joined(&["z", "a"]));
}

#[test]
fn path_value_remove_drops_one_entry() {
    let list = PathValue::new(joined(&["a", "b", "c"]));
    assert_eq!(list.remove("b").unwrap(), joined(&["a", "c"]));
    assert_eq!(PathValue::new("a".to_string()).remove("a"), None);
}

#[test]
fn env_var_is_path_matches() {
    assert!(EnvVar::from("PATH").is_path());
}

#[test]
fn env_var_equality_follows_platform() {
    let goroot = EnvVar::from("GOROOT");
    assert_eq!(goroot, EnvVar::from("GOROOT"));
}

#[test]
fn posix_names_are_case_sensitive() {
    assert!(!EnvVar::from("path").is_path());
    assert_ne!(EnvVar::from("goroot"), EnvVar::from("GOROOT"));
}

#[test]
fn path_value_contains_trims_entries() {
    let list = PathValue::new(" /a/bin :/b/bin".to_string());
    assert!(list.contains("/a/bin"));
    assert!(!list.contains("/c/bin"));
}

#[test]
fn removing_an_offered_entry_restores_the_list() {
    let list = PathValue::new("/usr/bin".to_string());
    let first = list.prepend("/opt/tool/bin");
    let offered = PathValue::new(first.clone());
    assert_eq!(offered.remove("/opt/tool/bin").unwrap(), "/usr/bin");
    assert_eq!(offered.prepend("/opt/tool/bin"), first);
}

#[test]
fn add_to_path_prepends_once() {
    let mut store = MemEnvStore::new();
    store.write(&EnvVar::from("PATH"), "/usr/bin").unwrap();
    assert!(add_to_path("/opt/wanted", &mut store).unwrap());
    assert!(!add_to_path("/opt/wanted", &mut store).unwrap());
    assert_eq!(
        store.read(&EnvVar::from("PATH")).unwrap().unwrap(),
        "/opt/wanted:/usr/bin"
    );
}

#[test]
fn uninstalling_in_either_order_keeps_the_other_entry() {
    let base = PathValue::new("/usr/bin".to_string());
    let after_a = PathValue::new(base.prepend("/opt/a/bin"));
    let text_b = after_a.append("/opt/b/bin");
    assert_eq!(text_b, "/opt/a/bin:/usr/bin:/opt/b/bin");
    let after_b = PathValue::new(text_b);

    let without_a = PathValue::new(after_b.remove("/opt/a/bin").unwrap());
    assert!(without_a.contains("/opt/b/bin"));
    assert!(!without_a.contains("/opt/a/bin"));

    let without_b = PathValue::new(after_b.remove("/opt/b/bin").unwrap());
    assert!(without_b.contains("/opt/a/bin"));
    assert!(!without_b.contains("/opt/b/bin"));
}

#[test]
fn rollback_of_an_env_write_restores_every_variable() {
    let mut store = MemEnvStore::new();
    store.write(&EnvVar::from("PATH"), "/usr/bin").unwrap();
    store.write(&EnvVar::from("GOROOT"), "/old/go").unwrap();
    let deltas = vec![
        EnvDelta { name: EnvVar::from("PATH"), value: "/opt/go/bin".to_string(), op: EnvOp::Prepend },
        EnvDelta { name: EnvVar::from("GOROOT"), value: "/opt/go".to_string(), op: EnvOp::Assign },
        EnvDelta { name: EnvVar::from("GOPATH"), value: "/home/u/go".to_string(), op: EnvOp::Assign },
    ];
    let snaps = apply_deltas(&deltas, &mut store).unwrap();
    assert_eq!(store.read(&EnvVar::from("PATH")).unwrap().unwrap(), "/opt/go/bin:/usr/bin");
    for (name, old) in snaps.iter().rev() {
        match old {
            Some(v) => store.write(name, v).unwrap(),
            None => store.remove(name).unwrap(),
        }
    }
    assert_eq!(store.read(&EnvVar::from("PATH")).unwrap().unwrap(), "/usr/bin");
    assert_eq!(store.read(&EnvVar::from("GOROOT")).unwrap().unwrap(), "/old/go");
    assert_eq!(store.read(&EnvVar::from("GOPATH")).unwrap(), None);
}

#[test]
fn offering_an_entry_twice_changes_nothing() {
    let once = PathValue::new("/usr/bin".to_string()).prepend("/opt/tool/bin");
    let twice = PathValue::new(once.clone()).prepend("/opt/tool/bin");
    assert_eq!(once, twice);
    let appended = PathValue::new(once.clone()).append("/opt/tool/bin");
    assert_eq!(once, appended);
}

#[test]
fn path_value_dedupes_case_variant_on_windows() {
    let list = PathValue::on("C:\\apps\\go\\bin".to_string(), Platform::Windows);
    assert_eq!(list.prepend("c:\\APPS\\GO\\BIN"), "C:\\apps\\go\\bin".to_string());
}

#[test]
fn windows_names_ignore_case() {
    assert!(EnvVar::from("path").is_path_on(Platform::Windows));
    assert!(!EnvVar::from("path").is_path_on(Platform::Posix));
    assert!(EnvVar::from("goroot").same_on(&EnvVar::from("GOROOT"), Platform::Windows));
    assert!(!EnvVar::from("goroot").same_on(&EnvVar::from("GOROOT"), Platform::Posix));
}

#[test]
fn windows_lists_use_semicolons_and_ignore_case() {
    assert_eq!(PathValue::separator_on(Platform::Windows), ";");
    assert_eq!(PathValue::join_on(&["a", " ", "b"], Platform::Windows), "a;b");
    let list = PathValue::on("C:\\Go\\bin; D:\\x".to_string(), Platform::Windows);
    assert_eq!(list.remove("c:\\go\\BIN").as_deref(), Some("D:\\x"));
    assert_eq!(list.append("E:\\y"), "C:\\Go\\bin; D:\\x;E:\\y");
    let posix = PathValue::on("/a:/b".to_string(), Platform::Posix);
    assert_eq!(posix.remove("/A"), Some("/a:/b".to_string()));
}
