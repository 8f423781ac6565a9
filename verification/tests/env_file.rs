//! Env-file line handling: writes upsert shell-escaped `export` lines, and
//! removals drop exactly the named variable.

use wanted::env::store::{export_line, remove_var_lines, upsert};

fn strings(lines: &[&str]) -> Vec<String> {
    lines.iter().map(|l| l.to_string()).collect()
}

#[test]
fn test_write_writes_export_line() {
    let lines = upsert(Vec::new(), "PATH", "/opt/go/bin");
    assert_eq!(lines, strings(&["export PATH=\"/opt/go/bin\""]));
}

#[test]
fn test_write_replaces_same_name() {
    let lines = upsert(Vec::new(), "PATH", "/one");
    let lines = upsert(lines, "PATH", "/two");
    assert_eq!(
        lines
            .iter()
            .filter(|l| l.starts_with("export PATH="))
            .count(),
        1
    );
    assert!(lines.contains(&"export PATH=\"/two\"".to_owned()));
}

#[test]
fn test_write_keeps_other_names() {
    let lines = upsert(Vec::new(), "A", "/a");
    let lines = upsert(lines, "B", "/b");
    let lines = upsert(lines, "A", "/a2");
    assert_eq!(lines.iter().filter(|l| l.starts_with("export A=")).count(), 1);
    assert!(lines.contains(&"export A=\"/a2\"".to_owned()));
    assert!(lines.contains(&"export B=\"/b\"".to_owned()));
}

#[test]
fn test_remove_drops_only_named_line() {
    let lines = upsert(Vec::new(), "A", "/a");
    let lines = upsert(lines, "B", "/b");
    let lines = remove_var_lines(lines, "A");
    assert_eq!(lines, strings(&["export B=\"/b\""]));
    let lines = remove_var_lines(lines, "A");
    assert_eq!(lines, strings(&["export B=\"/b\""]));
}

#[test]
fn test_escaping_keeps_value_on_one_line() {
    let value = "a\"b\\c";
    let lines = upsert(Vec::new(), "WEIRD", value);
    assert_eq!(lines, strings(&["export WEIRD=\"a\\\"b\\\\c\""]));
    assert_eq!(export_line("WEIRD", value), "export WEIRD=\"a\\\"b\\\\c\"");
}

#[test]
fn test_remove_absent_file_is_noop() {
    let lines = remove_var_lines(Vec::new(), "A");
    assert!(lines.is_empty());
}

#[test]
fn unrelated_lines_survive_an_upsert() {
    let lines = upsert(strings(&["# managed", "export B=\"/b\""]), "A", "/a");
    assert_eq!(
        lines,
        strings(&["# managed", "export B=\"/b\"", "export A=\"/a\""])
    );
}
