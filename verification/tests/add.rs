//! Plugin-source resolution tests.

use std::io::Write;
use wanted::cli::add::{resolve_add_source, PluginSource, DEFAULT_REGISTRY};

#[test]
fn missing_path_defaults_to_registry() {
    let source = resolve_add_source("golang", None, false);
    assert_eq!(
        source,
        PluginSource::Registry {
            name: "golang".into(),
            url: format!("{}/golang.toml", DEFAULT_REGISTRY),
        }
    );
}

#[test]
fn registry_override_used_when_given() {
    let source = resolve_add_source("llvm", Some("https://example.com/registry"), false);
    assert_eq!(
        source,
        PluginSource::Registry {
            name: "llvm".into(),
            url: "https://example.com/registry/llvm.toml".into(),
        }
    );
}

#[test]
fn local_file_wins() {
    assert_eq!(
        resolve_add_source("./golang.toml", None, true),
        PluginSource::Local("./golang.toml".into())
    );
}

#[test]
fn trailing_slashes_of_registry_are_dropped() {
    let source = resolve_add_source("go", Some("https://r.example//"), false);
    assert_eq!(
        source,
        PluginSource::Registry {
            name: "go".into(),
            url: "https://r.example/go.toml".into(),
        }
    );
}

#[test]
fn local_path_wins_when_file_exists() {
    let mut file = tempfile::Builder::new().suffix(".toml").tempfile().unwrap();
    file.write_all(b"[meta]\nname = \"go\"\n").unwrap();
    let path = file.path().to_str().unwrap().to_owned();
    let is_file = std::path::Path::new(&path).is_file();
    assert_eq!(
        resolve_add_source(&path, None, is_file),
        PluginSource::Local(path.clone())
    );
}
