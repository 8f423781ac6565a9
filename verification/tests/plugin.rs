//! Manifest model tests: validation, per-platform method selection, and
//! declared versions.

use wanted::cli::app::{declared_sources, resolve_latest, versions_for, LatestStep, VersionsStep};
use wanted::plugin::{
    AssetMap, EnvBox, Install, InstallMethod, Manifest, RawCommand, RawInstall, RawManifest,
    RawMeta, RawStrategy, Target, VersionsSource,
};
use wanted::table::Table;
use wanted::Version;

fn table<V>(pairs: Vec<(&str, V)>) -> Table<V> {
    let mut t = Table::new();
    for (k, v) in pairs {
        t.insert(k.to_string(), v);
    }
    t
}

fn strings(items: &[&str]) -> Vec<String> {
    items.iter().map(|s| s.to_string()).collect()
}

fn golang_assets() -> AssetMap {
    table(vec![
        (
            "x86_64-pc-windows-msvc",
            table(vec![("default", "https://ex/go{version}.zip".to_string())]),
        ),
        (
            "aarch64-apple-darwin",
            table(vec![("default", "https://ex/go{version}.tar.gz".to_string())]),
        ),
    ])
}

fn raw(method: InstallMethod) -> RawManifest {
    RawManifest {
        meta: RawMeta {
            name: Some("golang".to_string()),
            version: Some("1.0.0".to_string()),
            url: Some("https://go.dev".to_string()),
        },
        install: RawInstall {
            method,
            asset: golang_assets(),
            component: Table::new(),
            base_dir: "golang".to_string(),
            env_box: None,
            args: Vec::new(),
            strategy: Table::new(),
            command: Table::new(),
            fallback: Vec::new(),
            versions: Table::new(),
            versions_source: Table::new(),
        },
        env: table(vec![("PATH", "bin".to_string()), ("GOROOT", ".".to_string())]),
        env_by_platform: Table::new(),
    }
}

#[test]
fn parses_golang_manifest() {
    let manifest = Manifest::from_raw(raw(InstallMethod::Download)).unwrap();
    assert_eq!(manifest.meta.name.as_str(), "golang");
    assert_eq!(manifest.meta.version, "1.0.0");
    assert_eq!(manifest.meta.url.as_deref(), Some("https://go.dev"));
    assert_eq!(manifest.install.method, InstallMethod::Download);
    assert_eq!(manifest.install.base_dir.as_str(), "golang");
    assert_eq!(manifest.install.env_box, EnvBox::Prepend);
    assert_eq!(manifest.install.assets.len(), 2);
    assert!(manifest
        .install
        .assets
        .get("x86_64-pc-windows-msvc")
        .unwrap()
        .contains_key("default"));
    assert_eq!(manifest.env.len(), 2);
    assert!(manifest.install.components.is_empty());
    assert!(manifest.install.versions.is_empty());
}

#[test]
fn rejects_missing_meta_name() {
    let mut r = raw(InstallMethod::Download);
    r.meta.name = None;
    let err = Manifest::from_raw(r).unwrap_err();
    assert_eq!(err.message(), "manifest missing field: meta.name");
}

#[test]
fn rejects_download_without_assets() {
    let mut r = raw(InstallMethod::Download);
    r.install.asset = Table::new();
    assert!(Manifest::from_raw(r).is_err());
}

#[test]
fn installer_also_requires_assets() {
    let mut r = raw(InstallMethod::Installer);
    r.install.asset = Table::new();
    assert!(Manifest::from_raw(r).is_err());
}

#[test]
fn rejects_command_without_commands() {
    let r = raw(InstallMethod::Command);
    let err = Manifest::from_raw(r).unwrap_err();
    assert_eq!(err.message(), "manifest missing field: install.command");
}

#[test]
fn fallback_download_still_requires_assets() {
    let mut r = raw(InstallMethod::Command);
    r.install.command = table(vec![(
        "x86_64-pc-windows-msvc",
        vec![RawCommand {
            tool: "winget".to_string(),
            args: strings(&["install", "GoLang.Go"]),
            env: Table::new(),
        }],
    )]);
    r.install.fallback = vec![InstallMethod::Download];
    r.install.asset = Table::new();
    let err = Manifest::from_raw(r).unwrap_err();
    assert_eq!(err.message(), "manifest missing field: install.asset");
}

#[test]
fn keeps_the_tool_name_as_written() {
    let mut r = raw(InstallMethod::Download);
    r.meta.name = Some("a/b".to_string());
    let m = Manifest::from_raw(r).unwrap();
    assert_eq!(m.meta.name, "a/b");
}

#[test]
fn parses_fallback_chain() {
    let mut r = raw(InstallMethod::Command);
    r.install.command = table(vec![(
        "x86_64-pc-windows-msvc",
        vec![RawCommand {
            tool: "winget".to_string(),
            args: Vec::new(),
            env: Table::new(),
        }],
    )]);
    r.install.fallback = vec![InstallMethod::Download];
    let manifest = Manifest::from_raw(r).unwrap();
    assert_eq!(manifest.install.method, InstallMethod::Command);
    assert_eq!(manifest.install.fallback, [InstallMethod::Download]);
}

fn strategy_install() -> Install {
    let mut r = raw(InstallMethod::Download);
    r.install.strategy = table(vec![(
        "x86_64-pc-windows-msvc",
        RawStrategy {
            method: InstallMethod::Installer,
            args: strings(&["/S", "/DIR={base}"]),
        },
    )]);
    Manifest::from_raw(r).unwrap().install
}

#[test]
fn parses_per_platform_strategy() {
    let install = strategy_install();
    assert_eq!(install.strategy.len(), 1);
    assert_eq!(
        install.strategy.get("x86_64-pc-windows-msvc").unwrap().method,
        InstallMethod::Installer
    );
}

#[test]
fn method_for_hits_strategy_on_windows_and_falls_back_on_linux() {
    let install = strategy_install();
    let windows = Target::parts("x86_64", "windows", "msvc");
    let linux = Target::parts("x86_64", "linux", "gnu");
    let (win_method, win_args) = install.method_for(&windows);
    let (linux_method, linux_args) = install.method_for(&linux);
    assert_eq!(*win_method, InstallMethod::Installer);
    assert_eq!(win_args, &strings(&["/S", "/DIR={base}"]));
    assert_eq!(*linux_method, InstallMethod::Download);
    assert!(linux_args.is_empty());
}

fn versions_install() -> Install {
    let mut r = raw(InstallMethod::Download);
    r.install.versions = table(vec![
        ("default", strings(&["1.21.0", "1.22.5"])),
        ("go.dev", strings(&["1.20.0", "1.22.5", "1.23.1"])),
    ]);
    Manifest::from_raw(r).unwrap().install
}

#[test]
fn parses_versions_per_source() {
    let install = versions_install();
    assert_eq!(install.versions.get("default").unwrap(), &strings(&["1.21.0", "1.22.5"]));
}

#[test]
fn versions_for_defaults_to_default_source() {
    let install = versions_install();
    assert_eq!(install.versions_for(None), Some(&strings(&["1.21.0", "1.22.5"])));
    assert_eq!(
        install.versions_for(Some("go.dev")),
        Some(&strings(&["1.20.0", "1.22.5", "1.23.1"]))
    );
    assert_eq!(install.versions_for(Some("missing")), None);
}

#[test]
fn latest_for_resolves_newest_version_of_the_source() {
    let install = versions_install();
    let latest = install.latest_for(None).unwrap().unwrap();
    assert_eq!(latest, Version::parse("1.22.5").unwrap());
    let latest_dev = install.latest_for(Some("go.dev")).unwrap().unwrap();
    assert_eq!(latest_dev, Version::parse("1.23.1").unwrap());
}

#[test]
fn latest_for_is_none_when_source_declares_no_versions() {
    let install = Manifest::from_raw(raw(InstallMethod::Download)).unwrap().install;
    assert!(install.latest_for(None).is_none());
}

fn remote_source() -> VersionsSource {
    VersionsSource {
        url: "https://ex/go/index.json".to_string(),
        field: Some("version".to_string()),
        strip: Some("go".to_string()),
        suffix: None,
        stable_only: true,
    }
}

#[test]
fn versions_source_for_exposes_declared_endpoint() {
    let mut r = raw(InstallMethod::Download);
    r.install.versions_source = table(vec![("default", remote_source())]);
    let install = Manifest::from_raw(r).unwrap().install;
    let source = install.versions_source_for(None).unwrap();
    assert_eq!(source.url, "https://ex/go/index.json");
    assert_eq!(source.field.as_deref(), Some("version"));
    assert_eq!(source.strip.as_deref(), Some("go"));
    assert!(source.stable_only);
    assert!(install.versions_source_for(Some("missing")).is_none());
}

#[test]
fn versions_source_fills_no_inline_list() {
    let mut r = raw(InstallMethod::Download);
    r.install.versions_source = table(vec![("default", remote_source())]);
    let install = Manifest::from_raw(r).unwrap().install;
    assert!(install.versions_for(None).is_none());
    assert!(install.latest_for(None).is_none());
    assert!(install.versions_source_for(None).is_some());
    assert!(matches!(resolve_latest(&install, None), LatestStep::Fetch(_)));
    assert!(matches!(versions_for(&install, None, "go"), Ok(VersionsStep::Fetch(_))));
}

#[test]
fn latest_for_errors_on_non_semver_version() {
    let mut r = raw(InstallMethod::Download);
    r.install.versions = table(vec![("default", strings(&["1.2.0", "go1.3.0"]))]);
    let install = Manifest::from_raw(r).unwrap().install;
    assert!(install.latest_for(None).unwrap().is_err());
}

#[test]
fn latest_resolution_and_source_listing() {
    let install = versions_install();
    assert!(matches!(resolve_latest(&install, None), LatestStep::Resolved(Ok(_))));
    let plain = Manifest::from_raw(raw(InstallMethod::Download)).unwrap().install;
    assert!(matches!(resolve_latest(&plain, None), LatestStep::Unpinned));
    let err = versions_for(&plain, Some("nope"), "go").err().unwrap();
    assert_eq!(err.message(), "no source nope for go");
    let mut r = raw(InstallMethod::Download);
    r.install.versions = table(vec![("zeta", strings(&["1.0.0"])), ("alpha", strings(&["1.0.0"]))]);
    r.install.versions_source = table(vec![("beta", remote_source()), ("alpha", remote_source())]);
    let install = Manifest::from_raw(r).unwrap().install;
    assert_eq!(declared_sources(&install), strings(&["alpha", "beta", "zeta"]));
}

#[test]
fn target_triplets() {
    assert_eq!(Target::parts("x86_64", "windows", "msvc").triplet(), "x86_64-pc-windows-msvc");
    assert_eq!(Target::parts("x86_64", "linux", "gnu").triplet(), "x86_64-unknown-linux-gnu");
    assert_eq!(Target::parts("aarch64", "macos", "").triplet(), "aarch64-apple-darwin");
    assert_eq!(Target::parts("sparc64", "sparc", "").triplet(), "sparc64-sparc");
}

#[test]
fn table_walks_keys_in_order_whatever_the_insertion_order() {
    let mut t: Table<u32> = Table::new();
    t.insert("linux".to_string(), 1);
    t.insert("darwin".to_string(), 2);
    t.insert("windows".to_string(), 3);
    t.insert("darwin".to_string(), 4);
    let keys: Vec<&str> = t.entries().iter().map(|(k, _)| k.as_str()).collect();
    assert_eq!(keys, vec!["darwin", "linux", "windows"]);
    assert_eq!(t.get("darwin"), Some(&4));
    assert_eq!(t.len(), 3);
}
