//! Plugin manifest domain model and validation.
//!
//! A manifest as written ([`RawManifest`]) is validated into the internal
//! model [`Manifest`], which the planning layer consumes.

pub mod target;
pub mod versions;

use vstd::prelude::*;

use crate::error::{Error, Result};
use crate::table::Table;
use crate::version::{picks_latest, pick_latest, Version};

pub use target::Target;

verus! {

/// The default source name used when none is explicitly requested.
pub const DEFAULT_SOURCE: &'static str = "default";

/// Install method.
#[derive(Clone, Copy, Debug, PartialEq, Eq, Structural)]
pub enum InstallMethod {
    /// Extract the vendor-distributed archive directly.
    Download,
    /// Run the downloaded asset as a silent installer into the install directory.
    Installer,
    /// Delegate to a system package manager; not wired yet.
    System,
    /// Run external package-manager commands in order, falling back to the
    /// next on a missing tool or non-zero exit.
    Command,
}

/// The PATH box (prepend or append).
#[derive(Clone, Copy, Debug, PartialEq, Eq, Structural)]
pub enum EnvBox {
    /// Prepend.
    Prepend,
    /// Append.
    Append,
}

/// A per-platform override of the install method and its silent arguments.
#[derive(Clone, Debug, PartialEq, Eq)]
pub struct RawStrategy {
    /// Install method for this platform.
    pub method: InstallMethod,
    /// Silent-install arguments, with `{base}` = the install directory.
    pub args: Vec<String>,
}

/// One external install command, tried in order until one succeeds.
#[derive(Clone, Debug, PartialEq, Eq)]
pub struct RawCommand {
    /// The program to invoke, resolved via PATH (e.g. "cargo", "npm").
    pub tool: String,
    /// Argument templates; `{base}` / `{version}` / `{user}` are expanded.
    pub args: Vec<String>,
    /// Extra environment variables (name -> template).
    pub env: Table<String>,
}

/// A remote endpoint listing a source's versions, with extraction rules.
#[derive(Clone, Debug, PartialEq, Eq)]
pub struct VersionsSource {
    /// The JSON endpoint.
    pub url: String,
    /// The key naming each version (array of objects) or the nested version
    /// map (object).
    pub field: Option<String>,
    /// A prefix removed from every version.
    pub strip: Option<String>,
    /// A suffix removed from every version.
    pub suffix: Option<String>,
    /// Drop versions carrying a pre-release segment.
    pub stable_only: bool,
}

/// Asset map shape: platform triplet -> source name -> URL template.
pub type AssetMap = Table<Table<String>>;

/// Manifest metadata.
#[derive(Clone, Debug)]
pub struct Meta {
    /// Tool name, as the manifest writes it.
    pub name: String,
    /// Manifest's own version (SemVer).
    pub version: String,
    /// Source / update origin.
    pub url: Option<String>,
}

/// Install section.
#[derive(Clone, Debug)]
pub struct Install {
    /// Install method.
    pub method: InstallMethod,
    /// Platform triplet -> source name -> URL template (with `{version}`).
    pub assets: AssetMap,
    /// Optional components, keyed like `assets` below their name.
    pub components: Table<AssetMap>,
    /// The directory the app is placed in.
    pub base_dir: String,
    /// The PATH box.
    pub env_box: EnvBox,
    /// Default silent-install arguments for the `installer` method.
    pub args: Vec<String>,
    /// Per-platform override of method and silent arguments.
    pub strategy: Table<RawStrategy>,
    /// External install commands for the `command` method, by platform.
    pub commands: Table<Vec<RawCommand>>,
    /// Fallback install methods, tried in order after the primary one fails.
    pub fallback: Vec<InstallMethod>,
    /// Declared versions per source name.
    pub versions: Table<Vec<String>>,
    /// Remote version listings per source name.
    pub versions_source: Table<VersionsSource>,
}

/// A validated plugin manifest.
#[derive(Clone, Debug)]
pub struct Manifest {
    /// Metadata.
    pub meta: Meta,
    /// Install section.
    pub install: Install,
    /// Environment variables to configure (name -> template).
    pub env: Table<String>,
    /// Per-platform overrides of `env`, keyed by platform triplet.
    pub env_by_platform: Table<Table<String>>,
}

/// Manifest metadata as written.
#[derive(Clone, Debug)]
pub struct RawMeta {
    /// Tool name.
    pub name: Option<String>,
    /// Manifest's own version.
    pub version: Option<String>,
    /// Source / update origin.
    pub url: Option<String>,
}

/// Install section as written.
#[derive(Clone, Debug)]
pub struct RawInstall {
    /// Install method.
    pub method: InstallMethod,
    /// Asset map.
    pub asset: AssetMap,
    /// Optional components.
    pub component: Table<AssetMap>,
    /// The directory the app is placed in.
    pub base_dir: String,
    /// The PATH box (prepend when absent).
    pub env_box: Option<EnvBox>,
    /// Default silent-install arguments.
    pub args: Vec<String>,
    /// Per-platform override of method and silent arguments.
    pub strategy: Table<RawStrategy>,
    /// External install commands by platform.
    pub command: Table<Vec<RawCommand>>,
    /// Fallback install methods.
    pub fallback: Vec<InstallMethod>,
    /// Declared versions per source name.
    pub versions: Table<Vec<String>>,
    /// Remote version listings per source name.
    pub versions_source: Table<VersionsSource>,
}

/// A plugin manifest exactly as it appears in a file.
#[derive(Clone, Debug)]
pub struct RawManifest {
    /// Metadata.
    pub meta: RawMeta,
    /// Install section.
    pub install: RawInstall,
    /// Environment variables to configure (name -> template).
    pub env: Table<String>,
    /// Per-platform overrides of `env`.
    pub env_by_platform: Table<Table<String>>,
}

/// Whether a method downloads an asset.
pub open spec fn needs_assets(m: InstallMethod) -> bool {
    m is Download || m is Installer
}

/// The methods a raw install section may try: the primary one, then the
/// fallbacks.
pub open spec fn method_chain(raw: RawInstall) -> Seq<InstallMethod> {
    seq![raw.method] + raw.fallback@
}

/// Whether some method of the chain downloads an asset.
pub open spec fn chain_downloads(raw: RawInstall) -> bool {
    exists|i: int| 0 <= i < method_chain(raw).len() && needs_assets(#[trigger] method_chain(raw)[i])
}

/// Whether some method of the chain runs install commands.
pub open spec fn chain_commands(raw: RawInstall) -> bool {
    exists|i: int| 0 <= i < method_chain(raw).len() && (#[trigger] method_chain(raw)[i]) is Command
}

/// Whether `e` reports the missing field `field`.
pub open spec fn is_missing(e: Error, field: Seq<char>) -> bool {
    e matches Error::MissingField { field: f } && f@ == field
}

/// The first validation failure of a raw manifest, as the error it yields:
/// `None` when the manifest is valid.
pub open spec fn manifest_error(raw: RawManifest, e: Error) -> bool {
    if raw.meta.name is None {
        is_missing(e, "meta.name"@)
    } else if raw.meta.version is None {
        is_missing(e, "meta.version"@)
    } else if chain_downloads(raw.install) && raw.install.asset.items().len() == 0 {
        is_missing(e, "install.asset"@)
    } else {
        chain_commands(raw.install) && raw.install.command.items().len() == 0 && is_missing(
            e,
            "install.command"@,
        )
    }
}

/// Whether a raw manifest passes validation.
pub open spec fn manifest_valid(raw: RawManifest) -> bool {
    &&& raw.meta.name is Some
    &&& raw.meta.version is Some
    &&& chain_downloads(raw.install) ==> raw.install.asset.items().len() > 0
    &&& chain_commands(raw.install) ==> raw.install.command.items().len() > 0
}

fn missing(field: &str) -> (r: Error)
    ensures
        is_missing(r, field@),
{
    Error::MissingField { field: field.to_owned() }
}

/// Whether `m` is a method of the kind asked for: an asset download when
/// `want_assets`, a command run otherwise.
pub open spec fn is_kind(m: InstallMethod, want_assets: bool) -> bool {
    if want_assets {
        needs_assets(m)
    } else {
        m is Command
    }
}

fn method_is_kind(m: InstallMethod, want_assets: bool) -> (r: bool)
    ensures
        r == is_kind(m, want_assets),
{
    match m {
        InstallMethod::Download | InstallMethod::Installer => want_assets,
        InstallMethod::Command => !want_assets,
        InstallMethod::System => false,
    }
}

fn chain_has(method: InstallMethod, fallback: &Vec<InstallMethod>, want_assets: bool) -> (r: bool)
    ensures
        r == exists|i: int|
            0 <= i < (seq![method] + fallback@).len() && is_kind(
                #[trigger] (seq![method] + fallback@)[i],
                want_assets,
            ),
{
    let ghost all = seq![method] + fallback@;
    if method_is_kind(method, want_assets) {
        assert(all[0] == method);
        return true;
    }
    let mut i: usize = 0;
    while i < fallback.len()
        invariant
            i <= fallback@.len(),
            all == seq![method] + fallback@,
            !is_kind(method, want_assets),
            forall|k: int| 0 <= k < i ==> !is_kind(#[trigger] fallback@[k], want_assets),
        decreases fallback@.len() - i,
    {
        if method_is_kind(fallback[i], want_assets) {
            assert(all[i + 1] == fallback@[i as int]);
            return true;
        }
        i = i + 1;
    }
    assert forall|k: int| 0 <= k < all.len() implies !is_kind(#[trigger] all[k], want_assets) by {
        if k > 0 {
            assert(all[k] == fallback@[k - 1]);
        }
    }
    false
}

impl Manifest {
    /// Validate a manifest as written into the internal model.
    ///
    /// Requires `meta.name` and `meta.version` (the name is kept as written);
    /// a method chain that downloads needs `install.asset`, and one that runs
    /// commands needs `install.command`. An absent `env_box` means prepend.
    pub fn from_raw(raw: RawManifest) -> (r: Result<Manifest>)
        ensures
            r is Ok <==> manifest_valid(raw),
            r matches Err(e) ==> manifest_error(raw, e),
            r matches Ok(m) ==> {
                &&& raw.meta.name matches Some(n) && m.meta.name@ == n@
                &&& raw.meta.version == Some(m.meta.version)
                &&& m.meta.url == raw.meta.url
                &&& m.install.method == raw.install.method
                &&& m.install.assets == raw.install.asset
                &&& m.install.components == raw.install.component
                &&& m.install.base_dir == raw.install.base_dir
                &&& m.install.env_box == (match raw.install.env_box {
                    Some(b) => b,
                    None => EnvBox::Prepend,
                })
                &&& m.install.args == raw.install.args
                &&& m.install.strategy == raw.install.strategy
                &&& m.install.commands == raw.install.command
                &&& m.install.fallback == raw.install.fallback
                &&& m.install.versions == raw.install.versions
                &&& m.install.versions_source == raw.install.versions_source
                &&& m.env == raw.env
                &&& m.env_by_platform == raw.env_by_platform
            },
    {
        let RawManifest { meta, install, env, env_by_platform } = raw;
        let name = match meta.name {
            Some(n) => n,
            None => return Err(missing("meta.name")),
        };
        let version = match meta.version {
            Some(v) => v,
            None => return Err(missing("meta.version")),
        };
        if chain_has(install.method, &install.fallback, true) && install.asset.is_empty() {
            return Err(missing("install.asset"));
        }
        if chain_has(install.method, &install.fallback, false) && install.command.is_empty() {
            return Err(missing("install.command"));
        }
        let env_box = match install.env_box {
            Some(b) => b,
            None => EnvBox::Prepend,
        };
        Ok(Manifest {
            meta: Meta { name, version, url: meta.url },
            install: Install {
                method: install.method,
                assets: install.asset,
                components: install.component,
                base_dir: install.base_dir,
                env_box,
                args: install.args,
                strategy: install.strategy,
                commands: install.command,
                fallback: install.fallback,
                versions: install.versions,
                versions_source: install.versions_source,
            },
            env,
            env_by_platform,
        })
    }
}

/// The source name a request selects: the named one, or `default`.
pub open spec fn source_key(source: Option<&str>) -> Seq<char> {
    match source {
        Some(s) => s@,
        None => "default"@,
    }
}

pub fn source_name<'a>(source: Option<&'a str>) -> (r: &'a str)
    ensures
        r@ == source_key(source),
{
    match source {
        Some(s) => s,
        None => DEFAULT_SOURCE,
    }
}

impl Install {
    /// The method and silent arguments that apply on `target`: its strategy
    /// entry when one is declared, the install-level ones otherwise.
    pub fn method_for(&self, target: &Target) -> (r: (&InstallMethod, &Vec<String>))
        ensures
            match self.strategy.get_spec(target.triplet_spec()) {
                Some(s) => *r.0 == s.method && *r.1 == s.args,
                None => *r.0 == self.method && *r.1 == self.args,
            },
    {
        let key = target.triplet();
        match self.strategy.get(key.as_str()) {
            Some(s) => (&s.method, &s.args),
            None => (&self.method, &self.args),
        }
    }

    /// The versions the selected source declares (the `default` source when
    /// none is named); `None` when it declares none.
    pub fn versions_for(&self, source: Option<&str>) -> (r: Option<&Vec<String>>)
        ensures
            r matches Some(v) ==> self.versions.get_spec(source_key(source)) == Some(*v),
            r is None ==> self.versions.get_spec(source_key(source)) is None,
    {
        self.versions.get(source_name(source))
    }

    /// The newest version the selected source declares: `None` when it
    /// declares none, an error when a declared version is not SemVer.
    pub fn latest_for(&self, source: Option<&str>) -> (r: Option<Result<Version>>)
        ensures
            r is None <==> self.versions.get_spec(source_key(source)) is None,
            r matches Some(res) ==> self.versions.get_spec(source_key(source)) matches Some(list)
                && picks_latest(list@, res),
    {
        match self.versions_for(source) {
            Some(list) => Some(pick_latest(list.as_slice())),
            None => None,
        }
    }

    /// The remote version listing declared for the selected source.
    pub fn versions_source_for(&self, source: Option<&str>) -> (r: Option<&VersionsSource>)
        ensures
            r matches Some(v) ==> self.versions_source.get_spec(source_key(source)) == Some(*v),
            r is None ==> self.versions_source.get_spec(source_key(source)) is None,
    {
        self.versions_source.get(source_name(source))
    }
}

} // verus!
