//! Planning.
//!
//! Manifest + platform target + version + selection -> a lazy [`Plan`]. This
//! module touches no file, store or network, so it is unit-testable and
//! auditable; side effects are deferred to the execution layer. The one
//! input besides its arguments is the clock, which picks a fresh staging
//! directory for each plan.
//!
//! An archive download installs into `<root>/<base_dir>`; an installer or a
//! command run installs into `<root>/.wanted/apps/<base_dir>`, the directory
//! its arguments point at through `{base}`.

use vstd::prelude::*;

use crate::engine::expand::{expand_template, expand_url, expanded, expanded_url, resolve_template, resolved_value};
use crate::engine::ops::{
    expanded_all, invocation_of, pair_views, string_views, CommandInvocation, Op,
};
use crate::engine::staging::{clock_nanos, staging_path, Staging};
use crate::engine::url::{url_file_name, Url};
use crate::env::{EnvDelta, EnvOp, EnvVar};
use crate::error::{Error, Result};
use crate::plugin::{source_key, source_name, AssetMap, EnvBox, Install, InstallMethod, Manifest, RawCommand, Target};
use crate::path::{join, joined};
use crate::table::Table;
use crate::text::{chars_of, push_all, str_eq, string_of};
use crate::version::{version_view, Version};

verus! {

/// What an install selects beyond the version: the asset source (the
/// `default` source when `None`) and the optional components to add.
#[derive(Clone, Copy, Debug)]
pub struct Selection<'a> {
    /// The asset source name.
    pub source: Option<&'a str>,
    /// The components to download on top of the base asset.
    pub components: &'a [String],
}

impl<'a> Default for Selection<'a> {
    fn default() -> (r: Selection<'a>)
        ensures
            r.source is None,
            r.components@.len() == 0,
    {
        Selection { source: None, components: &[] }
    }
}

/// A complete install plan (two phases: staged ops + commit ops).
#[derive(Clone, Debug)]
pub struct Plan {
    /// The install method this plan carries out.
    pub method: InstallMethod,
    /// Tool name.
    pub name: String,
    /// Version to install.
    pub version: Version,
    /// Staging directory.
    pub staging_dir: String,
    /// File the asset is downloaded to.
    pub download_to: String,
    /// The app root the staged ops produce (moved to `dest_dir` unless it is
    /// already there).
    pub app_dir: String,
    /// Final home directory.
    pub dest_dir: String,
    /// Staging-phase operations.
    pub staged_ops: Vec<Op>,
    /// Commit-phase operations (environment writes), backed by compensations.
    pub commit_ops: Vec<Op>,
}

/// An operation as plain values.
pub ghost enum OpView {
    Download { url: Seq<char>, to: Seq<char> },
    Unpack { from: Seq<char>, to: Seq<char> },
    RunInstaller { exe: Seq<char>, args: Seq<Seq<char>>, base: Seq<char> },
    WriteEnv { deltas: Seq<(Seq<char>, Seq<char>, EnvOp)> },
    RunCommand { commands: Seq<CommandInvocation>, base: Seq<char> },
}

/// A delta as plain values.
pub open spec fn delta_view(d: EnvDelta) -> (Seq<char>, Seq<char>, EnvOp) {
    (d.name@, d.value@, d.op)
}

/// The plain values of deltas.
pub open spec fn delta_views(ds: Seq<EnvDelta>) -> Seq<(Seq<char>, Seq<char>, EnvOp)> {
    ds.map_values(|d: EnvDelta| delta_view(d))
}

/// An operation as plain values.
pub open spec fn op_view(op: Op) -> OpView {
    match op {
        Op::Download { url, to } => OpView::Download { url: url@, to: to@ },
        Op::Unpack { from, to } => OpView::Unpack { from: from@, to: to@ },
        Op::RunInstaller { exe, args, base } => OpView::RunInstaller {
            exe: exe@,
            args: string_views(args@),
            base: base@,
        },
        Op::WriteEnv { deltas } => OpView::WriteEnv { deltas: delta_views(deltas@) },
        Op::RunCommand { commands, base } => OpView::RunCommand { commands: commands@, base: base@ },
    }
}

/// The plain values of operations.
pub open spec fn op_views(ops: Seq<Op>) -> Seq<OpView> {
    ops.map_values(|o: Op| op_view(o))
}

/// The deltas the environment writes of `ops` carry, in order.
pub open spec fn ops_deltas(ops: Seq<Op>) -> Seq<EnvDelta>
    decreases ops.len(),
{
    if ops.len() == 0 {
        Seq::empty()
    } else {
        ops_deltas(ops.drop_last()) + match ops.last() {
            Op::WriteEnv { deltas } => deltas@,
            _ => Seq::empty(),
        }
    }
}

fn copy_deltas(ds: &Vec<EnvDelta>, out: &mut Vec<EnvDelta>)
    ensures
        delta_views(final(out)@) == delta_views(old(out)@) + delta_views(ds@),
{
    let mut i: usize = 0;
    while i < ds.len()
        invariant
            i <= ds@.len(),
            delta_views(out@) == delta_views(old(out)@) + delta_views(ds@.take(i as int)),
        decreases ds@.len() - i,
    {
        let ghost prev = delta_views(out@);
        out.push(ds[i].duplicate());
        proof {
            assert(delta_views(out@) =~= prev.push(delta_view(ds@[i as int])));
            assert(delta_views(ds@.take(i + 1)) =~= delta_views(ds@.take(i as int)).push(
                delta_view(ds@[i as int]),
            ));
        }
        i = i + 1;
    }
    assert(ds@.take(ds@.len() as int) =~= ds@);
}

impl Plan {
    /// Environment deltas the commit phase will write, so the installer can
    /// snapshot old values and build a receipt.
    pub fn env_deltas(&self) -> (r: Vec<EnvDelta>)
        ensures
            delta_views(r@) == delta_views(ops_deltas(self.commit_ops@)),
    {
        let mut deltas: Vec<EnvDelta> = Vec::new();
        let mut i: usize = 0;
        while i < self.commit_ops.len()
            invariant
                i <= self.commit_ops@.len(),
                delta_views(deltas@) == delta_views(ops_deltas(self.commit_ops@.take(i as int))),
            decreases self.commit_ops@.len() - i,
        {
            proof {
                let t = self.commit_ops@.take(i + 1);
                assert(t.drop_last() =~= self.commit_ops@.take(i as int));
                assert(t.last() == self.commit_ops@[i as int]);
            }
            match &self.commit_ops[i] {
                Op::WriteEnv { deltas: d } => {
                    copy_deltas(d, &mut deltas);
                    proof {
                        let t = self.commit_ops@.take(i + 1);
                        assert(delta_views(ops_deltas(t)) =~= delta_views(
                            ops_deltas(self.commit_ops@.take(i as int)),
                        ) + delta_views(d@));
                    }
                },
                _ => {
                    proof {
                        let t = self.commit_ops@.take(i + 1);
                        assert(ops_deltas(t) =~= ops_deltas(self.commit_ops@.take(i as int)));
                    }
                },
            }
            i = i + 1;
        }
        assert(self.commit_ops@.take(self.commit_ops@.len() as int) =~= self.commit_ops@);
        deltas
    }
}

// ---------------------------------------------------------------------------
// Lookups
// ---------------------------------------------------------------------------

/// The URL template an asset map holds for a platform and source.
pub open spec fn template_of(assets: AssetMap, t: Seq<char>, key: Seq<char>) -> Option<String> {
    match assets.get_spec(t) {
        Some(srcs) => srcs.get_spec(key),
        None => None,
    }
}

/// The error for a missing asset template: the platform when it has no
/// entry, the source otherwise.
pub open spec fn lookup_error(assets: AssetMap, t: Seq<char>, key: Seq<char>, e: Error) -> bool {
    match assets.get_spec(t) {
        None => e matches Error::UnsupportedPlatform { target } && target@ == t,
        Some(_) => e matches Error::SourceNotFound { target, name } && target@ == t && name@ == key,
    }
}

fn asset_template(assets: &AssetMap, triplet: &str, key: &str) -> (r: Result<String>)
    ensures
        r is Ok <==> template_of(*assets, triplet@, key@) is Some,
        r matches Ok(s) ==> template_of(*assets, triplet@, key@) matches Some(x) && s@ == x@,
        r matches Err(e) ==> lookup_error(*assets, triplet@, key@, e),
{
    match assets.get(triplet) {
        None => Err(Error::UnsupportedPlatform { target: triplet.to_owned() }),
        Some(srcs) => match srcs.get(key) {
            Some(t) => Ok(t.clone()),
            None => Err(Error::SourceNotFound { target: triplet.to_owned(), name: key.to_owned() }),
        },
    }
}

/// The names with repeats dropped, first occurrences kept in order.
pub open spec fn dedup(names: Seq<Seq<char>>) -> Seq<Seq<char>>
    decreases names.len(),
{
    if names.len() == 0 {
        Seq::empty()
    } else {
        let d = dedup(names.drop_last());
        if d.contains(names.last()) {
            d
        } else {
            d.push(names.last())
        }
    }
}

fn contains_name(v: &Vec<String>, name: &str) -> (r: bool)
    ensures
        r == string_views(v@).contains(name@),
{
    let mut i: usize = 0;
    while i < v.len()
        invariant
            i <= v@.len(),
            forall|k: int| 0 <= k < i ==> v@[k]@ != name@,
        decreases v@.len() - i,
    {
        if str_eq(v[i].as_str(), name) {
            assert(string_views(v@)[i as int] == name@);
            return true;
        }
        i = i + 1;
    }
    assert forall|k: int| 0 <= k < string_views(v@).len() implies string_views(v@)[k] != name@ by {}
    false
}

fn dedup_names(names: &[String]) -> (r: Vec<String>)
    ensures
        string_views(r@) == dedup(string_views(names@)),
{
    let mut out: Vec<String> = Vec::new();
    let mut i: usize = 0;
    while i < names.len()
        invariant
            i <= names@.len(),
            string_views(out@) == dedup(string_views(names@).take(i as int)),
        decreases names@.len() - i,
    {
        proof {
            let t = string_views(names@).take(i + 1);
            assert(t.drop_last() =~= string_views(names@).take(i as int));
            assert(t.last() == names@[i as int]@);
        }
        if !contains_name(&out, names[i].as_str()) {
            let ghost prev = string_views(out@);
            out.push(names[i].clone());
            assert(string_views(out@) =~= prev.push(names@[i as int]@));
        }
        i = i + 1;
    }
    assert(string_views(names@).take(names@.len() as int) =~= string_views(names@));
    out
}

/// Whether a requested component can be downloaded for the platform and
/// source.
pub open spec fn component_ok(comps: Table<AssetMap>, c: Seq<char>, t: Seq<char>, key: Seq<char>) -> bool {
    comps.get_spec(c) matches Some(a) && template_of(a, t, key) is Some
}

/// The error for a component that cannot be downloaded: an undeclared
/// component, or its missing platform or source.
pub open spec fn component_error(
    comps: Table<AssetMap>,
    c: Seq<char>,
    t: Seq<char>,
    key: Seq<char>,
    e: Error,
) -> bool {
    match comps.get_spec(c) {
        None => e matches Error::Other(m) && m@ == "no component '"@ + c + "' declared"@,
        Some(a) => lookup_error(a, t, key, e),
    }
}

/// The download and extraction of each component, in order: component `c`
/// is fetched into `downloads/c/` and extracted into `app/c`.
pub open spec fn component_views(
    comps: Table<AssetMap>,
    names: Seq<Seq<char>>,
    t: Seq<char>,
    key: Seq<char>,
    v: Version,
    downloads: Seq<char>,
    app: Seq<char>,
) -> Seq<OpView>
    decreases names.len(),
{
    if names.len() == 0 {
        Seq::empty()
    } else {
        let c = names.last();
        let url = expanded_url(template_of(comps.get_spec(c)->0, t, key)->0@, v);
        let to = joined(joined(downloads, c), url_file_name(url));
        component_views(comps, names.drop_last(), t, key, v, downloads, app) + seq![
            OpView::Download { url, to },
            OpView::Unpack { from: to, to: joined(app, c) },
        ]
    }
}

fn component_ops(
    comps: &Table<AssetMap>,
    names: &Vec<String>,
    triplet: &str,
    key: &str,
    version: &Version,
    downloads: &str,
    app: &str,
    staged: &mut Vec<Op>,
) -> (r: Result<()>)
    ensures
        r is Ok <==> forall|i: int|
            0 <= i < names@.len() ==> component_ok(*comps, #[trigger] names@[i]@, triplet@, key@),
        r matches Err(e) ==> exists|i: int|
            0 <= i < names@.len() && !component_ok(*comps, #[trigger] names@[i]@, triplet@, key@)
                && component_error(*comps, names@[i]@, triplet@, key@, e),
        r is Ok ==> op_views(final(staged)@) == op_views(old(staged)@) + component_views(
            *comps,
            string_views(names@),
            triplet@,
            key@,
            *version,
            downloads@,
            app@,
        ),
{
    let mut i: usize = 0;
    while i < names.len()
        invariant
            i <= names@.len(),
            forall|k: int| 0 <= k < i ==> component_ok(*comps, #[trigger] names@[k]@, triplet@, key@),
            op_views(staged@) == op_views(old(staged)@) + component_views(
                *comps,
                string_views(names@).take(i as int),
                triplet@,
                key@,
                *version,
                downloads@,
                app@,
            ),
        decreases names@.len() - i,
    {
        let name = names[i].as_str();
        let assets = match comps.get(name) {
            Some(a) => a,
            None => {
                let mut m = chars_of("no component '");
                let n = chars_of(name);
                push_all(&mut m, n.as_slice());
                let tail = chars_of("' declared");
                push_all(&mut m, tail.as_slice());
                return Err(Error::Other(string_of(m.as_slice())));
            },
        };
        let template = match asset_template(assets, triplet, key) {
            Ok(t) => t,
            Err(e) => {
                return Err(e);
            },
        };
        let url = Url::new(expand_url(template.as_str(), version));
        let file = url.file_name();
        let dir = join(downloads, name);
        let to = join(dir.as_str(), file.as_str());
        let unpack_to = join(app, name);
        let ghost prev = op_views(staged@);
        staged.push(Op::Download { url, to: to.clone() });
        staged.push(Op::Unpack { from: to, to: unpack_to });
        proof {
            let t = string_views(names@).take(i + 1);
            assert(t.drop_last() =~= string_views(names@).take(i as int));
            assert(t.last() == names@[i as int]@);
            assert(op_views(staged@) =~= prev + seq![
                op_view(staged@[staged@.len() - 2]),
                op_view(staged@[staged@.len() - 1]),
            ]);
        }
        i = i + 1;
    }
    assert(string_views(names@).take(names@.len() as int) =~= string_views(names@));
    Ok(())
}

// ---------------------------------------------------------------------------
// Environment
// ---------------------------------------------------------------------------

/// The environment entries in effect on a platform: each `env` entry with its
/// platform override applied, then the platform's own extra entries.
pub open spec fn env_entries(m: Manifest, t: Seq<char>) -> Seq<(Seq<char>, Seq<char>)> {
    let over = m.env_by_platform.get_spec(t);
    overridden(m.env.items(), over) + match over {
        Some(o) => extras(o.items(), m.env),
        None => Seq::empty(),
    }
}

/// Entries with values replaced by an override table's.
pub open spec fn overridden(items: Seq<(String, String)>, over: Option<Table<String>>) -> Seq<
    (Seq<char>, Seq<char>),
> {
    items.map_values(
        |e: (String, String)|
            (e.0@, match over {
                Some(o) => match o.get_spec(e.0@) {
                    Some(x) => x@,
                    None => e.1@,
                },
                None => e.1@,
            }),
    )
}

/// The entries whose names the base table lacks.
pub open spec fn extras(items: Seq<(String, String)>, base: Table<String>) -> Seq<
    (Seq<char>, Seq<char>),
>
    decreases items.len(),
{
    if items.len() == 0 {
        Seq::empty()
    } else {
        let rest = extras(items.drop_last(), base);
        if base.get_spec(items.last().0@) is Some {
            rest
        } else {
            rest.push((items.last().0@, items.last().1@))
        }
    }
}

/// How a variable is merged: PATH by the PATH box, anything else assigned.
pub open spec fn op_for(name: Seq<char>, b: EnvBox) -> EnvOp {
    if name == "PATH"@ {
        match b {
            EnvBox::Prepend => EnvOp::Prepend,
            EnvBox::Append => EnvOp::Append,
        }
    } else {
        EnvOp::Assign
    }
}

/// The deltas for environment entries, resolved against `base`.
pub open spec fn deltas_for(
    entries: Seq<(Seq<char>, Seq<char>)>,
    b: EnvBox,
    base: Seq<char>,
    v: Version,
    home: Seq<char>,
) -> Seq<(Seq<char>, Seq<char>, EnvOp)> {
    entries.map_values(
        |e: (Seq<char>, Seq<char>)| (e.0, resolved_value(e.1, base, v, home), op_for(e.0, b)),
    )
}

fn delta_for(name: &str, template: &str, b: EnvBox, base: &str, version: &Version, home: &str) -> (r:
    EnvDelta)
    ensures
        delta_view(r) == (name@, resolved_value(template@, base@, *version, home@), op_for(name@, b)),
{
    let op = if str_eq(name, "PATH") {
        match b {
            EnvBox::Prepend => EnvOp::Prepend,
            EnvBox::Append => EnvOp::Append,
        }
    } else {
        EnvOp::Assign
    };
    EnvDelta {
        name: EnvVar::new(name),
        value: resolve_template(template, base, version, home),
        op,
    }
}

impl Manifest {
    /// The environment deltas for platform `triplet`, with relative values
    /// resolved under `base`.
    fn plan_deltas(&self, triplet: &str, base: &str, version: &Version, home: &str) -> (r: Vec<
        EnvDelta,
    >)
        ensures
            delta_views(r@) == deltas_for(
                env_entries(*self, triplet@),
                self.install.env_box,
                base@,
                *version,
                home@,
            ),
    {
        let over = self.env_by_platform.get(triplet);
        let ghost over_spec = self.env_by_platform.get_spec(triplet@);
        let items = self.env.entries();
        let b = self.install.env_box;
        let mut out: Vec<EnvDelta> = Vec::new();
        let mut i: usize = 0;
        while i < items.len()
            invariant
                i <= items@.len(),
                items@ == self.env.items(),
                over_spec == self.env_by_platform.get_spec(triplet@),
                over matches Some(o) ==> over_spec == Some(*o),
                over is None ==> over_spec is None,
                b == self.install.env_box,
                delta_views(out@) == deltas_for(
                    overridden(items@.take(i as int), over_spec),
                    b,
                    base@,
                    *version,
                    home@,
                ),
            decreases items@.len() - i,
        {
            let name = items[i].0.as_str();
            let template = match over {
                Some(o) => match o.get(name) {
                    Some(x) => x.as_str(),
                    None => items[i].1.as_str(),
                },
                None => items[i].1.as_str(),
            };
            let ghost prev = delta_views(out@);
            let d = delta_for(name, template, b, base, version, home);
            out.push(d);
            proof {
                assert(delta_views(out@) =~= prev.push(delta_view(d)));
                let t = overridden(items@.take(i + 1), over_spec);
                assert(t =~= overridden(items@.take(i as int), over_spec).push(
                    overridden(items@, over_spec)[i as int],
                ));
                assert(deltas_for(t, b, base@, *version, home@) =~= deltas_for(
                    overridden(items@.take(i as int), over_spec),
                    b,
                    base@,
                    *version,
                    home@,
                ).push(delta_view(d)));
            }
            i = i + 1;
        }
        assert(items@.take(items@.len() as int) =~= items@);
        match over {
            None => {
                assert(env_entries(*self, triplet@) =~= overridden(items@, over_spec));
            },
            Some(o) => {
                let extra = o.entries();
                let ghost head = delta_views(out@);
                let mut j: usize = 0;
                while j < extra.len()
                    invariant
                        j <= extra@.len(),
                        extra@ == o.items(),
                        b == self.install.env_box,
                        delta_views(out@) == head + deltas_for(
                            extras(extra@.take(j as int), self.env),
                            b,
                            base@,
                            *version,
                            home@,
                        ),
                    decreases extra@.len() - j,
                {
                    proof {
                        let t = extra@.take(j + 1);
                        assert(t.drop_last() =~= extra@.take(j as int));
                        assert(t.last() == extra@[j as int]);
                    }
                    if !self.env.contains_key(extra[j].0.as_str()) {
                        let ghost prev = delta_views(out@);
                        let d = delta_for(
                            extra[j].0.as_str(),
                            extra[j].1.as_str(),
                            b,
                            base,
                            version,
                            home,
                        );
                        out.push(d);
                        proof {
                            assert(delta_views(out@) =~= prev.push(delta_view(d)));
                            assert(deltas_for(
                                extras(extra@.take(j + 1), self.env),
                                b,
                                base@,
                                *version,
                                home@,
                            ) =~= deltas_for(
                                extras(extra@.take(j as int), self.env),
                                b,
                                base@,
                                *version,
                                home@,
                            ).push(delta_view(d)));
                        }
                    }
                    j = j + 1;
                }
                assert(extra@.take(extra@.len() as int) =~= extra@);
                assert(deltas_for(env_entries(*self, triplet@), b, base@, *version, home@) =~= head
                    + deltas_for(extras(extra@, self.env), b, base@, *version, home@));
            },
        }
        out
    }
}


// ---------------------------------------------------------------------------
// Planning
// ---------------------------------------------------------------------------

/// The method that applies on platform `t`: its strategy entry's, or the
/// install-level one.
pub open spec fn chosen_method(i: Install, t: Seq<char>) -> InstallMethod {
    match i.strategy.get_spec(t) {
        Some(s) => s.method,
        None => i.method,
    }
}

/// The silent arguments that apply on platform `t`.
pub open spec fn chosen_args(i: Install, t: Seq<char>) -> Seq<String> {
    match i.strategy.get_spec(t) {
        Some(s) => s.args@,
        None => i.args@,
    }
}

/// The record directory under the project root.
pub open spec fn store_dir(root: Seq<char>) -> Seq<char> {
    joined(root, ".wanted"@)
}

/// Where an install of `method` places the app: an archive download right
/// under the project root, an installer or command run under `.wanted/apps`.
pub open spec fn dest_for(method: InstallMethod, root: Seq<char>, base_dir: Seq<char>) -> Seq<char> {
    if method is Download {
        joined(root, base_dir)
    } else {
        joined(joined(store_dir(root), "apps"@), base_dir)
    }
}

/// The message for components requested of a method that cannot add them.
pub open spec fn components_unsupported(e: Error) -> bool {
    e matches Error::Unsupported(m) && m@ == "components are only supported for the 'download' method"@
}

/// Whether the invocations are the expansions of the raw commands.
pub open spec fn invocations_of(
    raws: Seq<RawCommand>,
    base: Seq<char>,
    v: Version,
    home: Seq<char>,
    cmds: Seq<CommandInvocation>,
) -> bool {
    cmds.len() == raws.len() && forall|i: int|
        0 <= i < raws.len() ==> invocation_of(raws[i], base, v, home, #[trigger] cmds[i])
}

/// The staged operations of a successful plan.
pub open spec fn staged_spec(
    m: Manifest,
    method: InstallMethod,
    args: Seq<String>,
    t: Seq<char>,
    key: Seq<char>,
    v: Version,
    sel: Selection,
    home: Seq<char>,
    p: Plan,
) -> bool {
    let downloads = joined(p.staging_dir@, "downloads"@);
    let dest = p.dest_dir@;
    match method {
        InstallMethod::Download => {
            let url = expanded_url(template_of(m.install.assets, t, key)->0@, v);
            &&& p.download_to@ == joined(downloads, url_file_name(url))
            &&& p.app_dir@ == joined(p.staging_dir@, "app"@)
            &&& op_views(p.staged_ops@) == seq![
                OpView::Download { url, to: p.download_to@ },
                OpView::Unpack { from: p.download_to@, to: p.app_dir@ },
            ] + component_views(
                m.install.components,
                dedup(string_views(sel.components@)),
                t,
                key,
                v,
                downloads,
                p.app_dir@,
            )
        },
        InstallMethod::Installer => {
            let url = expanded_url(template_of(m.install.assets, t, key)->0@, v);
            &&& p.download_to@ == joined(downloads, url_file_name(url))
            &&& p.app_dir@ == dest
            &&& op_views(p.staged_ops@) == seq![
                OpView::Download { url, to: p.download_to@ },
                OpView::RunInstaller {
                    exe: p.download_to@,
                    args: expanded_all(args, dest, v, home),
                    base: dest,
                },
            ]
        },
        _ => {
            &&& p.download_to@ == downloads
            &&& p.app_dir@ == dest
            &&& p.staged_ops@.len() == 1
            &&& p.staged_ops@[0] matches Op::RunCommand { commands, base } && base@ == dest
                && invocations_of(m.install.commands.get_spec(t)->0@, dest, v, home, commands@)
        },
    }
}

/// Whether a plan can be made for `method` on platform `t`.
pub open spec fn can_plan(m: Manifest, method: InstallMethod, t: Seq<char>, sel: Selection) -> bool {
    let key = source_key(sel.source);
    let comps = dedup(string_views(sel.components@));
    match method {
        InstallMethod::Download => template_of(m.install.assets, t, key) is Some && forall|i: int|
            0 <= i < comps.len() ==> component_ok(m.install.components, #[trigger] comps[i], t, key),
        InstallMethod::Installer => sel.components@.len() == 0 && template_of(
            m.install.assets,
            t,
            key,
        ) is Some,
        InstallMethod::Command => sel.components@.len() == 0 && m.install.commands.get_spec(
            t,
        ) is Some,
        InstallMethod::System => false,
    }
}

/// Which lookup failed when no plan can be made for `method`.
pub open spec fn plan_error(m: Manifest, method: InstallMethod, t: Seq<char>, sel: Selection, e: Error) -> bool {
    let key = source_key(sel.source);
    let comps = dedup(string_views(sel.components@));
    match method {
        InstallMethod::System => e is Unsupported,
        InstallMethod::Download => if template_of(m.install.assets, t, key) is None {
            lookup_error(m.install.assets, t, key, e)
        } else {
            exists|i: int|
                0 <= i < comps.len() && !component_ok(m.install.components, #[trigger] comps[i], t, key)
                    && component_error(m.install.components, comps[i], t, key, e)
        },
        InstallMethod::Installer => if sel.components@.len() > 0 {
            components_unsupported(e)
        } else {
            lookup_error(m.install.assets, t, key, e)
        },
        InstallMethod::Command => if sel.components@.len() > 0 {
            components_unsupported(e)
        } else {
            e matches Error::UnsupportedPlatform { target } && target@ == t
        },
    }
}

/// Whether `p` is the plan for `method` with silent arguments `args`, under
/// some staging nonce.
pub open spec fn plan_for(
    m: Manifest,
    method: InstallMethod,
    args: Seq<String>,
    root: Seq<char>,
    t: Seq<char>,
    v: Version,
    sel: Selection,
    home: Seq<char>,
    p: Plan,
) -> bool {
    exists|n: u128| #[trigger] plan_for_at(m, method, args, root, t, v, sel, home, n as nat, p)
}

/// Whether `p` is the plan for `method` with silent arguments `args` whose
/// staging directory carries nonce `n`.
pub open spec fn plan_for_at(
    m: Manifest,
    method: InstallMethod,
    args: Seq<String>,
    root: Seq<char>,
    t: Seq<char>,
    v: Version,
    sel: Selection,
    home: Seq<char>,
    n: nat,
    p: Plan,
) -> bool {
    &&& p.method == method
    &&& p.name@ == m.meta.name@
    &&& version_view(p.version) == version_view(v)
    &&& p.staging_dir@ == staging_path(store_dir(root), m.meta.name@, n)
    &&& p.dest_dir@ == dest_for(method, root, m.install.base_dir@)
    &&& staged_spec(m, method, args, t, source_key(sel.source), v, sel, home, p)
    &&& op_views(p.commit_ops@) == seq![
        OpView::WriteEnv {
            deltas: deltas_for(env_entries(m, t), m.install.env_box, p.dest_dir@, v, home),
        },
    ]
}

/// What planning `method` yields: the plan on success, and which lookup
/// failed on error.
pub open spec fn method_outcome(
    m: Manifest,
    method: InstallMethod,
    args: Seq<String>,
    root: Seq<char>,
    t: Seq<char>,
    v: Version,
    sel: Selection,
    home: Seq<char>,
    r: Result<Plan>,
) -> bool {
    &&& r is Ok <==> can_plan(m, method, t, sel)
    &&& r matches Err(e) ==> plan_error(m, method, t, sel, e)
    &&& r matches Ok(p) ==> plan_for(m, method, args, root, t, v, sel, home, p)
}

/// What planning `method` with staging nonce `n` yields.
pub open spec fn method_outcome_at(
    m: Manifest,
    method: InstallMethod,
    args: Seq<String>,
    root: Seq<char>,
    t: Seq<char>,
    v: Version,
    sel: Selection,
    home: Seq<char>,
    n: nat,
    r: Result<Plan>,
) -> bool {
    &&& r is Ok <==> can_plan(m, method, t, sel)
    &&& r matches Err(e) ==> plan_error(m, method, t, sel, e)
    &&& r matches Ok(p) ==> plan_for_at(m, method, args, root, t, v, sel, home, n, p)
}

/// What planning yields for the method that applies on the platform.
pub open spec fn plan_outcome(
    m: Manifest,
    root: Seq<char>,
    t: Seq<char>,
    v: Version,
    sel: Selection,
    home: Seq<char>,
    r: Result<Plan>,
) -> bool {
    method_outcome(m, chosen_method(m.install, t), chosen_args(m.install, t), root, t, v, sel, home, r)
}

/// Two operations that do the same: equal plain values, or two command runs
/// under the same base whose invocations name the same tools with the same
/// arguments and variables.
pub open spec fn same_op(a: Op, b: Op) -> bool {
    ||| op_view(a) == op_view(b)
    ||| (a matches Op::RunCommand { commands: ca, base: ba } && b matches Op::RunCommand {
        commands: cb,
        base: bb,
    } && ba@ == bb@ && ca@.len() == cb@.len() && forall|j: int|
        0 <= j < ca@.len() ==> (#[trigger] ca@[j]).tool@ == cb@[j].tool@ && string_views(
            ca@[j].args@,
        ) == string_views(cb@[j].args@) && pair_views(ca@[j].env@) == pair_views(cb@[j].env@))
}

/// Planning is a function of its arguments and the staging nonce: two plans
/// for the same manifest, method, root, platform, version, selection, home
/// and nonce agree in every value the install acts on.
pub proof fn law_plan_determined(
    m: Manifest,
    method: InstallMethod,
    args: Seq<String>,
    root: Seq<char>,
    t: Seq<char>,
    v: Version,
    sel: Selection,
    home: Seq<char>,
    n: nat,
    p: Plan,
    q: Plan,
)
    requires
        plan_for_at(m, method, args, root, t, v, sel, home, n, p),
        plan_for_at(m, method, args, root, t, v, sel, home, n, q),
    ensures
        p.staging_dir@ == q.staging_dir@,
        p.method == q.method,
        p.name@ == q.name@,
        version_view(p.version) == version_view(q.version),
        p.download_to@ == q.download_to@,
        p.app_dir@ == q.app_dir@,
        p.dest_dir@ == q.dest_dir@,
        op_views(p.commit_ops@) == op_views(q.commit_ops@),
        p.staged_ops@.len() == q.staged_ops@.len(),
        forall|i: int|
            0 <= i < p.staged_ops@.len() ==> same_op(#[trigger] p.staged_ops@[i], q.staged_ops@[i]),
{
    match method {
        InstallMethod::Download | InstallMethod::Installer => {
            assert(op_views(p.staged_ops@) == op_views(q.staged_ops@));
            assert forall|i: int| 0 <= i < p.staged_ops@.len() implies same_op(
                #[trigger] p.staged_ops@[i],
                q.staged_ops@[i],
            ) by {
                assert(op_views(p.staged_ops@)[i] == op_views(q.staged_ops@)[i]);
            }
        },
        _ => {
            let raws = m.install.commands.get_spec(t)->0@;
            let dest = p.dest_dir@;
            if let Op::RunCommand { commands: ca, base: ba } = p.staged_ops@[0] {
                if let Op::RunCommand { commands: cb, base: bb } = q.staged_ops@[0] {
                    assert forall|j: int| 0 <= j < ca@.len() implies (#[trigger] ca@[j]).tool@
                        == cb@[j].tool@ && string_views(ca@[j].args@) == string_views(
                        cb@[j].args@,
                    ) && pair_views(ca@[j].env@) == pair_views(cb@[j].env@) by {
                        assert(invocation_of(raws[j], dest, v, home, ca@[j]));
                        assert(invocation_of(raws[j], dest, v, home, cb@[j]));
                    }
                    assert(same_op(p.staged_ops@[0], q.staged_ops@[0]));
                }
            }
        },
    }
}

fn unsupported_components() -> (r: Error)
    ensures
        components_unsupported(r),
{
    Error::Unsupported("components are only supported for the 'download' method".to_owned())
}

impl Manifest {
    /// Build an install plan for a platform, version and selection (no I/O;
    /// `home` is what `{user}` stands for, and the staging directory carries a
    /// clock-derived nonce; with the nonce fixed, [`Manifest::plan_method_at`]
    /// builds the same plan from the arguments alone).
    ///
    /// The method is the platform's strategy method or the install-level one.
    /// A download fetches the selected source's asset and extracts it, then
    /// each requested component; an installer fetches the asset and runs it
    /// with its expanded arguments; a command run tries the platform's
    /// commands. The commit phase writes the environment entries in effect
    /// on the platform, resolved under the destination.
    pub fn plan(
        &self,
        root: &str,
        target: &Target,
        version: &Version,
        selection: &Selection,
        home: &str,
    ) -> (r: Result<Plan>)
        ensures
            plan_outcome(*self, root@, target.triplet_spec(), *version, *selection, home@, r),
    {
        let (method, args) = self.install.method_for(target);
        self.plan_method(*method, args, root, target, version, selection, home)
    }

    /// Build the plan for one install method, its staging directory named
    /// with a nonce read from the clock.
    pub fn plan_method(
        &self,
        method: InstallMethod,
        args: &Vec<String>,
        root: &str,
        target: &Target,
        version: &Version,
        selection: &Selection,
        home: &str,
    ) -> (r: Result<Plan>)
        ensures
            method_outcome(
                *self,
                method,
                args@,
                root@,
                target.triplet_spec(),
                *version,
                *selection,
                home@,
                r,
            ),
    {
        let nonce = clock_nanos();
        let r = self.plan_method_at(method, args, root, target, version, selection, home, nonce);
        proof {
            if r is Ok {
                let p = r->Ok_0;
                assert(plan_for_at(
                    *self,
                    method,
                    args@,
                    root@,
                    target.triplet_spec(),
                    *version,
                    *selection,
                    home@,
                    nonce as nat,
                    p,
                ));
            }
        }
        r
    }

    /// Build the plan for one install method whose staging directory carries
    /// `nonce`: a function of its arguments alone.
    pub fn plan_method_at(
        &self,
        method: InstallMethod,
        args: &Vec<String>,
        root: &str,
        target: &Target,
        version: &Version,
        selection: &Selection,
        home: &str,
        nonce: u128,
    ) -> (r: Result<Plan>)
        ensures
            method_outcome_at(
                *self,
                method,
                args@,
                root@,
                target.triplet_spec(),
                *version,
                *selection,
                home@,
                nonce as nat,
                r,
            ),
    {
        let triplet = target.triplet();
        let key = source_name(selection.source);
        let store = join(root, ".wanted");
        let staging = Staging::at(store.as_str(), self.meta.name.as_str(), nonce);
        let staging_dir = staging.dir().to_owned();
        proof {
            assert(staging_dir@ == staging_path(store_dir(root@), self.meta.name@, nonce as nat));
        }
        let downloads = join(staging_dir.as_str(), "downloads");
        let ghost t = triplet@;
        let ghost comps = dedup(string_views(selection.components@));
        match method {
            InstallMethod::System => {
                return Err(Error::Unsupported("install method 'system' not yet wired".to_owned()));
            },
            InstallMethod::Download => {
                let template = asset_template(&self.install.assets, triplet.as_str(), key)?;
                let url = Url::new(expand_url(template.as_str(), version));
                let file = url.file_name();
                let download_to = join(downloads.as_str(), file.as_str());
                let app_dir = join(staging_dir.as_str(), "app");
                let dest_dir = join(root, self.install.base_dir.as_str());
                let ghost url_v = url@;
                let mut staged: Vec<Op> = Vec::new();
                staged.push(Op::Download { url, to: download_to.clone() });
                staged.push(Op::Unpack { from: download_to.clone(), to: app_dir.clone() });
                let names = dedup_names(selection.components);
                let ghost head = op_views(staged@);
                assert(head =~= seq![
                    OpView::Download { url: url_v, to: download_to@ },
                    OpView::Unpack { from: download_to@, to: app_dir@ },
                ]);
                match component_ops(
                    &self.install.components,
                    &names,
                    triplet.as_str(),
                    key,
                    version,
                    downloads.as_str(),
                    app_dir.as_str(),
                    &mut staged,
                ) {
                    Ok(()) => {
                        assert forall|i: int| 0 <= i < comps.len() implies component_ok(
                            self.install.components,
                            #[trigger] comps[i],
                            t,
                            key@,
                        ) by {
                            assert(comps[i] == names@[i]@);
                        }
                    },
                    Err(e) => {
                        proof {
                            let w = choose|i: int|
                                0 <= i < names@.len() && !component_ok(
                                    self.install.components,
                                    #[trigger] names@[i]@,
                                    t,
                                    key@,
                                ) && component_error(self.install.components, names@[i]@, t, key@, e);
                            assert(comps[w] == names@[w]@);
                        }
                        return Err(e);
                    },
                }
                let deltas = self.plan_deltas(triplet.as_str(), dest_dir.as_str(), version, home);
                let mut commit: Vec<Op> = Vec::new();
                commit.push(Op::WriteEnv { deltas });
                let plan = Plan {
                    method,
                    name: self.meta.name.as_str().to_owned(),
                    version: version.duplicate(),
                    staging_dir,
                    download_to,
                    app_dir,
                    dest_dir,
                    staged_ops: staged,
                    commit_ops: commit,
                };
                proof {
                    assert(op_views(plan.commit_ops@) =~= seq![op_view(plan.commit_ops@[0])]);
                }
                Ok(plan)
            },
            InstallMethod::Installer => {
                if selection.components.len() > 0 {
                    return Err(unsupported_components());
                }
                let template = asset_template(&self.install.assets, triplet.as_str(), key)?;
                let url = Url::new(expand_url(template.as_str(), version));
                let file = url.file_name();
                let download_to = join(downloads.as_str(), file.as_str());
                let apps = join(store.as_str(), "apps");
                let dest_dir = join(apps.as_str(), self.install.base_dir.as_str());
                let expanded_args = expand_args(args, dest_dir.as_str(), version, home);
                let mut staged: Vec<Op> = Vec::new();
                staged.push(Op::Download { url, to: download_to.clone() });
                staged.push(
                    Op::RunInstaller {
                        exe: download_to.clone(),
                        args: expanded_args,
                        base: dest_dir.clone(),
                    },
                );
                let deltas = self.plan_deltas(triplet.as_str(), dest_dir.as_str(), version, home);
                let mut commit: Vec<Op> = Vec::new();
                commit.push(Op::WriteEnv { deltas });
                let plan = Plan {
                    method,
                    name: self.meta.name.as_str().to_owned(),
                    version: version.duplicate(),
                    staging_dir,
                    download_to,
                    app_dir: dest_dir.clone(),
                    dest_dir,
                    staged_ops: staged,
                    commit_ops: commit,
                };
                proof {
                    assert(op_views(plan.commit_ops@) =~= seq![op_view(plan.commit_ops@[0])]);
                    assert(op_views(plan.staged_ops@) =~= seq![
                        op_view(plan.staged_ops@[0]),
                        op_view(plan.staged_ops@[1]),
                    ]);
                }
                Ok(plan)
            },
            InstallMethod::Command => {
                if selection.components.len() > 0 {
                    return Err(unsupported_components());
                }
                let raws = match self.install.commands.get(triplet.as_str()) {
                    Some(c) => c,
                    None => {
                        return Err(Error::UnsupportedPlatform { target: triplet.clone() });
                    },
                };
                let apps = join(store.as_str(), "apps");
                let dest_dir = join(apps.as_str(), self.install.base_dir.as_str());
                let commands = invocations(raws, dest_dir.as_str(), version, home);
                let mut staged: Vec<Op> = Vec::new();
                staged.push(Op::RunCommand { commands, base: dest_dir.clone() });
                let deltas = self.plan_deltas(triplet.as_str(), dest_dir.as_str(), version, home);
                let mut commit: Vec<Op> = Vec::new();
                commit.push(Op::WriteEnv { deltas });
                let plan = Plan {
                    method,
                    name: self.meta.name.as_str().to_owned(),
                    version: version.duplicate(),
                    staging_dir,
                    download_to: downloads,
                    app_dir: dest_dir.clone(),
                    dest_dir,
                    staged_ops: staged,
                    commit_ops: commit,
                };
                proof {
                    assert(op_views(plan.commit_ops@) =~= seq![op_view(plan.commit_ops@[0])]);
                }
                Ok(plan)
            },
        }
    }
}

/// The methods an install tries on a platform: the one that applies there,
/// then the declared fallbacks, in order.
pub open spec fn chain_of(i: Install, t: Seq<char>) -> Seq<InstallMethod> {
    seq![chosen_method(i, t)] + i.fallback@
}

/// The methods of `chain` that can be planned, in chain order.
pub open spec fn plannable(m: Manifest, chain: Seq<InstallMethod>, t: Seq<char>, sel: Selection) -> Seq<
    InstallMethod,
>
    decreases chain.len(),
{
    if chain.len() == 0 {
        Seq::empty()
    } else {
        let k = plannable(m, chain.drop_last(), t, sel);
        if can_plan(m, chain.last(), t, sel) {
            k.push(chain.last())
        } else {
            k
        }
    }
}

/// The methods of a list of plans, in order.
pub open spec fn plan_methods(v: Seq<Plan>) -> Seq<InstallMethod> {
    v.map_values(|p: Plan| p.method)
}

impl Manifest {
    /// Plan every method of the fallback chain that can run on the platform,
    /// in chain order; a method whose data the platform lacks is skipped.
    /// One plan comes for each method that can be planned, none is skipped
    /// otherwise, and the order is the chain's.
    pub fn plan_chain(
        &self,
        root: &str,
        target: &Target,
        version: &Version,
        selection: &Selection,
        home: &str,
    ) -> (r: Vec<Plan>)
        ensures
            forall|k: int|
                0 <= k < r@.len() ==> chain_of(self.install, target.triplet_spec()).contains(
                    (#[trigger] r@[k]).method,
                ) && plan_for(
                    *self,
                    r@[k].method,
                    chosen_args(self.install, target.triplet_spec()),
                    root@,
                    target.triplet_spec(),
                    *version,
                    *selection,
                    home@,
                    r@[k],
                ),
            r@.len() == 0 <==> forall|i: int|
                0 <= i < chain_of(self.install, target.triplet_spec()).len() ==> !can_plan(
                    *self,
                    #[trigger] chain_of(self.install, target.triplet_spec())[i],
                    target.triplet_spec(),
                    *selection,
                ),
            plan_methods(r@) == plannable(
                *self,
                chain_of(self.install, target.triplet_spec()),
                target.triplet_spec(),
                *selection,
            ),
    {
        let ghost t = target.triplet_spec();
        let ghost chain = chain_of(self.install, t);
        let (first, args) = self.install.method_for(target);
        let mut plans: Vec<Plan> = Vec::new();
        proof {
            assert(chain.take(1).drop_last() =~= Seq::<InstallMethod>::empty());
            assert(chain.take(1).last() == chain[0]);
            assert(chain[0] == *first);
            assert(plannable(*self, Seq::<InstallMethod>::empty(), t, *selection) =~= Seq::<InstallMethod>::empty());
        }
        match self.plan_method(*first, args, root, target, version, selection, home) {
            Ok(p) => {
                plans.push(p);
                assert(plan_methods(plans@) =~= seq![p.method]);
                assert(plannable(*self, chain.take(1), t, *selection) =~= seq![*first]);
            },
            Err(_) => {
                assert(plan_methods(plans@) =~= Seq::<InstallMethod>::empty());
                assert(plannable(*self, chain.take(1), t, *selection) =~= Seq::<InstallMethod>::empty());
            },
        }
        let mut i: usize = 0;
        while i < self.install.fallback.len()
            invariant
                i <= self.install.fallback@.len(),
                chain == chain_of(self.install, t),
                t == target.triplet_spec(),
                args@ == chosen_args(self.install, t),
                forall|k: int|
                    0 <= k < plans@.len() ==> chain.contains((#[trigger] plans@[k]).method)
                        && plan_for(
                        *self,
                        plans@[k].method,
                        args@,
                        root@,
                        t,
                        *version,
                        *selection,
                        home@,
                        plans@[k],
                    ),
                plans@.len() == 0 <==> forall|j: int|
                    0 <= j < i + 1 ==> !can_plan(*self, #[trigger] chain[j], t, *selection),
                plan_methods(plans@) == plannable(*self, chain.take(i + 1), t, *selection),
            decreases self.install.fallback@.len() - i,
        {
            let m = self.install.fallback[i];
            assert(chain[i + 1] == m);
            let ghost before = plans@;
            proof {
                assert(chain.take(i + 2).drop_last() =~= chain.take(i + 1));
                assert(chain.take(i + 2).last() == m);
            }
            match self.plan_method(m, args, root, target, version, selection, home) {
                Ok(p) => {
                    plans.push(p);
                    assert(plan_methods(plans@) =~= plan_methods(before).push(p.method));
                },
                Err(_) => {},
            }
            i = i + 1;
        }
        assert(chain.take(i + 1) =~= chain);
        plans
    }
}

fn expand_args(args: &Vec<String>, base: &str, version: &Version, home: &str) -> (r: Vec<String>)
    ensures
        string_views(r@) == expanded_all(args@, base@, *version, home@),
{
    let mut out: Vec<String> = Vec::new();
    let mut i: usize = 0;
    while i < args.len()
        invariant
            i <= args@.len(),
            string_views(out@) == expanded_all(args@.take(i as int), base@, *version, home@),
        decreases args@.len() - i,
    {
        let ghost prev = string_views(out@);
        let e = expand_template(args[i].as_str(), base, version, home);
        out.push(e);
        proof {
            assert(string_views(out@) =~= prev.push(e@));
            assert(expanded_all(args@.take(i + 1), base@, *version, home@) =~= expanded_all(
                args@.take(i as int),
                base@,
                *version,
                home@,
            ).push(expanded(args@[i as int]@, base@, *version, home@)));
        }
        i = i + 1;
    }
    assert(args@.take(args@.len() as int) =~= args@);
    out
}

fn invocations(raws: &Vec<RawCommand>, base: &str, version: &Version, home: &str) -> (r: Vec<
    CommandInvocation,
>)
    ensures
        invocations_of(raws@, base@, *version, home@, r@),
{
    let mut out: Vec<CommandInvocation> = Vec::new();
    let mut i: usize = 0;
    while i < raws.len()
        invariant
            i <= raws@.len(),
            out@.len() == i,
            forall|k: int| 0 <= k < i ==> invocation_of(raws@[k], base@, *version, home@, #[trigger] out@[k]),
        decreases raws@.len() - i,
    {
        out.push(CommandInvocation::from_raw(&raws[i], base, version, home));
        i = i + 1;
    }
    out
}

/// The environment box decides how `PATH` is merged: in every plan, the
/// environment write carries one delta per environment entry in effect, and
/// a `PATH` entry is appended under an append box and prepended under a
/// prepend box, while every other variable is assigned.
pub proof fn law_path_follows_box(
    m: Manifest,
    method: InstallMethod,
    args: Seq<String>,
    root: Seq<char>,
    t: Seq<char>,
    v: Version,
    sel: Selection,
    home: Seq<char>,
    p: Plan,
)
    requires
        plan_for(m, method, args, root, t, v, sel, home, p),
    ensures
        p.commit_ops@.len() == 1,
        p.commit_ops@[0] is WriteEnv,
        p.commit_ops@[0]->WriteEnv_deltas@.len() == env_entries(m, t).len(),
        forall|i: int|
            0 <= i < env_entries(m, t).len() ==> {
                let d = #[trigger] p.commit_ops@[0]->WriteEnv_deltas@[i];
                &&& d.name@ == env_entries(m, t)[i].0
                &&& (env_entries(m, t)[i].0 == "PATH"@ && m.install.env_box is Append) ==> d.op
                    == EnvOp::Append
                &&& (env_entries(m, t)[i].0 == "PATH"@ && m.install.env_box is Prepend) ==> d.op
                    == EnvOp::Prepend
                &&& env_entries(m, t)[i].0 != "PATH"@ ==> d.op == EnvOp::Assign
            },
{
    let n = choose|n: u128| #[trigger] plan_for_at(m, method, args, root, t, v, sel, home, n as nat, p);
    let ops = p.commit_ops@;
    assert(op_views(ops).len() == 1);
    assert(op_views(ops)[0] == op_view(ops[0]));
    let ds = ops[0]->WriteEnv_deltas@;
    let want = deltas_for(env_entries(m, t), m.install.env_box, p.dest_dir@, v, home);
    assert(delta_views(ds) == want);
    assert forall|i: int| 0 <= i < env_entries(m, t).len() implies {
        let d = #[trigger] p.commit_ops@[0]->WriteEnv_deltas@[i];
        &&& d.name@ == env_entries(m, t)[i].0
        &&& (env_entries(m, t)[i].0 == "PATH"@ && m.install.env_box is Append) ==> d.op
            == EnvOp::Append
        &&& (env_entries(m, t)[i].0 == "PATH"@ && m.install.env_box is Prepend) ==> d.op
            == EnvOp::Prepend
        &&& env_entries(m, t)[i].0 != "PATH"@ ==> d.op == EnvOp::Assign
    } by {
        assert(delta_views(ds)[i] == delta_view(ds[i]));
        assert(want[i] == (
            env_entries(m, t)[i].0,
            resolved_value(env_entries(m, t)[i].1, p.dest_dir@, v, home),
            op_for(env_entries(m, t)[i].0, m.install.env_box),
        ));
    }
}

} // verus!
