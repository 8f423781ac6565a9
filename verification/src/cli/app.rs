//! The decisions behind the command handlers; the handlers themselves (which
//! read files, fetch over the network and print) run in the application.

use vstd::prelude::*;

use crate::engine::plan::{delta_view, delta_views, ops_deltas, Plan};
use crate::env::laws::lookup;
use crate::env::{opt_view, EnvDelta, EnvStore};
use crate::error::{Error, Result};
use crate::order::{sort_strings, sorted, views};
use crate::plugin::{source_key, source_name, Install, VersionsSource};
use crate::fs_path::AppDir;
use crate::receipt::{Receipt, VarSnapshot};
use crate::table::{key_views, Table};
use crate::text::{chars_of, push_all, str_eq, string_of};
use crate::upgrade::{decode_strict, utf8_strict};
use crate::version::{picks_latest, version_view, Version};

verus! {

/// How a bare `latest` resolves for a source.
pub enum LatestStep<'a> {
    /// The source's inline list decided it (the newest, or why none is).
    Resolved(Result<Version>),
    /// The source lists its versions remotely: fetch this listing, then take
    /// the newest of what it yields.
    Fetch(&'a VersionsSource),
    /// The source declares no versions: `latest` stays literal.
    Unpinned,
}

/// Decide how a bare `latest` resolves: the inline `versions` list first,
/// else the remote `versions_source`, else the literal `latest`.
pub fn resolve_latest<'a>(install: &'a Install, source: Option<&str>) -> (r: LatestStep<'a>)
    ensures
        install.versions.get_spec(source_key(source)) matches Some(list) ==> (r matches LatestStep::Resolved(res)
            && picks_latest(list@, res)),
        install.versions.get_spec(source_key(source)) is None ==> match install.versions_source.get_spec(source_key(source)) {
            Some(vs) => r matches LatestStep::Fetch(f) && *f == vs,
            None => r is Unpinned,
        },
{
    match install.latest_for(source) {
        Some(resolved) => LatestStep::Resolved(resolved),
        None => match install.versions_source_for(source) {
            Some(vs) => LatestStep::Fetch(vs),
            None => LatestStep::Unpinned,
        },
    }
}

/// Where the versions of a source are listed.
pub enum VersionsStep<'a> {
    /// The source's inline list.
    Inline(&'a Vec<String>),
    /// The source's remote listing, to be fetched.
    Fetch(&'a VersionsSource),
}

/// Find where a source lists its versions: its inline list, else its remote
/// listing; a source with neither is an error naming the source and tool.
pub fn versions_for<'a>(install: &'a Install, source: Option<&str>, tool: &str) -> (r: Result<
    VersionsStep<'a>,
>)
    ensures
        install.versions.get_spec(source_key(source)) matches Some(list) ==> (r matches Ok(
            VersionsStep::Inline(l),
        ) && *l == list),
        install.versions.get_spec(source_key(source)) is None ==> match install.versions_source.get_spec(source_key(source)) {
            Some(vs) => r matches Ok(VersionsStep::Fetch(f)) && *f == vs,
            None => r matches Err(Error::Other(m)) && m@ == "no source "@ + source_key(source) + " for "@
                + tool@,
        },
{
    match install.versions_for(source) {
        Some(list) => Ok(VersionsStep::Inline(list)),
        None => match install.versions_source_for(source) {
            Some(vs) => Ok(VersionsStep::Fetch(vs)),
            None => {
                let mut m = chars_of("no source ");
                let n = chars_of(source_name(source));
                push_all(&mut m, n.as_slice());
                let f = chars_of(" for ");
                push_all(&mut m, f.as_slice());
                let t = chars_of(tool);
                push_all(&mut m, t.as_slice());
                Err(Error::Other(string_of(m.as_slice())))
            },
        },
    }
}

fn key_list<V>(t: &Table<V>) -> (r: Vec<String>)
    ensures
        views(r@) == key_views(t.items()),
{
    let items = t.entries();
    let mut out: Vec<String> = Vec::new();
    let mut i: usize = 0;
    while i < items.len()
        invariant
            i <= items@.len(),
            items@ == t.items(),
            views(out@) == key_views(items@.take(i as int)),
        decreases items@.len() - i,
    {
        let ghost prev = views(out@);
        out.push(items[i].0.clone());
        assert(views(out@) =~= prev.push(items@[i as int].0@));
        assert(key_views(items@.take(i + 1)) =~= key_views(items@.take(i as int)).push(items@[i as int].0@));
        i = i + 1;
    }
    assert(items@.take(items@.len() as int) =~= items@);
    out
}

fn contains_text(v: &Vec<String>, s: &str) -> (r: bool)
    ensures
        r == views(v@).contains(s@),
{
    let mut i: usize = 0;
    while i < v.len()
        invariant
            i <= v@.len(),
            forall|k: int| 0 <= k < i ==> v@[k]@ != s@,
        decreases v@.len() - i,
    {
        if str_eq(v[i].as_str(), s) {
            assert(views(v@)[i as int] == s@);
            return true;
        }
        i = i + 1;
    }
    assert forall|k: int| 0 <= k < views(v@).len() implies views(v@)[k] != s@ by {}
    false
}

/// The sorted union of the source names that declare versions, inline or
/// remote.
pub fn declared_sources(install: &Install) -> (r: Vec<String>)
    ensures
        sorted(views(r@)),
        forall|n: Seq<char>| #[trigger] views(r@).contains(n) <==> (key_views(install.versions.items()).contains(n)
            || key_views(install.versions_source.items()).contains(n)),
{
    let mut names = key_list(&install.versions);
    let remote = key_list(&install.versions_source);
    let ghost inline_keys = key_views(install.versions.items());
    let ghost remote_keys = key_views(install.versions_source.items());
    let mut i: usize = 0;
    while i < remote.len()
        invariant
            i <= remote@.len(),
            views(remote@) == remote_keys,
            forall|n: Seq<char>| #[trigger] views(names@).contains(n) <==> (inline_keys.contains(n)
                || views(remote@).take(i as int).contains(n)),
        decreases remote@.len() - i,
    {
        let ghost prev = views(names@);
        let ghost taken = views(remote@).take(i as int);
        let here = contains_text(&names, remote[i].as_str());
        if !here {
            names.push(remote[i].clone());
            assert(views(names@) =~= prev.push(remote@[i as int]@));
        }
        proof {
            let x = remote@[i as int]@;
            let t2 = views(remote@).take(i + 1);
            assert(t2 =~= taken.push(x));
            lemma_push_contains(taken, x);
            if !here {
                lemma_push_contains(prev, x);
            }
            assert forall|n: Seq<char>| #[trigger] views(names@).contains(n) <==> (inline_keys.contains(n)
                || t2.contains(n)) by {
                assert(prev.contains(n) <==> (inline_keys.contains(n) || taken.contains(n)));
                assert(t2.contains(n) <==> (taken.contains(n) || n == x));
                if !here {
                    assert(views(names@).contains(n) <==> (prev.contains(n) || n == x));
                } else {
                    assert(views(names@) == prev);
                    assert(prev.contains(x));
                }
            }
        }
        i = i + 1;
    }
    assert(views(remote@).take(remote@.len() as int) =~= views(remote@));
    let sorted_names = sort_strings(names);
    proof {
        assert forall|n: Seq<char>| #[trigger] views(sorted_names@).contains(n) <==> views(names@).contains(n) by {
            vstd::seq_lib::to_multiset_contains(views(sorted_names@), n);
            vstd::seq_lib::to_multiset_contains(views(names@), n);
        }
    }
    sorted_names
}

proof fn lemma_push_contains(s: Seq<Seq<char>>, x: Seq<char>)
    ensures
        forall|n: Seq<char>| #[trigger] s.push(x).contains(n) <==> (s.contains(n) || n == x),
{
    assert forall|n: Seq<char>| #[trigger] s.push(x).contains(n) <==> (s.contains(n) || n == x) by {
        if s.contains(n) {
            let k = choose|k: int| 0 <= k < s.len() && s[k] == n;
            assert(s.push(x)[k] == n);
        }
        if n == x {
            assert(s.push(x)[s.len() as int] == n);
        }
        if s.push(x).contains(n) {
            let k = choose|k: int| 0 <= k < s.push(x).len() && s.push(x)[k] == n;
            if k < s.len() {
                assert(s[k] == n);
            }
        }
    }
}

/// The plain values of a variable snapshot, without its old value.
pub open spec fn snapshot_delta(s: VarSnapshot) -> (Seq<char>, Seq<char>, crate::env::EnvOp) {
    (s.name@, s.value@, s.op)
}

/// Snapshot the pre-apply value of every variable the chain's plans will
/// write, read before any execution mutates the environment. The deltas are
/// the same for every plan of a chain, so the first plan stands in for all.
pub fn env_snapshots_for_chain<E: EnvStore>(plans: &[Plan], env: &E) -> (r: Result<Vec<VarSnapshot>>)
    requires
        plans@.len() > 0,
    ensures
        r matches Ok(snaps) ==> snaps@.map_values(|s: VarSnapshot| snapshot_delta(s)) == delta_views(
            ops_deltas(plans@[0].commit_ops@),
        ) && forall|i: int|
            0 <= i < snaps@.len() ==> opt_view((#[trigger] snaps@[i]).old) == lookup(
                env.vars(),
                snaps@[i].name@,
            ),
        env.dependable() ==> r is Ok,
{
    let deltas = plans[0].env_deltas();
    let mut out: Vec<VarSnapshot> = Vec::new();
    let mut i: usize = 0;
    while i < deltas.len()
        invariant
            i <= deltas@.len(),
            delta_views(deltas@) == delta_views(ops_deltas(plans@[0].commit_ops@)),
            out@.map_values(|s: VarSnapshot| snapshot_delta(s)) == delta_views(deltas@.take(i as int)),
            forall|k: int|
                0 <= k < out@.len() ==> opt_view((#[trigger] out@[k]).old) == lookup(
                    env.vars(),
                    out@[k].name@,
                ),
        decreases deltas@.len() - i,
    {
        let d = &deltas[i];
        let old = env.read(&d.name)?;
        let ghost prev = out@.map_values(|s: VarSnapshot| snapshot_delta(s));
        let snap = VarSnapshot { name: d.name.duplicate(), op: d.op, value: d.value.clone(), old };
        out.push(snap);
        proof {
            assert(out@.map_values(|s: VarSnapshot| snapshot_delta(s)) =~= prev.push(delta_view(deltas@[i as int])));
            assert(delta_views(deltas@.take(i + 1)) =~= delta_views(deltas@.take(i as int)).push(delta_view(deltas@[i as int])));
        }
        i = i + 1;
    }
    assert(deltas@.take(deltas@.len() as int) =~= deltas@);
    Ok(out)
}

/// The text of a plugin manifest file, which must be UTF-8.
pub fn bytes_to_manifest(data: &[u8]) -> (r: Result<String>)
    ensures
        match utf8_strict(data@) {
            Ok(t) => r matches Ok(s) && s@ == t,
            Err(e) => r matches Err(Error::Other(m)) && m@ == "plugin is not valid UTF-8: "@ + e,
        },
{
    match decode_strict(data) {
        Ok(t) => Ok(t),
        Err(e) => {
            let mut m = chars_of("plugin is not valid UTF-8: ");
            let d = chars_of(e.as_str());
            push_all(&mut m, d.as_slice());
            Err(Error::Other(string_of(m.as_slice())))
        },
    }
}

/// The receipt of an install that ran `plan`: its name, version and
/// destination, and the variable snapshots taken before it ran.
pub fn receipt_for(plan: &Plan, snapshots: Vec<VarSnapshot>) -> (r: Receipt)
    ensures
        r.name@ == plan.name@,
        version_view(r.version) == version_view(plan.version),
        r.app_dir@ == plan.dest_dir@,
        r.vars == snapshots,
{
    Receipt {
        name: plan.name.clone(),
        version: plan.version.duplicate(),
        app_dir: AppDir::from_path(plan.dest_dir.as_str()),
        vars: snapshots,
    }
}

/// The error of an install for which no method can run on the platform.
pub fn no_install_method(name: &str) -> (r: Error)
    ensures
        r matches Error::Other(m) && m@ == "no install method available for "@ + name@
            + " on this platform"@,
{
    let mut m = chars_of("no install method available for ");
    let n = chars_of(name);
    push_all(&mut m, n.as_slice());
    let t = chars_of(" on this platform");
    push_all(&mut m, t.as_slice());
    Error::Other(string_of(m.as_slice()))
}

} // verus!
