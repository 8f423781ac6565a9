//! Uninstall: roll back one install precisely from its receipt.
//!
//! Every side effect is reversible: remove the tool directory and write each
//! environment variable back from its snapshot.

use vstd::prelude::*;

use crate::engine::execute::{ops_env, plan_env};
use crate::engine::fs::{cleared, Fs};
use crate::engine::ops::Op;
use crate::engine::plan::{ops_deltas, Plan};
use crate::env::laws::{
    apply_all, law_remove_undoes_offer, law_uninstall_any_order, lemma_remove_from_empty, lookup,
};
use crate::env::{
    list_contains, merge_text, offer_text, opt_view, remove_text_on, reverse_text, sep, sep_of,
    undo_delta, undo_map, EnvDelta, EnvOp, EnvStore,
};
use crate::text::trim;
use crate::fs_path::Platform;
use crate::error::Result;
use crate::path::{parent, parent_text, path_key};
use crate::receipt::{Receipt, VarSnapshot};

verus! {

/// The delta a receipt entry recorded.
pub open spec fn recorded_delta(v: VarSnapshot) -> EnvDelta {
    EnvDelta { name: v.name, value: v.value, op: v.op }
}

/// The variables after each recorded delta is reversed, in order.
pub open spec fn receipt_env(
    pl: Platform,
    m: Map<Seq<char>, Seq<char>>, vars: Seq<VarSnapshot>) -> Map<
    Seq<char>,
    Seq<char>,
>
    decreases vars.len(),
{
    if vars.len() == 0 {
        m
    } else {
        undo_map(pl, 
            receipt_env(pl, m, vars.drop_last()),
            recorded_delta(vars.last()),
            opt_view(vars.last().old),
        )
    }
}

// ---------------------------------------------------------------------------
// Uninstall undoes install
// ---------------------------------------------------------------------------

/// Applying deltas leaves alone every variable none of them names.
proof fn lemma_apply_other(
    pl: Platform,
    m: Map<Seq<char>, Seq<char>>, ds: Seq<EnvDelta>, k: Seq<char>)
    requires
        forall|i: int| 0 <= i < ds.len() ==> (#[trigger] ds[i]).name@ != k,
    ensures
        lookup(apply_all(pl, m, ds), k) == lookup(m, k),
    decreases ds.len(),
{
    if ds.len() > 0 {
        let d = ds.drop_last();
        assert forall|i: int| 0 <= i < d.len() implies (#[trigger] d[i]).name@ != k by {
            assert(d[i] == ds[i]);
        }
        lemma_apply_other(pl, m, d, k);
        assert(ds.last() == ds[ds.len() - 1]);
    }
}

/// With distinct names, a variable ends as its own delta merges it.
proof fn lemma_apply_at(
    pl: Platform,
    m: Map<Seq<char>, Seq<char>>, ds: Seq<EnvDelta>, i: int)
    requires
        0 <= i < ds.len(),
        forall|a: int, b: int| 0 <= a < b < ds.len() ==> ds[a].name@ != ds[b].name@,
    ensures
        lookup(apply_all(pl, m, ds), ds[i].name@) == Some(
            merge_text(pl, lookup(m, ds[i].name@), ds[i].op, ds[i].value@),
        ),
    decreases ds.len(),
{
    let d = ds.drop_last();
    if i < ds.len() - 1 {
        assert(d[i] == ds[i]);
        lemma_apply_at(pl, m, d, i);
        assert(ds.last() == ds[ds.len() - 1]);
    } else {
        assert forall|j: int| 0 <= j < d.len() implies (#[trigger] d[j]).name@ != ds[i].name@ by {
            assert(d[j] == ds[j]);
        }
        lemma_apply_other(pl, m, d, ds[i].name@);
    }
}

/// Reversing receipt entries leaves alone every variable none of them names.
proof fn lemma_receipt_other(
    pl: Platform,
    m: Map<Seq<char>, Seq<char>>, vars: Seq<VarSnapshot>, k: Seq<char>)
    requires
        forall|i: int| 0 <= i < vars.len() ==> (#[trigger] vars[i]).name@ != k,
    ensures
        lookup(receipt_env(pl, m, vars), k) == lookup(m, k),
    decreases vars.len(),
{
    if vars.len() > 0 {
        let d = vars.drop_last();
        assert forall|i: int| 0 <= i < d.len() implies (#[trigger] d[i]).name@ != k by {
            assert(d[i] == vars[i]);
        }
        lemma_receipt_other(pl, m, d, k);
        assert(vars.last() == vars[vars.len() - 1]);
    }
}

/// With distinct names, a variable ends as reversing its own entry makes it.
proof fn lemma_receipt_at(
    pl: Platform,
    m: Map<Seq<char>, Seq<char>>, vars: Seq<VarSnapshot>, i: int)
    requires
        0 <= i < vars.len(),
        forall|a: int, b: int| 0 <= a < b < vars.len() ==> vars[a].name@ != vars[b].name@,
    ensures
        lookup(receipt_env(pl, m, vars), vars[i].name@) == reverse_text(pl, 
            vars[i].op,
            vars[i].value@,
            opt_view(vars[i].old),
            lookup(m, vars[i].name@),
        ),
    decreases vars.len(),
{
    let d = vars.drop_last();
    if i < vars.len() - 1 {
        assert(d[i] == vars[i]);
        lemma_receipt_at(pl, m, d, i);
        assert(vars.last() == vars[vars.len() - 1]);
    } else {
        assert forall|j: int| 0 <= j < d.len() implies (#[trigger] d[j]).name@ != vars[i].name@ by {
            assert(d[j] == vars[j]);
        }
        lemma_receipt_other(pl, m, d, vars[i].name@);
    }
}

/// Whether a receipt entry records `d` together with the value its variable
/// had in `m`.
pub open spec fn records(v: VarSnapshot, d: EnvDelta, m: Map<Seq<char>, Seq<char>>) -> bool {
    &&& v.name@ == d.name@
    &&& v.value@ == d.value@
    &&& v.op == d.op
    &&& opt_view(v.old) == lookup(m, d.name@)
}

/// Whether uninstalling a list entry gives back the list it was added to:
/// the entry holds no separator, and the list, if the variable was set, is
/// already in the normal form removal produces and does not list the entry.
pub open spec fn list_restorable(
    pl: Platform,
    old: Option<Seq<char>>, entry: Seq<char>) -> bool {
    &&& !entry.contains(sep_of(pl))
    &&& match old {
        Some(l) => remove_text_on(pl, l, entry) == Some(l),
        None => true,
    }
}

/// Uninstall undoes install: reversing, in order, the receipt of an install
/// that applied deltas with distinct names to the variables `m` gives back
/// exactly `m`, when every `PATH`-style entry can be restored (it holds no
/// separator, and the list it joined was in normal form without it).
pub proof fn law_uninstall_undoes_install(
    pl: Platform,
    m: Map<Seq<char>, Seq<char>>,
    ds: Seq<EnvDelta>,
    vars: Seq<VarSnapshot>,
)
    requires
        vars.len() == ds.len(),
        forall|i: int| 0 <= i < ds.len() ==> #[trigger] records(vars[i], ds[i], m),
        forall|a: int, b: int| 0 <= a < b < ds.len() ==> ds[a].name@ != ds[b].name@,
        forall|i: int|
            0 <= i < ds.len() && !(ds[i].op is Assign) ==> list_restorable(pl, 
                lookup(m, (#[trigger] ds[i]).name@),
                ds[i].value@,
            ),
    ensures
        receipt_env(pl, apply_all(pl, m, ds), vars) == m,
{
    let after = apply_all(pl, m, ds);
    let fin = receipt_env(pl, after, vars);
    assert forall|a: int, b: int| 0 <= a < b < vars.len() implies vars[a].name@ != vars[b].name@ by {
        assert(records(vars[a], ds[a], m));
        assert(records(vars[b], ds[b], m));
    }
    assert forall|k: Seq<char>| #[trigger] lookup(fin, k) == lookup(m, k) by {
        if exists|i: int| 0 <= i < ds.len() && ds[i].name@ == k {
            let i = choose|i: int| 0 <= i < ds.len() && ds[i].name@ == k;
            assert(records(vars[i], ds[i], m));
            lemma_apply_at(pl, m, ds, i);
            lemma_receipt_at(pl, after, vars, i);
            let l = lookup(m, k);
            let v = ds[i].value@;
            match ds[i].op {
                EnvOp::Assign => {},
                EnvOp::Prepend => {
                    let base = match l {
                        Some(c) => c,
                        None => Seq::empty(),
                    };
                    law_remove_undoes_offer(pl, base, v, true);
                    if l is None {
                        lemma_remove_from_empty(pl, v);
                    }
                },
                EnvOp::Append => {
                    let base = match l {
                        Some(c) => c,
                        None => Seq::empty(),
                    };
                    law_remove_undoes_offer(pl, base, v, false);
                    if l is None {
                        lemma_remove_from_empty(pl, v);
                    }
                },
            }
        } else {
            lemma_apply_other(pl, m, ds, k);
            assert forall|i: int| 0 <= i < vars.len() implies (#[trigger] vars[i]).name@ != k by {
                assert(records(vars[i], ds[i], m));
            }
            lemma_receipt_other(pl, after, vars, k);
        }
    }
    assert forall|k: Seq<char>| fin.contains_key(k) <==> m.contains_key(k) by {
        assert(lookup(fin, k) == lookup(m, k));
    }
    assert forall|k: Seq<char>| fin.contains_key(k) implies fin[k] == m[k] by {
        assert(lookup(fin, k) == lookup(m, k));
    }
    assert(fin =~= m);
}

/// Applying deltas in two runs is applying them in one.
proof fn lemma_apply_concat(
    pl: Platform,
    m: Map<Seq<char>, Seq<char>>, a: Seq<EnvDelta>, b: Seq<EnvDelta>)
    ensures
        apply_all(pl, m, a + b) == apply_all(pl, apply_all(pl, m, a), b),
    decreases b.len(),
{
    if b.len() == 0 {
        assert(a + b =~= a);
    } else {
        lemma_apply_concat(pl, m, a, b.drop_last());
        assert((a + b).drop_last() =~= a + b.drop_last());
        assert((a + b).last() == b.last());
    }
}

/// Running ops changes the variables exactly as their environment writes,
/// taken together in order, do.
proof fn lemma_ops_env(
    pl: Platform,
    m: Map<Seq<char>, Seq<char>>, ops: Seq<Op>)
    ensures
        ops_env(pl, m, ops) == apply_all(pl, m, ops_deltas(ops)),
    decreases ops.len(),
{
    if ops.len() > 0 {
        let rest = ops.drop_last();
        lemma_ops_env(pl, m, rest);
        match ops.last() {
            Op::WriteEnv { deltas } => {
                lemma_apply_concat(pl, m, ops_deltas(rest), deltas@);
            },
            _ => {
                assert(ops_deltas(rest) + Seq::<EnvDelta>::empty() =~= ops_deltas(rest));
            },
        }
    }
}

/// Uninstalling right after an install gives back the variables the install
/// found: when a plan whose staged ops write no environment has run, the
/// receipt recording its environment writes (distinct variables, each with
/// the value it had before) reverses them exactly, provided every
/// `PATH`-style entry can be restored.
pub proof fn law_uninstall_after_install(
    pl: Platform,
    m: Map<Seq<char>, Seq<char>>,
    plan: Plan,
    vars: Seq<VarSnapshot>,
)
    requires
        ops_deltas(plan.staged_ops@).len() == 0,
        vars.len() == ops_deltas(plan.commit_ops@).len(),
        forall|i: int|
            0 <= i < vars.len() ==> #[trigger] records(vars[i], ops_deltas(plan.commit_ops@)[i], m),
        forall|a: int, b: int|
            0 <= a < b < vars.len() ==> ops_deltas(plan.commit_ops@)[a].name@ != ops_deltas(
                plan.commit_ops@,
            )[b].name@,
        forall|i: int|
            0 <= i < vars.len() && !(ops_deltas(plan.commit_ops@)[i].op is Assign)
                ==> list_restorable(pl, 
                lookup(m, (#[trigger] ops_deltas(plan.commit_ops@)[i]).name@),
                ops_deltas(plan.commit_ops@)[i].value@,
            ),
    ensures
        receipt_env(pl, plan_env(pl, m, plan), vars) == m,
{
    lemma_ops_env(pl, m, plan.staged_ops@);
    assert(ops_deltas(plan.staged_ops@) =~= Seq::<EnvDelta>::empty());
    lemma_ops_env(pl, m, plan.commit_ops@);
    law_uninstall_undoes_install(pl, m, ops_deltas(plan.commit_ops@), vars);
}

/// Uninstalling one tool keeps another tool's path entry, whichever is
/// uninstalled first: when a path list was offered `a` by one install and then
/// `b` by another, reversing the receipt entry of the first install's merge of
/// `a` leaves `b` listed, and reversing that of the second install's merge of
/// `b` leaves `a` listed (POSIX lists; entries that hold no separator, are not
/// blank, and differ after trimming).
pub proof fn law_receipts_keep_other_entry(
    m: Map<Seq<char>, Seq<char>>,
    l: Seq<char>,
    a: Seq<char>,
    b: Seq<char>,
    fa: bool,
    fb: bool,
    ra: VarSnapshot,
    rb: VarSnapshot,
)
    requires
        !a.contains(sep()),
        !b.contains(sep()),
        trim(a).len() > 0,
        trim(b).len() > 0,
        trim(a) != trim(b),
        ra.name@ == rb.name@,
        lookup(m, ra.name@) == Some(offer_text(offer_text(l, a, fa), b, fb)),
        !(ra.op is Assign),
        ra.value@ == a,
        !(rb.op is Assign),
        rb.value@ == b,
    ensures
        lookup(receipt_env(Platform::Posix, m, seq![ra]), ra.name@) matches Some(t) && list_contains(
            t,
            b,
        ),
        lookup(receipt_env(Platform::Posix, m, seq![rb]), rb.name@) matches Some(t) && list_contains(
            t,
            a,
        ),
{
    law_uninstall_any_order(l, a, b, fa, fb);
    let o2 = offer_text(offer_text(l, a, fa), b, fb);
    let pl = Platform::Posix;
    assert(seq![ra].drop_last() =~= Seq::<VarSnapshot>::empty());
    assert(seq![rb].drop_last() =~= Seq::<VarSnapshot>::empty());
    assert(receipt_env(pl, m, Seq::<VarSnapshot>::empty()) == m);
    let ta = remove_text_on(pl, o2, a)->0;
    assert(reverse_text(pl, ra.op, a, opt_view(ra.old), Some(o2)) == Some(ta));
    assert(receipt_env(pl, m, seq![ra]) == undo_map(pl, m, recorded_delta(ra), opt_view(ra.old)));
    assert(receipt_env(pl, m, seq![ra]) == m.insert(ra.name@, ta));
    let tb = remove_text_on(pl, o2, b)->0;
    assert(reverse_text(pl, rb.op, b, opt_view(rb.old), Some(o2)) == Some(tb));
    assert(receipt_env(pl, m, seq![rb]) == undo_map(pl, m, recorded_delta(rb), opt_view(rb.old)));
    assert(receipt_env(pl, m, seq![rb]) == m.insert(rb.name@, tb));
}

/// Roll back from a receipt: remove the tool directory, then reverse each
/// variable in order. PATH-like variables drop only the segment this install
/// added; `Assign` restores the pre-apply value.
pub fn apply_receipt<F: Fs, E: EnvStore>(receipt: &Receipt, fs: &mut F, env: &mut E) -> (r: Result<()>)
    ensures
        r is Ok ==> final(env).vars() == receipt_env(
            old(env).platform_of(),
            old(env).vars(),
            receipt.vars@,
        ),
        final(env).platform_of() == old(env).platform_of(),
        r is Ok ==> final(fs).tree() == cleared(old(fs).tree(), path_key(receipt.app_dir@)),
        old(fs).dependable() ==> final(fs).dependable(),
        old(env).dependable() ==> final(env).dependable(),
        old(fs).dependable() && old(env).dependable() ==> r is Ok,
{
    remove_app_dir(fs, receipt.app_dir.as_path())?;
    let ghost m = env.vars();
    let mut i: usize = 0;
    proof {
        assert(receipt.vars@.take(0) =~= Seq::<VarSnapshot>::empty());
    }
    while i < receipt.vars.len()
        invariant
            i <= receipt.vars@.len(),
            m == old(env).vars(),
            old(env).dependable() ==> env.dependable(),
            old(fs).dependable() ==> fs.dependable(),
            env.platform_of() == old(env).platform_of(),
            env.vars() == receipt_env(old(env).platform_of(), m, receipt.vars@.take(i as int)),
        decreases receipt.vars@.len() - i,
    {
        let var = &receipt.vars[i];
        let applied = EnvDelta { name: var.name.duplicate(), value: var.value.clone(), op: var.op };
        match &var.old {
            Some(o) => undo_delta(&applied, Some(o.as_str()), env)?,
            None => undo_delta(&applied, None, env)?,
        }
        proof {
            let t = receipt.vars@.take(i + 1);
            assert(t.drop_last() =~= receipt.vars@.take(i as int));
            assert(t.last() == receipt.vars@[i as int]);
            assert(applied.name@ == recorded_delta(*var).name@);
            assert(undo_map(old(env).platform_of(), env.vars(), applied, opt_view(var.old)) == undo_map(old(env).platform_of(), env.vars(), recorded_delta(*var), opt_view(var.old)));
        }
        i = i + 1;
    }
    proof {
        assert(receipt.vars@.take(i as int) =~= receipt.vars@);
    }
    Ok(())
}

/// Remove a directory tree when it exists.
pub fn remove_app_dir<F: Fs>(fs: &mut F, dir: &str) -> (r: Result<()>)
    ensures
        r is Ok ==> final(fs).tree() == cleared(old(fs).tree(), path_key(dir@)),
        old(fs).dependable() ==> r is Ok && final(fs).dependable(),
{
    if fs.path_exists(dir)? {
        fs.remove_dir_all(dir)?;
    }
    Ok(())
}

/// Remove the receipt and its directory after uninstalling.
pub fn remove_receipt<F: Fs>(fs: &mut F, receipt_path: &str) -> (r: Result<()>)
    ensures
        r is Ok ==> final(fs).tree() == match parent_text(receipt_path@) {
            Some(p) => cleared(old(fs).tree(), path_key(p)),
            None => old(fs).tree(),
        },
        parent_text(receipt_path@) is None ==> r is Ok,
        old(fs).dependable() ==> r is Ok && final(fs).dependable(),
{
    match parent(receipt_path) {
        Some(p) => {
            if fs.path_exists(p.as_str())? {
                fs.remove_dir_all(p.as_str())?;
            }
            Ok(())
        },
        None => Ok(()),
    }
}

} // verus!
