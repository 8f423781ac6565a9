//! Execution and rollback.
//!
//! Folds ops: a failure in the staging phase discards the whole staging
//! area; the commit phase (environment write-back) is not atomic, so a
//! failure replays the compensations LIFO via [`UndoLog`]. No failure leaves a
//! half-finished result.

use vstd::prelude::*;

use crate::engine::fs::{add_dirs, cleared, moved, Fs, Tree};
use crate::engine::ops::{
    compensates, env_after, env_undone, fs_after, fs_undone, is_all_failed, snapshots_taken,
    Compensation, Op,
};
use crate::engine::plan::Plan;
use crate::engine::staging::Staging;
use crate::engine::{Ctx, Downloader, ProcessRunner};
use crate::env::laws::law_restore_undoes_apply;
use crate::env::EnvStore;
use crate::fs_path::Platform;
use crate::error::{message_text, Error, Result};
use crate::path::{parent, parent_text, path_key, path_normals};
use crate::report::{Progress, Reporter};
use crate::text::{chars_of, push_all, str_eq, string_of};

verus! {

/// Accumulates the compensations of executed ops, replayed in reverse on
/// failure.
pub struct UndoLog {
    entries: Vec<Compensation>,
}

/// A list of rollback failures.
pub struct RollbackReport {
    /// Descriptions of compensations that could not be replayed, in replay
    /// order.
    pub failures: Vec<String>,
}

impl UndoLog {
    /// The recorded compensations, oldest first.
    pub closed spec fn entries(&self) -> Seq<Compensation> {
        self.entries@
    }

    /// An empty log.
    pub fn new() -> (r: UndoLog)
        ensures
            r.entries().len() == 0,
    {
        UndoLog { entries: Vec::new() }
    }

    /// Record one compensation.
    pub fn push(&mut self, compensation: Compensation)
        ensures
            final(self).entries() == old(self).entries().push(compensation),
    {
        self.entries.push(compensation);
    }

    /// The number of recorded compensations.
    pub fn len(&self) -> (r: usize)
        ensures
            r == self.entries().len(),
    {
        self.entries.len()
    }

    /// Replay all compensations LIFO (newest first), collecting the message
    /// of each one that fails; a failure does not stop the replay, so a
    /// dependable filesystem is rolled back in full even when the environment
    /// refuses a restoration, and the other way round.
    ///
    /// When no compensation fails, the variables end as
    /// [`env_rolled_back`] replays the log.
    pub fn rollback<F: Fs, E: EnvStore>(&self, fs: &mut F, env: &mut E) -> (r: RollbackReport)
        ensures
            r.failures@.len() <= self.entries().len(),
            r.failures@.len() == 0 ==> final(env).vars() == env_rolled_back(
                old(env).vars(),
                self.entries(),
            ),
            r.failures@.len() == 0 ==> final(fs).tree() == fs_rolled_back(
                old(fs).tree(),
                self.entries(),
            ),
            old(fs).dependable() ==> final(fs).dependable(),
            old(env).dependable() ==> final(env).dependable(),
            final(env).platform_of() == old(env).platform_of(),
            old(fs).dependable() && old(env).dependable() ==> r.failures@.len() == 0,
            old(fs).dependable() ==> final(fs).tree() == fs_rolled_back(old(fs).tree(), self.entries()),
            old(env).dependable() ==> final(env).vars() == env_rolled_back(
                old(env).vars(),
                self.entries(),
            ),
    {
        let ghost m = env.vars();
        let ghost t0 = fs.tree();
        let mut failures: Vec<String> = Vec::new();
        let mut i: usize = self.entries.len();
        proof {
            assert(self.entries@.take(i as int) =~= self.entries@);
        }
        while i > 0
            invariant
                i <= self.entries@.len(),
                failures@.len() <= self.entries@.len() - i,
                old(fs).dependable() ==> fs.dependable(),
                old(env).dependable() ==> env.dependable(),
                env.platform_of() == old(env).platform_of(),
                old(fs).dependable() && old(env).dependable() ==> failures@.len() == 0,
                old(fs).dependable() ==> fs_rolled_back(fs.tree(), self.entries@.take(i as int))
                    == fs_rolled_back(t0, self.entries@),
                old(env).dependable() ==> env_rolled_back(env.vars(), self.entries@.take(i as int))
                    == env_rolled_back(m, self.entries@),
                failures@.len() == 0 ==> env_rolled_back(env.vars(), self.entries@.take(i as int))
                    == env_rolled_back(m, self.entries@),
                failures@.len() == 0 ==> fs_rolled_back(fs.tree(), self.entries@.take(i as int))
                    == fs_rolled_back(t0, self.entries@),
            decreases i,
        {
            i = i - 1;
            proof {
                let t = self.entries@.take(i + 1);
                assert(t.drop_last() =~= self.entries@.take(i as int));
                assert(t.last() == self.entries@[i as int]);
            }
            match self.entries[i].undo(fs, env) {
                Ok(()) => {},
                Err(e) => {
                    failures.push(e.message());
                },
            }
        }
        proof {
            assert(self.entries@.take(0) =~= Seq::<Compensation>::empty());
        }
        RollbackReport { failures }
    }
}

impl RollbackReport {
    /// The first failure; `None` when nothing failed.
    pub fn first_failure(&self) -> (r: Option<&str>)
        ensures
            self.failures@.len() == 0 ==> r is None,
            self.failures@.len() > 0 ==> (r matches Some(s) && s@ == self.failures@[0]@),
    {
        if self.failures.len() == 0 {
            None
        } else {
            Some(self.failures[0].as_str())
        }
    }
}

/// The error an install reports: the original one, or, when a compensation
/// failed too, a rollback error carrying both messages.
pub open spec fn merged_error(original: Error, failures: Seq<String>, r: Error) -> bool {
    if failures.len() == 0 {
        r == original
    } else {
        r matches Error::Rollback(m) && m@ == message_text(original)
            + "; additionally rollback failed: "@ + failures[0]@
    }
}

/// Combine the original failure with the outcome of the rollback.
pub fn merge_errors(original: Error, report: RollbackReport) -> (r: Error)
    ensures
        merged_error(original, report.failures@, r),
{
    match report.first_failure() {
        None => original,
        Some(rebound) => {
            let mut m = chars_of(original.message().as_str());
            let mid = chars_of("; additionally rollback failed: ");
            push_all(&mut m, mid.as_slice());
            let tail = chars_of(rebound);
            push_all(&mut m, tail.as_slice());
            Error::Rollback(string_of(m.as_slice()))
        },
    }
}

/// The label of the phase an op starts.
pub open spec fn label_of(op: Op) -> Seq<char> {
    match op {
        Op::Download { .. } => "Downloading"@,
        Op::Unpack { .. } => "Extracting"@,
        Op::RunInstaller { .. } => "Installing"@,
        Op::RunCommand { .. } => "Installing"@,
        Op::WriteEnv { .. } => "Configuring env"@,
    }
}

/// The phase label for one op, shown by the progress bar before it runs.
pub fn op_label(op: &Op) -> (r: &'static str)
    ensures
        r@ == label_of(*op),
{
    match op {
        Op::Download { .. } => "Downloading",
        Op::Unpack { .. } => "Extracting",
        Op::RunInstaller { .. } => "Installing",
        Op::RunCommand { .. } => "Installing",
        Op::WriteEnv { .. } => "Configuring env",
    }
}

/// Whether the plan moves its app directory into place (it does unless the
/// staged ops already wrote to the destination).
pub open spec fn moves_app(plan: Plan) -> bool {
    plan.app_dir@ != plan.dest_dir@
}

/// The number of steps a plan runs: the staged ops, the move, the commit ops.
pub open spec fn step_count(plan: Plan) -> int {
    plan.staged_ops@.len() + (if moves_app(plan) {
        1int
    } else {
        0int
    }) + plan.commit_ops@.len()
}

/// Whether `c` undoes step `i` of the plan.
pub open spec fn undoes_step(plan: Plan, i: int, c: Compensation) -> bool {
    let s = plan.staged_ops@.len() as int;
    let m = if moves_app(plan) {
        1int
    } else {
        0int
    };
    if i < s {
        compensates(plan.staged_ops@[i], c)
    } else if i < s + m {
        c matches Compensation::RemoveDir(p) && p@ == plan.dest_dir@
    } else {
        compensates(plan.commit_ops@[i - s - m], c)
    }
}

/// Whether `cs` undoes the first `cs.len()` steps of the plan, in order.
pub open spec fn undoes_steps(plan: Plan, cs: Seq<Compensation>) -> bool {
    cs.len() <= step_count(plan) && forall|i: int|
        0 <= i < cs.len() ==> undoes_step(plan, i, #[trigger] cs[i])
}

/// The variables after compensations are replayed newest first.
pub open spec fn env_rolled_back(m: Map<Seq<char>, Seq<char>>, cs: Seq<Compensation>) -> Map<
    Seq<char>,
    Seq<char>,
>
    decreases cs.len(),
{
    if cs.len() == 0 {
        m
    } else {
        env_rolled_back(env_undone(m, cs.last()), cs.drop_last())
    }
}

/// The tree after compensations are replayed newest first.
pub open spec fn fs_rolled_back(t: Tree, cs: Seq<Compensation>) -> Tree
    decreases cs.len(),
{
    if cs.len() == 0 {
        t
    } else {
        fs_rolled_back(fs_undone(t, cs.last()), cs.drop_last())
    }
}

/// The path a compensation removes, if it removes one.
pub open spec fn removed_path(c: Compensation) -> Option<Seq<char>> {
    match c {
        Compensation::RemoveFile(p) => Some(p@),
        Compensation::RemoveDir(p) => Some(p@),
        _ => None,
    }
}

/// Replaying compensations only ever takes entries away.
proof fn lemma_rolled_back_shrinks(t: Tree, cs: Seq<Compensation>, k: Seq<Seq<char>>)
    requires
        fs_rolled_back(t, cs).contains_key(k),
    ensures
        t.contains_key(k),
        fs_rolled_back(t, cs)[k] == t[k],
    decreases cs.len(),
{
    if cs.len() > 0 {
        let u = fs_undone(t, cs.last());
        lemma_rolled_back_shrinks(u, cs.drop_last(), k);
    }
}

/// Rollback leaves nothing behind at the paths it compensates: after the
/// compensations are replayed newest first, no file or directory that one
/// of them removes is present, and every entry that remains was there
/// before, unchanged.
pub proof fn law_rollback_clears_targets(t: Tree, cs: Seq<Compensation>)
    ensures
        forall|i: int|
            0 <= i < cs.len() ==> (#[trigger] removed_path(cs[i]) matches Some(p)
                ==> !fs_rolled_back(t, cs).contains_key(path_key(p))),
        forall|k: Seq<Seq<char>>|
            #[trigger] fs_rolled_back(t, cs).contains_key(k) ==> t.contains_key(k)
                && fs_rolled_back(t, cs)[k] == t[k],
    decreases cs.len(),
{
    assert forall|k: Seq<Seq<char>>| #[trigger] fs_rolled_back(t, cs).contains_key(k) implies t.contains_key(k)
        && fs_rolled_back(t, cs)[k] == t[k] by {
        lemma_rolled_back_shrinks(t, cs, k);
    }
    if cs.len() > 0 {
        let c = cs.last();
        let u = fs_undone(t, c);
        let d = cs.drop_last();
        law_rollback_clears_targets(u, d);
        assert forall|i: int| 0 <= i < cs.len() implies (#[trigger] removed_path(cs[i]) matches Some(p)
            ==> !fs_rolled_back(t, cs).contains_key(path_key(p))) by {
            if i < d.len() {
                assert(cs[i] == d[i]);
            } else if let Some(p) = removed_path(c) {
                let k = path_key(p);
                assert(k.take(k.len() as int) =~= k);
                assert(!u.contains_key(k));
                if fs_rolled_back(t, cs).contains_key(k) {
                    lemma_rolled_back_shrinks(u, d, k);
                }
            }
        }
    }
}

/// The variables after ops that all succeeded, applied in order.
pub open spec fn ops_env(pl: Platform, m: Map<Seq<char>, Seq<char>>, ops: Seq<Op>) -> Map<Seq<char>, Seq<char>>
    decreases ops.len(),
{
    if ops.len() == 0 {
        m
    } else {
        env_after(pl, ops_env(pl, m, ops.drop_last()), ops.last())
    }
}

/// The variables after a whole plan ran: its staged ops, then its commit ops.
pub open spec fn plan_env(pl: Platform, m: Map<Seq<char>, Seq<char>>, plan: Plan) -> Map<Seq<char>, Seq<char>> {
    ops_env(pl, ops_env(pl, m, plan.staged_ops@), plan.commit_ops@)
}

/// Whether step `i` of the plan is an environment write.
pub open spec fn step_writes_env(plan: Plan, i: int) -> bool {
    let s = plan.staged_ops@.len() as int;
    let m = if moves_app(plan) {
        1int
    } else {
        0int
    };
    if 0 <= i < s {
        plan.staged_ops@[i] is WriteEnv
    } else if s + m <= i < step_count(plan) {
        plan.commit_ops@[i - s - m] is WriteEnv
    } else {
        false
    }
}

/// Replaying the compensation of an op that succeeded gives back the
/// variables the op found.
proof fn lemma_undo_after(pl: Platform, op: Op, m: Map<Seq<char>, Seq<char>>, c: Compensation)
    requires
        compensates(op, c),
        snapshots_taken(pl, op, m, c),
    ensures
        env_undone(env_after(pl, m, op), c) == m,
{
    match op {
        Op::WriteEnv { deltas } => {
            law_restore_undoes_apply(pl, m, deltas@);
        },
        _ => {},
    }
}

/// Whether `trees` steps through `ops` from its first tree: each op that
/// succeeded turns one tree into the next.
pub open spec fn fs_steps(trees: Seq<Tree>, ops: Seq<Op>) -> bool {
    &&& trees.len() == ops.len() + 1
    &&& forall|i: int| 0 <= i < ops.len() ==> fs_after(trees[i], #[trigger] ops[i], trees[i + 1])
}

/// Whether `after` is the tree a complete run of `plan` leaves behind
/// `before`: the destination's parent is created, the staged ops run, the app
/// directory is moved into place (unless it is there already), and the commit
/// ops run.
pub open spec fn plan_fs(before: Tree, plan: Plan, after: Tree) -> bool {
    exists|staged: Seq<Tree>, commit: Seq<Tree>|
        #![trigger fs_steps(staged, plan.staged_ops@), fs_steps(commit, plan.commit_ops@)]
        fs_steps(staged, plan.staged_ops@) && fs_steps(commit, plan.commit_ops@) && (parent_text(
            plan.dest_dir@,
        ) matches Some(p) && staged[0] == add_dirs(before, path_normals(p))) && commit[0] == (if moves_app(
            plan,
        ) {
            moved(staged.last(), path_key(plan.app_dir@), path_key(plan.dest_dir@))
        } else {
            staged.last()
        }) && after == commit.last()
}

/// Whether a plan runs through against dependable backends: its
/// destination has a parent and every op only writes the environment.
pub open spec fn runs_through(plan: Plan) -> bool {
    &&& parent_text(plan.dest_dir@) is Some
    &&& env_writes_only(plan.staged_ops@)
    &&& env_writes_only(plan.commit_ops@)
}

/// Whether every op of the list writes the environment and nothing else:
/// neither a download, a process nor an archive decides how such ops end.
pub open spec fn env_writes_only(ops: Seq<Op>) -> bool {
    forall|i: int| 0 <= i < ops.len() ==> #[trigger] ops[i] is WriteEnv
}

/// A plan that runs one command step in place, then only writes the
/// environment: what planning the command method yields.
pub open spec fn command_only(plan: Plan) -> bool {
    &&& plan.staged_ops@.len() == 1
    &&& plan.staged_ops@[0] is RunCommand
    &&& plan.app_dir@ == plan.dest_dir@
    &&& env_writes_only(plan.commit_ops@)
}

/// Where a failed command step leaves the tree: the destination's parent
/// and the command's base directory created, nothing else changed.
pub open spec fn command_dirs(t: Tree, plan: Plan, p: Seq<char>) -> Tree {
    add_dirs(add_dirs(t, path_normals(p)), path_normals(plan.staged_ops@[0]->RunCommand_base@))
}

/// Whether `e` is the error of a command step all of whose command lines
/// failed: it names each command with its failure.
pub open spec fn commands_failed(plan: Plan, e: Error) -> bool {
    exists|errs: Seq<Error>|
        errs.len() == plan.staged_ops@[0]->commands@.len() && #[trigger] is_all_failed(
            Err::<(), Error>(e),
            plan.staged_ops@[0]->commands@,
            errs,
        )
}

/// Run the plan's steps, recording the compensation of every step that
/// succeeded: the parent of the destination is created, each staged op is
/// applied (announcing a download's source, any other op's phase), the app
/// directory is moved into place, and each commit op is applied.
///
/// A complete run leaves the variables as the plan's writes make them.
/// Replaying the recorded compensations newest first gives back the
/// variables it started from, unless the run stopped inside an environment
/// write whose own write-back failed (reported as a rollback error). A
/// destination without a parent is refused before any step; against
/// dependable backends a plan that only writes the environment runs through,
/// and a command plan fails only when each of its command lines failed,
/// having recorded nothing and created only directories.
pub fn run_phases<F: Fs, D: Downloader, P: ProcessRunner, E: EnvStore, R: Reporter>(
    plan: &Plan,
    ctx: &mut Ctx<'_, F, D, P, E, R>,
    log: &mut UndoLog,
) -> (r: Result<()>)
    ensures
        exists|cs: Seq<Compensation>|
            #[trigger] undoes_steps(*plan, cs) && final(log).entries() == old(log).entries() + cs
                && (r is Ok ==> cs.len() == step_count(*plan) && final(ctx).env.vars() == plan_env(
                old(ctx).env.platform_of(),
                old(ctx).env.vars(),
                *plan,
            )) && ((r is Ok || !step_writes_env(*plan, cs.len() as int)
                || old(ctx).env.dependable() || (r matches Err(e) && !(e is Rollback)))
                ==> env_rolled_back(final(ctx).env.vars(), cs) == old(ctx).env.vars()),
        r is Ok ==> plan_fs(old(ctx).fs.tree(), *plan, final(ctx).fs.tree()),
        parent_text(plan.dest_dir@) is None ==> (r matches Err(Error::Other(m)) && m@
            == "dest has no parent: "@ + plan.dest_dir@) && final(log).entries() == old(
            log,
        ).entries(),
        old(ctx).fs.dependable() ==> final(ctx).fs.dependable(),
        old(ctx).env.dependable() ==> final(ctx).env.dependable(),
        old(ctx).fs.dependable() && old(ctx).env.dependable() && parent_text(plan.dest_dir@) is Some
            && env_writes_only(plan.staged_ops@) && env_writes_only(plan.commit_ops@) ==> r is Ok,
        final(ctx).env.platform_of() == old(ctx).env.platform_of(),
        old(ctx).fs.dependable() && old(ctx).env.dependable() && command_only(*plan) && parent_text(
            plan.dest_dir@,
        ) is Some && r is Err ==> final(log).entries() == old(log).entries()
            && final(ctx).fs.tree() == command_dirs(old(ctx).fs.tree(), *plan, parent_text(plan.dest_dir@)->0)
            && commands_failed(*plan, r->Err_0),
{
    let ghost start = log.entries();
    let ghost f0 = ctx.fs.tree();
    let ghost m0 = ctx.env.vars();
    let ghost s = plan.staged_ops@.len() as int;
    proof {
        assert(undoes_steps(*plan, Seq::<Compensation>::empty()));
        assert(log.entries() == start + Seq::<Compensation>::empty());
        assert(log.entries().skip(start.len() as int) =~= Seq::<Compensation>::empty());
        assert(plan.staged_ops@.take(0) =~= Seq::<Op>::empty());
    }
    let dest_parent = match parent(plan.dest_dir.as_str()) {
        Some(p) => p,
        None => {
            let mut m = chars_of("dest has no parent: ");
            let d = chars_of(plan.dest_dir.as_str());
            push_all(&mut m, d.as_slice());
            return Err(Error::Other(string_of(m.as_slice())));
        },
    };
    ctx.fs.create_dir_all(dest_parent.as_str())?;
    let ghost mut staged_trees: Seq<Tree> = seq![ctx.fs.tree()];
    let mut i: usize = 0;
    while i < plan.staged_ops.len()
        invariant
            i <= plan.staged_ops@.len(),
            s == plan.staged_ops@.len(),
            undoes_steps(*plan, log.entries().skip(start.len() as int)),
            log.entries().len() == start.len() + i,
            log.entries().take(start.len() as int) == start,
            start == old(log).entries(),
            m0 == old(ctx).env.vars(),
            ctx.env.platform_of() == old(ctx).env.platform_of(),
            old(ctx).fs.dependable() ==> ctx.fs.dependable(),
            old(ctx).env.dependable() ==> ctx.env.dependable(),
            ctx.env.vars() == ops_env(old(ctx).env.platform_of(), m0, plan.staged_ops@.take(i as int)),
            env_rolled_back(ctx.env.vars(), log.entries().skip(start.len() as int)) == m0,
            f0 == old(ctx).fs.tree(),
            parent_text(plan.dest_dir@) matches Some(p) && staged_trees[0] == add_dirs(
                f0,
                path_normals(p),
            ),
            staged_trees.len() == i + 1,
            staged_trees.last() == ctx.fs.tree(),
            forall|k: int|
                0 <= k < i ==> fs_after(
                    staged_trees[k],
                    #[trigger] plan.staged_ops@[k],
                    staged_trees[k + 1],
                ),
        decreases plan.staged_ops@.len() - i,
    {
        let op = &plan.staged_ops[i];
        match op {
            Op::Download { url, .. } => {
                ctx.reporter.report(Progress::DownloadSource { url: url.as_str().to_owned() });
            },
            _ => {
                ctx.reporter.report(Progress::Phase(op_label(op)));
            },
        }
        let ghost before = log.entries();
        let ghost vars = ctx.env.vars();
        let c = match op.apply(ctx) {
            Ok(c) => c,
            Err(e) => {
                proof {
                    assert(log.entries() =~= start + log.entries().skip(start.len() as int));
                    assert(step_writes_env(*plan, i as int) == (op is WriteEnv));
                    if i == 0 {
                        assert(log.entries() =~= start);
                    }
                }
                return Err(e);
            },
        };
        log.push(c);
        proof {
            let prev_trees = staged_trees;
            staged_trees = staged_trees.push(ctx.fs.tree());
            assert forall|k: int| 0 <= k < i + 1 implies fs_after(
                staged_trees[k],
                #[trigger] plan.staged_ops@[k],
                staged_trees[k + 1],
            ) by {
                if k < i {
                    assert(staged_trees[k] == prev_trees[k]);
                    assert(staged_trees[k + 1] == prev_trees[k + 1]);
                }
            }
            let cs = log.entries().skip(start.len() as int);
            assert(cs =~= before.skip(start.len() as int).push(c));
            assert(undoes_step(*plan, i as int, c));
            assert(log.entries().take(start.len() as int) =~= before.take(start.len() as int));
            lemma_undo_after(old(ctx).env.platform_of(), *op, vars, c);
            assert(cs.drop_last() =~= before.skip(start.len() as int));
            let t = plan.staged_ops@.take(i + 1);
            assert(t.drop_last() =~= plan.staged_ops@.take(i as int));
        }
        i = i + 1;
    }
    proof {
        assert(plan.staged_ops@.take(i as int) =~= plan.staged_ops@);
        assert(plan.commit_ops@.take(0) =~= Seq::<Op>::empty());
    }
    let ghost staged_env = ctx.env.vars();
    proof {
        assert(fs_steps(staged_trees, plan.staged_ops@));
    }
    if !str_eq(plan.app_dir.as_str(), plan.dest_dir.as_str()) {
        match ctx.fs.rename(plan.app_dir.as_str(), plan.dest_dir.as_str()) {
            Ok(()) => {},
            Err(e) => {
                proof {
                    assert(log.entries() =~= start + log.entries().skip(start.len() as int));
                }
                return Err(e);
            },
        }
        let ghost before = log.entries();
        let c = Compensation::RemoveDir(plan.dest_dir.clone());
        log.push(c);
        proof {
            let cs = log.entries().skip(start.len() as int);
            assert(cs =~= before.skip(start.len() as int).push(c));
            assert(undoes_step(*plan, s, c));
            assert(log.entries().take(start.len() as int) =~= before.take(start.len() as int));
            assert(cs.drop_last() =~= before.skip(start.len() as int));
        }
    }
    let ghost m: int = if moves_app(*plan) {
        1
    } else {
        0
    };
    let ghost mut commit_trees: Seq<Tree> = seq![ctx.fs.tree()];
    proof {
        assert(commit_trees[0] == (if moves_app(*plan) {
            moved(staged_trees.last(), path_key(plan.app_dir@), path_key(plan.dest_dir@))
        } else {
            staged_trees.last()
        }));
    }
    let mut j: usize = 0;
    while j < plan.commit_ops.len()
        invariant
            j <= plan.commit_ops@.len(),
            s == plan.staged_ops@.len(),
            m == (if moves_app(*plan) {
                1int
            } else {
                0int
            }),
            undoes_steps(*plan, log.entries().skip(start.len() as int)),
            log.entries().len() == start.len() + s + m + j,
            log.entries().take(start.len() as int) == start,
            start == old(log).entries(),
            m0 == old(ctx).env.vars(),
            ctx.env.platform_of() == old(ctx).env.platform_of(),
            staged_env == ops_env(old(ctx).env.platform_of(), m0, plan.staged_ops@),
            old(ctx).fs.dependable() ==> ctx.fs.dependable(),
            old(ctx).env.dependable() ==> ctx.env.dependable(),
            ctx.env.vars() == ops_env(old(ctx).env.platform_of(), staged_env, plan.commit_ops@.take(j as int)),
            env_rolled_back(ctx.env.vars(), log.entries().skip(start.len() as int)) == m0,
            f0 == old(ctx).fs.tree(),
            fs_steps(staged_trees, plan.staged_ops@),
            parent_text(plan.dest_dir@) matches Some(p) && staged_trees[0] == add_dirs(
                f0,
                path_normals(p),
            ),
            commit_trees[0] == (if moves_app(*plan) {
                moved(staged_trees.last(), path_key(plan.app_dir@), path_key(plan.dest_dir@))
            } else {
                staged_trees.last()
            }),
            commit_trees.len() == j + 1,
            commit_trees.last() == ctx.fs.tree(),
            forall|k: int|
                0 <= k < j ==> fs_after(
                    commit_trees[k],
                    #[trigger] plan.commit_ops@[k],
                    commit_trees[k + 1],
                ),
        decreases plan.commit_ops@.len() - j,
    {
        let op = &plan.commit_ops[j];
        ctx.reporter.report(Progress::Phase(op_label(op)));
        let ghost before = log.entries();
        let ghost vars = ctx.env.vars();
        let c = match op.apply(ctx) {
            Ok(c) => c,
            Err(e) => {
                proof {
                    assert(log.entries() =~= start + log.entries().skip(start.len() as int));
                    assert(step_writes_env(*plan, s + m + j) == (op is WriteEnv));
                    if command_only(*plan) {
                        assert(plan.commit_ops@[j as int] is WriteEnv);
                    }
                }
                return Err(e);
            },
        };
        log.push(c);
        proof {
            let prev_trees = commit_trees;
            commit_trees = commit_trees.push(ctx.fs.tree());
            assert forall|k: int| 0 <= k < j + 1 implies fs_after(
                commit_trees[k],
                #[trigger] plan.commit_ops@[k],
                commit_trees[k + 1],
            ) by {
                if k < j {
                    assert(commit_trees[k] == prev_trees[k]);
                    assert(commit_trees[k + 1] == prev_trees[k + 1]);
                }
            }
            let cs = log.entries().skip(start.len() as int);
            assert(cs =~= before.skip(start.len() as int).push(c));
            assert(undoes_step(*plan, s + m + j, c));
            assert(log.entries().take(start.len() as int) =~= before.take(start.len() as int));
            lemma_undo_after(old(ctx).env.platform_of(), *op, vars, c);
            assert(cs.drop_last() =~= before.skip(start.len() as int));
            let t = plan.commit_ops@.take(j + 1);
            assert(t.drop_last() =~= plan.commit_ops@.take(j as int));
        }
        j = j + 1;
    }
    proof {
        assert(log.entries() =~= start + log.entries().skip(start.len() as int));
        assert(plan.commit_ops@.take(j as int) =~= plan.commit_ops@);
        assert(fs_steps(commit_trees, plan.commit_ops@));
        assert(plan_fs(f0, *plan, ctx.fs.tree()));
    }
    Ok(())
}

/// Execute a plan; any failure rolls back and returns the original error
/// (with rollback-failure details attached).
///
/// A leftover staging area is cleared first; the staging area is discarded
/// after the run either way. Against dependable backends a destination
/// without a parent fails with exactly the run's error, and a plan that only
/// writes the environment succeeds. On a dependable filesystem a failed run
/// leaves neither the staging area nor any path a completed step's
/// compensation removes; with a dependable store too, the variables are as
/// they were. Whatever the backends, a failure that reports no rollback
/// error leaves the variables as they were, or (when only discarding the
/// staging area failed after a complete run) as the plan writes them. When a
/// command plan fails against dependable backends, every command line failed:
/// the error names each command with its failure, and the tree differs from
/// the one before only by the directories the run created, so files already
/// under the install directory are kept.
pub fn execute<F: Fs, D: Downloader, P: ProcessRunner, E: EnvStore, R: Reporter>(
    plan: &Plan,
    ctx: &mut Ctx<'_, F, D, P, E, R>,
) -> (r: Result<()>)
    ensures
        r is Ok ==> final(ctx).env.vars() == plan_env(old(ctx).env.platform_of(), old(ctx).env.vars(), *plan),
        r is Ok ==> !final(ctx).fs.tree().contains_key(path_key(plan.staging_dir@)),
        r is Ok ==> exists|t: Tree|
            #[trigger] plan_fs(cleared(old(ctx).fs.tree(), path_key(plan.staging_dir@)), *plan, t)
                && final(ctx).fs.tree() == cleared(t, path_key(plan.staging_dir@)),
        parent_text(plan.dest_dir@) is None && old(ctx).fs.dependable() ==> (r matches Err(
            Error::Other(m),
        ) && m@ == "dest has no parent: "@ + plan.dest_dir@),
        old(ctx).fs.dependable() ==> final(ctx).fs.dependable(),
        old(ctx).env.dependable() ==> final(ctx).env.dependable(),
        old(ctx).fs.dependable() && old(ctx).env.dependable() && parent_text(plan.dest_dir@) is Some
            && env_writes_only(plan.staged_ops@) && env_writes_only(plan.commit_ops@) ==> r is Ok,
        final(ctx).env.platform_of() == old(ctx).env.platform_of(),
        old(ctx).fs.dependable() && old(ctx).env.dependable() && r is Err
            ==> final(ctx).env.vars() == old(ctx).env.vars(),
        r matches Err(e) && !(e is Rollback) ==> final(ctx).env.vars() == old(ctx).env.vars()
            || final(ctx).env.vars() == plan_env(
            old(ctx).env.platform_of(),
            old(ctx).env.vars(),
            *plan,
        ),
        old(ctx).fs.dependable() && old(ctx).env.dependable() && command_only(*plan) && parent_text(
            plan.dest_dir@,
        ) is Some && r is Err ==> commands_failed(*plan, r->Err_0) && final(ctx).fs.tree()
            == cleared(
            command_dirs(
                cleared(old(ctx).fs.tree(), path_key(plan.staging_dir@)),
                *plan,
                parent_text(plan.dest_dir@)->0,
            ),
            path_key(plan.staging_dir@),
        ),
        old(ctx).fs.dependable() && r is Err ==> !final(ctx).fs.tree().contains_key(
            path_key(plan.staging_dir@),
        ) && exists|cs: Seq<Compensation>|
            #[trigger] undoes_steps(*plan, cs) && forall|i: int|
                0 <= i < cs.len() ==> (#[trigger] removed_path(cs[i]) matches Some(p)
                    ==> !final(ctx).fs.tree().contains_key(path_key(p))),
{
    let staging = Staging::from_dir(plan.staging_dir.clone());
    staging.ensure_clean(ctx.fs)?;
    let mut log = UndoLog::new();
    let outcome = run_phases(plan, ctx, &mut log);
    match outcome {
        Ok(()) => {
            let ghost t = ctx.fs.tree();
            staging.abort(ctx.fs)?;
            proof {
                assert(plan_fs(cleared(old(ctx).fs.tree(), path_key(plan.staging_dir@)), *plan, t));
                let k = path_key(plan.staging_dir@);
                assert(k.take(k.len() as int) =~= k);
            }
            Ok(())
        },
        Err(original) => {
            let ghost t = ctx.fs.tree();
            let ghost cs = log.entries();
            proof {
                assert(log.entries() =~= Seq::<Compensation>::empty() + log.entries());
                law_rollback_clears_targets(t, cs);
            }
            let report = log.rollback(ctx.fs, ctx.env);
            let _ = staging.abort(ctx.fs);
            proof {
                let k = path_key(plan.staging_dir@);
                assert(k.take(k.len() as int) =~= k);
                assert(undoes_steps(*plan, cs));
            }
            Err(merge_errors(original, report))
        },
    }
}

/// Execute a plan chain in order until one plan succeeds, announcing each
/// attempt and each failure; the index of the plan that succeeded is
/// returned. When every plan fails, the last failure is the error. Against
/// dependable backends a failed plan hands over to the next one: the chain
/// succeeds no later than its first plan that runs through.
pub fn execute_chain<F: Fs, D: Downloader, P: ProcessRunner, E: EnvStore, R: Reporter>(
    plans: &[Plan],
    ctx: &mut Ctx<'_, F, D, P, E, R>,
) -> (r: Result<usize>)
    ensures
        r matches Ok(i) ==> i < plans@.len(),
        r matches Ok(i) ==> !final(ctx).fs.tree().contains_key(path_key(plans@[i as int].staging_dir@)),
        r matches Ok(i) ==> exists|m: Map<Seq<char>, Seq<char>>|
            final(ctx).env.vars() == #[trigger] plan_env(old(ctx).env.platform_of(), m, plans@[i as int]),
        r == Ok::<usize, Error>(0) ==> final(ctx).env.vars() == plan_env(old(ctx).env.platform_of(), old(ctx).env.vars(), plans@[0]),
        plans@.len() == 0 ==> (r matches Err(Error::Other(m)) && m@ == "no install method to try"@),
        old(ctx).fs.dependable() ==> final(ctx).fs.dependable(),
        old(ctx).env.dependable() ==> final(ctx).env.dependable(),
        final(ctx).env.platform_of() == old(ctx).env.platform_of(),
        old(ctx).fs.dependable() && old(ctx).env.dependable() ==> (r matches Ok(i)
            ==> final(ctx).env.vars() == plan_env(old(ctx).env.platform_of(), old(ctx).env.vars(), plans@[i as int])),
        old(ctx).fs.dependable() && old(ctx).env.dependable() && r is Err ==> final(
            ctx).env.vars() == old(ctx).env.vars(),
        old(ctx).fs.dependable() && old(ctx).env.dependable() ==> forall|k: int|
            0 <= k < plans@.len() && #[trigger] runs_through(plans@[k]) ==> (r matches Ok(i) && i
                <= k),
        plans@.len() > 0 && old(ctx).fs.dependable() && (forall|k: int|
            0 <= k < plans@.len() ==> parent_text(#[trigger] plans@[k].dest_dir@) is None) ==> (r matches Err(
            Error::Other(m),
        ) && m@ == "dest has no parent: "@ + plans@[plans@.len() - 1].dest_dir@),
{
    let total = plans.len();
    if total == 0 {
        return Err(Error::Other("no install method to try".to_owned()));
    }
    let ghost m0 = ctx.env.vars();
    let mut i: usize = 0;
    while i < total
        invariant
            i < total,
            total == plans@.len(),
            i == 0 ==> ctx.env.vars() == m0,
            m0 == old(ctx).env.vars(),
            ctx.env.platform_of() == old(ctx).env.platform_of(),
            old(ctx).fs.dependable() ==> ctx.fs.dependable(),
            old(ctx).env.dependable() ==> ctx.env.dependable(),
            old(ctx).fs.dependable() && old(ctx).env.dependable() ==> ctx.env.vars() == m0,
            old(ctx).fs.dependable() && old(ctx).env.dependable() ==> forall|k: int|
                0 <= k < i ==> !#[trigger] runs_through(plans@[k]),
        decreases total - i,
    {
        ctx.reporter.report(Progress::TryingMethod { index: i + 1, total });
        let ghost before = ctx.env.vars();
        match execute(&plans[i], ctx) {
            Ok(()) => {
                assert(ctx.env.vars() == plan_env(old(ctx).env.platform_of(), before, plans@[i as int]));
                return Ok(i);
            },
            Err(e) => {
                ctx.reporter.report(Progress::MethodFailed { error: e.message() });
                if i + 1 == total {
                    return Err(e);
                }
            },
        }
        i = i + 1;
    }
    Err(Error::Other("no install method to try".to_owned()))
}

} // verus!
