//! Operations and their compensations (the undo actions).
//!
//! Each [`Op::apply`] returns its [`Compensation`]: an action paired with
//! its way out. Compensations are first-class values; rollback replays them
//! in reverse (LIFO) order.

use vstd::prelude::*;

use crate::engine::expand::{expand_template, expanded};
use crate::engine::fs::{add_dirs, cleared, Fs, Node, Tree};
use crate::engine::unpack;
use crate::engine::unpack::{archive_listing, laid_out, written_entries};
use crate::engine::{Ctx, Downloader, ProcessRunner, Url};
use crate::env::laws::{apply_all, restore_lifo, restore_one, snapshots_of};
use crate::env::{apply_deltas, opt_view, snap_views, EnvDelta, EnvStore, EnvVar};
use crate::fs_path::Platform;
use crate::error::{message_text, Error, Result};
use crate::path::{path_key, path_normals};
use crate::plugin::RawCommand;
use crate::report::{Progress, Reporter};
use crate::table::Table;
use crate::text::{chars_of, join_with, push_all, string_of};
use crate::version::Version;

verus! {

/// One executable operation (lazy data, not an action).
#[derive(Clone, Debug)]
pub enum Op {
    /// Download the URL to `to`.
    Download { url: Url, to: String },
    /// Extract the archive at `from` to `to`.
    Unpack { from: String, to: String },
    /// Run the executable at `exe` as a silent installer writing into `base`.
    RunInstaller {
        /// The downloaded installer executable.
        exe: String,
        /// Silent-install arguments (placeholders already expanded).
        args: Vec<String>,
        /// The target install directory.
        base: String,
    },
    /// Apply the deltas to the environment backend.
    WriteEnv { deltas: Vec<EnvDelta> },
    /// Run external install commands in fallback order, writing into `base`.
    RunCommand {
        /// Fully-expanded command lines, tried in order until one succeeds.
        commands: Vec<CommandInvocation>,
        /// The target install directory this run promises to fill.
        base: String,
    },
}

/// One fully-expanded external command line (plan-time data, not an action).
#[derive(Clone, Debug)]
pub struct CommandInvocation {
    /// The program to invoke, resolved via PATH.
    pub tool: String,
    /// Arguments, placeholders already expanded.
    pub args: Vec<String>,
    /// Extra environment variables, layered over the inherited environment.
    pub env: Vec<(String, String)>,
}

/// The views of a list of strings.
pub open spec fn string_views(v: Seq<String>) -> Seq<Seq<char>> {
    v.map_values(|s: String| s@)
}

/// Templates with their placeholders expanded.
pub open spec fn expanded_all(ts: Seq<String>, base: Seq<char>, v: Version, home: Seq<char>) -> Seq<
    Seq<char>,
> {
    ts.map_values(|t: String| expanded(t@, base, v, home))
}

/// Environment templates with their values expanded.
pub open spec fn expanded_env(
    items: Seq<(String, String)>,
    base: Seq<char>,
    v: Version,
    home: Seq<char>,
) -> Seq<(Seq<char>, Seq<char>)> {
    items.map_values(|e: (String, String)| (e.0@, expanded(e.1@, base, v, home)))
}

/// The views of environment pairs.
pub open spec fn pair_views(v: Seq<(String, String)>) -> Seq<(Seq<char>, Seq<char>)> {
    v.map_values(|e: (String, String)| (e.0@, e.1@))
}

/// Whether `c` is the invocation `raw` expands to.
pub open spec fn invocation_of(
    raw: RawCommand,
    base: Seq<char>,
    v: Version,
    home: Seq<char>,
    c: CommandInvocation,
) -> bool {
    &&& c.tool@ == raw.tool@
    &&& string_views(c.args@) == expanded_all(raw.args@, base, v, home)
    &&& pair_views(c.env@) == expanded_env(raw.env.items(), base, v, home)
}

/// The message of one failed command: the tool, then the error.
pub open spec fn failure_line(tool: Seq<char>, e: Error) -> Seq<char> {
    tool + ": "@ + message_text(e)
}

/// The failure lines of the commands tried, in order.
pub open spec fn failure_lines(cmds: Seq<CommandInvocation>, errs: Seq<Error>) -> Seq<Seq<char>>
    recommends
        errs.len() <= cmds.len(),
{
    Seq::new(errs.len(), |i: int| failure_line(cmds[i].tool@, errs[i]))
}

/// Whether `r` is the aggregated failure of `cmds` with errors `errs`.
pub open spec fn is_all_failed(r: Result<()>, cmds: Seq<CommandInvocation>, errs: Seq<Error>) -> bool {
    r matches Err(Error::Process(m)) && m@ == all_failed_text(cmds, errs)
}

/// The error reported when every command failed.
pub open spec fn all_failed_text(cmds: Seq<CommandInvocation>, errs: Seq<Error>) -> Seq<char> {
    "all install commands failed: "@ + join_with(failure_lines(cmds, errs), "; "@)
}

fn expand_list(ts: &Vec<String>, base: &str, version: &Version, home: &str) -> (r: Vec<String>)
    ensures
        string_views(r@) == expanded_all(ts@, base@, *version, home@),
{
    let mut out: Vec<String> = Vec::new();
    let mut i: usize = 0;
    while i < ts.len()
        invariant
            i <= ts@.len(),
            string_views(out@) == expanded_all(ts@.take(i as int), base@, *version, home@),
        decreases ts@.len() - i,
    {
        let ghost prev = string_views(out@);
        let e = expand_template(ts[i].as_str(), base, version, home);
        out.push(e);
        proof {
            assert(string_views(out@) =~= prev.push(e@));
            assert(expanded_all(ts@.take(i + 1), base@, *version, home@) =~= expanded_all(
                ts@.take(i as int),
                base@,
                *version,
                home@,
            ).push(expanded(ts@[i as int]@, base@, *version, home@)));
        }
        i = i + 1;
    }
    assert(ts@.take(ts@.len() as int) =~= ts@);
    out
}

impl CommandInvocation {
    /// Build a fully-expanded invocation from a raw command, substituting
    /// `{base}` (the install directory), `{version}`, `{date}` and `{user}`.
    pub fn from_raw(raw: &RawCommand, base: &str, version: &Version, home: &str) -> (r:
        CommandInvocation)
        ensures
            invocation_of(*raw, base@, *version, home@, r),
    {
        let args = expand_list(&raw.args, base, version, home);
        let items = raw.env.entries();
        let mut env: Vec<(String, String)> = Vec::new();
        let mut i: usize = 0;
        while i < items.len()
            invariant
                i <= items@.len(),
                items@ == raw.env.items(),
                pair_views(env@) == expanded_env(items@.take(i as int), base@, *version, home@),
            decreases items@.len() - i,
        {
            let ghost prev = pair_views(env@);
            let value = expand_template(items[i].1.as_str(), base, version, home);
            let name = items[i].0.clone();
            env.push((name, value));
            proof {
                assert(pair_views(env@) =~= prev.push((name@, value@)));
                assert(expanded_env(items@.take(i + 1), base@, *version, home@) =~= expanded_env(
                    items@.take(i as int),
                    base@,
                    *version,
                    home@,
                ).push((items@[i as int].0@, expanded(items@[i as int].1@, base@, *version, home@))));
            }
            i = i + 1;
        }
        assert(items@.take(items@.len() as int) =~= items@);
        CommandInvocation { tool: raw.tool.clone(), args, env }
    }

    /// Run this invocation on the context's process runner, with its tool,
    /// arguments and environment; a success is one the runner reported for
    /// this tool and these arguments.
    pub fn run<F, D, P: ProcessRunner, E, R>(&self, ctx: &Ctx<'_, F, D, P, E, R>) -> (r: Result<()>)
        ensures
            r is Ok ==> ctx.runner.accepts(self.tool@, string_views(self.args@), pair_views(self.env@)),
    {
        ctx.runner.run_with_env(self.tool.as_str(), self.args.as_slice(), self.env.as_slice())
    }

    /// Run `commands` in order until one succeeds. A missing tool and a
    /// failing command are alike (both surface as an error) and both fall
    /// back to the next candidate; when every command fails the errors are
    /// aggregated into a single process error naming each tool.
    pub fn try_fallback<F, D, P: ProcessRunner, E, R: Reporter>(
        commands: &[CommandInvocation],
        ctx: &Ctx<'_, F, D, P, E, R>,
    ) -> (r: Result<()>)
        ensures
            r is Ok ==> commands@.len() > 0,
            r is Ok ==> exists|i: int|
                0 <= i < commands@.len() && #[trigger] ctx.runner.accepts(
                    commands@[i].tool@,
                    string_views(commands@[i].args@),
                    pair_views(commands@[i].env@),
                ),
            r is Err ==> exists|errs: Seq<Error>|
                errs.len() == commands@.len() && #[trigger] is_all_failed(r, commands@, errs),
    {
        let mut errs: Vec<Error> = Vec::new();
        let mut i: usize = 0;
        while i < commands.len()
            invariant
                i <= commands@.len(),
                errs@.len() == i,
            decreases commands@.len() - i,
        {
            let inv = &commands[i];
            ctx.reporter.report(Progress::RunningCommand { tool: inv.tool.clone() });
            match inv.run(ctx) {
                Ok(()) => {
                    assert(ctx.runner.accepts(
                        commands@[i as int].tool@,
                        string_views(commands@[i as int].args@),
                        pair_views(commands@[i as int].env@),
                    ));
                    return Ok(());
                },
                Err(e) => {
                    let msg = e.message();
                    ctx.reporter.report(Progress::CommandFailed { tool: inv.tool.clone(), error: msg });
                    errs.push(e);
                },
            }
            i = i + 1;
        }
        let res: Result<()> = Err(all_commands_failed(commands, errs.as_slice()));
        assert(is_all_failed(res, commands@, errs@));
        res
    }
}

/// The error reported when every command of `commands` failed, the `i`-th
/// with `errs[i]`: one process error naming each tool with its failure, in
/// order.
pub fn all_commands_failed(commands: &[CommandInvocation], errs: &[Error]) -> (r: Error)
    requires
        errs@.len() == commands@.len(),
    ensures
        r matches Error::Process(m) && m@ == all_failed_text(commands@, errs@),
{
    let mut text = chars_of("all install commands failed: ");
    let mut i: usize = 0;
    while i < errs.len()
        invariant
            i <= errs@.len(),
            errs@.len() == commands@.len(),
            text@ == all_failed_text(commands@.take(i as int), errs@.take(i as int)),
        decreases errs@.len() - i,
    {
        let ghost before = failure_lines(commands@.take(i as int), errs@.take(i as int));
        if i > 0 {
            let sep = chars_of("; ");
            push_all(&mut text, sep.as_slice());
        }
        let tool = chars_of(commands[i].tool.as_str());
        push_all(&mut text, tool.as_slice());
        let colon = chars_of(": ");
        push_all(&mut text, colon.as_slice());
        let msg = errs[i].message();
        let m = chars_of(msg.as_str());
        push_all(&mut text, m.as_slice());
        proof {
            let after = failure_lines(commands@.take(i + 1), errs@.take(i + 1));
            assert(after.drop_last() =~= before);
            assert(after.last() == failure_line(commands@[i as int].tool@, errs@[i as int]));
            if i == 0 {
                assert(after =~= seq![failure_line(commands@[i as int].tool@, errs@[i as int])]);
            }
        }
        i = i + 1;
        assert(text@ =~= all_failed_text(commands@.take(i as int), errs@.take(i as int)));
    }
    assert(commands@.take(commands@.len() as int) =~= commands@);
    assert(errs@.take(errs@.len() as int) =~= errs@);
    Error::Process(string_of(text.as_slice()))
}

/// A snapshot-style compensation for one environment variable.
#[derive(Clone, Debug)]
pub struct RestoreEnv {
    /// Variable name.
    pub name: EnvVar,
    /// Value before apply; `None` means it did not exist (rollback deletes it).
    pub old: Option<String>,
}

/// A compensation: the inverse of an action, replayed LIFO to roll back.
#[derive(Clone, Debug)]
pub enum Compensation {
    /// Delete one file.
    RemoveFile(String),
    /// Recursively delete one directory.
    RemoveDir(String),
    /// Restore a variable's old value.
    RestoreEnv(RestoreEnv),
    /// A group of variable restorations, undone in reverse order.
    Composite(Vec<RestoreEnv>),
    /// No compensation needed.
    Nothing,
}


/// The `(name, value before)` snapshot a restoration writes back.
pub open spec fn restore_view(x: RestoreEnv) -> (Seq<char>, Option<Seq<char>>) {
    (x.name@, opt_view(x.old))
}

/// The snapshots of a group of restorations, in order.
pub open spec fn restore_views(v: Seq<RestoreEnv>) -> Seq<(Seq<char>, Option<Seq<char>>)> {
    v.map_values(|x: RestoreEnv| restore_view(x))
}

/// The variables after a compensation has been replayed: a restoration
/// writes its snapshot back, a group replays its snapshots newest first, and
/// the filesystem compensations leave the variables alone.
pub open spec fn env_undone(m: Map<Seq<char>, Seq<char>>, c: Compensation) -> Map<
    Seq<char>,
    Seq<char>,
> {
    match c {
        Compensation::RestoreEnv(x) => restore_one(m, restore_view(x)),
        Compensation::Composite(parts) => restore_lifo(m, restore_views(parts@)),
        _ => m,
    }
}

/// The tree after a compensation has been replayed: a file compensation
/// removes its file, a directory compensation its directory where it exists,
/// and the environment compensations leave the tree alone.
pub open spec fn fs_undone(t: Tree, c: Compensation) -> Tree {
    match c {
        Compensation::RemoveFile(p) => t.remove(path_key(p@)),
        Compensation::RemoveDir(p) => cleared(t, path_key(p@)),
        _ => t,
    }
}

/// The variables after an op that succeeded: an environment write merges its
/// deltas in order, every other op leaves the variables alone.
pub open spec fn env_after(pl: Platform, m: Map<Seq<char>, Seq<char>>, op: Op) -> Map<Seq<char>, Seq<char>> {
    match op {
        Op::WriteEnv { deltas } => apply_all(pl, m, deltas@),
        _ => m,
    }
}

/// Whether `after` is the tree an op that succeeded leaves behind `before`:
/// a download writes the fetched bytes to its file, an extraction lays the
/// archive it read out under its directory, an installer or command run
/// creates its directory (what the process itself writes is outside the
/// tree), and an environment write leaves the tree alone.
pub open spec fn fs_after(before: Tree, op: Op, after: Tree) -> bool {
    match op {
        Op::Download { to, .. } => exists|bytes: Seq<u8>|
            after == #[trigger] add_dirs(before, path_normals(to@)).insert(
                path_key(to@),
                Node::File(bytes),
            ),
        Op::Unpack { from, to } => before.contains_key(path_key(from@)) && (before[path_key(
            from@,
        )] matches Node::File(d) && archive_listing(d) matches Ok(l) && after == written_entries(
            add_dirs(before, path_normals(to@)),
            to@,
            laid_out(l),
        )),
        Op::RunInstaller { base, .. } => after == add_dirs(before, path_normals(base@)),
        Op::RunCommand { base, .. } => after == add_dirs(before, path_normals(base@)),
        Op::WriteEnv { .. } => after == before,
    }
}

/// Whether the compensation of an environment write holds, for each variable
/// written, the value it had in `m` before the write.
pub open spec fn snapshots_taken(pl: Platform, op: Op, m: Map<Seq<char>, Seq<char>>, c: Compensation) -> bool {
    match op {
        Op::WriteEnv { deltas } => c matches Compensation::Composite(parts) && restore_views(parts@)
            == snapshots_of(pl, m, deltas@),
        _ => true,
    }
}

/// Whether `c` is the compensation of a successful `op`: a download is undone
/// by removing the file, an extraction, installer run or command run by
/// removing its directory, and an environment write by restoring each
/// variable it wrote, in the order written.
pub open spec fn compensates(op: Op, c: Compensation) -> bool {
    match op {
        Op::Download { to, .. } => c matches Compensation::RemoveFile(p) && p@ == to@,
        Op::Unpack { to, .. } => c matches Compensation::RemoveDir(p) && p@ == to@,
        Op::RunInstaller { base, .. } => c matches Compensation::RemoveDir(p) && p@ == base@,
        Op::RunCommand { base, .. } => c matches Compensation::RemoveDir(p) && p@ == base@,
        Op::WriteEnv { deltas } => c matches Compensation::Composite(parts) && parts@.len()
            == deltas@.len() && forall|i: int|
            0 <= i < parts@.len() ==> (#[trigger] parts@[i]).name@ == deltas@[i].name@,
    }
}

impl Op {
    /// Execute the operation and return its compensation.
    ///
    /// A download reports byte progress while streaming; a command run is a
    /// fallback over its command lines and fails with their aggregated errors.
    /// Against dependable backends an environment write always succeeds, and
    /// an extraction of a stored file fails only when the archive cannot be
    /// read.
    pub fn apply<F: Fs, D: Downloader, P: ProcessRunner, E: EnvStore, R: Reporter>(
        &self,
        ctx: &mut Ctx<'_, F, D, P, E, R>,
    ) -> (r: Result<Compensation>)
        ensures
            r matches Ok(c) ==> compensates(*self, c) && snapshots_taken(
                old(ctx).env.platform_of(),
                *self,
                old(ctx).env.vars(),
                c,
            ) && final(ctx).env.vars() == env_after(
                old(ctx).env.platform_of(),
                old(ctx).env.vars(),
                *self,
            ),
            final(ctx).env.platform_of() == old(ctx).env.platform_of(),
            !(self is WriteEnv) ==> final(ctx).env.vars() == old(ctx).env.vars(),
            r matches Err(e) && !(e is Rollback) ==> final(ctx).env.vars() == old(ctx).env.vars(),
            r is Ok ==> fs_after(old(ctx).fs.tree(), *self, final(ctx).fs.tree()),
            old(ctx).fs.dependable() ==> final(ctx).fs.dependable(),
            old(ctx).env.dependable() ==> final(ctx).env.dependable(),
            self is WriteEnv && old(ctx).env.dependable() ==> r is Ok,
            self is Unpack && old(ctx).fs.dependable() && old(ctx).fs.tree().contains_key(
                path_key(self->from@),
            ) && old(ctx).fs.tree()[path_key(self->from@)] is File ==> match archive_listing(
                old(ctx).fs.tree()[path_key(self->from@)]->0,
            ) {
                Ok(_) => r is Ok,
                Err(m) => r matches Err(Error::Archive(x)) && x@ == m,
            },
            self is Download && r is Ok ==> exists|b: Seq<u8>|
                #[trigger] old(ctx).downloader.serves(self->Download_url@, b) && final(ctx).fs.tree()
                    == add_dirs(old(ctx).fs.tree(), path_normals(self->Download_to@)).insert(
                    path_key(self->Download_to@),
                    Node::File(b),
                ),
            self is RunInstaller && old(ctx).fs.dependable() ==> final(ctx).fs.tree() == add_dirs(
                old(ctx).fs.tree(),
                path_normals(self->RunInstaller_base@),
            ),
            self is RunCommand && old(ctx).fs.dependable() ==> final(ctx).fs.tree() == add_dirs(
                old(ctx).fs.tree(),
                path_normals(self->RunCommand_base@),
            ),
            self is RunInstaller && r is Ok ==> old(ctx).runner.accepts(
                self->exe@,
                string_views(self->RunInstaller_args@),
                Seq::empty(),
            ),
            self is RunCommand && r is Ok ==> exists|i: int|
                0 <= i < self->commands@.len() && #[trigger] old(ctx).runner.accepts(
                    self->commands@[i].tool@,
                    string_views(self->commands@[i].args@),
                    pair_views(self->commands@[i].env@),
                ),
            self is RunCommand && old(ctx).fs.dependable() && r is Err ==> exists|errs: Seq<Error>|
                errs.len() == self->commands@.len() && #[trigger] is_all_failed(
                    Err::<(), Error>(r->Err_0),
                    self->commands@,
                    errs,
                ),
    {
        match self {
            Op::Download { url, to } => {
                let reporter = ctx.reporter;
                let bytes = ctx.downloader.fetch(
                    url,
                    &|done: u64, total: Option<u64>| reporter.report(Progress::Bytes { done, total }),
                )?;
                ctx.fs.write(to.as_str(), bytes.as_slice())?;
                Ok(Compensation::RemoveFile(to.clone()))
            },
            Op::Unpack { from, to } => {
                let bytes = ctx.fs.read(from.as_str())?;
                unpack::extract(bytes.as_slice(), to.as_str(), ctx.fs)?;
                Ok(Compensation::RemoveDir(to.clone()))
            },
            Op::RunInstaller { exe, args, base } => {
                ctx.fs.create_dir_all(base.as_str())?;
                ctx.runner.run(exe.as_str(), args.as_slice())?;
                Ok(Compensation::RemoveDir(base.clone()))
            },
            Op::WriteEnv { deltas } => {
                let snapshots = apply_deltas(deltas.as_slice(), ctx.env)?;
                let mut restores: Vec<RestoreEnv> = Vec::new();
                let mut i: usize = 0;
                while i < snapshots.len()
                    invariant
                        i <= snapshots@.len(),
                        snapshots@.len() == deltas@.len(),
                        forall|k: int|
                            0 <= k < deltas@.len() ==> (#[trigger] snapshots@[k]).0@
                                == deltas@[k].name@,
                        restores@.len() == i,
                        forall|k: int|
                            0 <= k < i ==> (#[trigger] restores@[k]).name@ == deltas@[k].name@,
                        restore_views(restores@) == snap_views(snapshots@.take(i as int)),
                    decreases snapshots@.len() - i,
                {
                    let old = match &snapshots[i].1 {
                        Some(v) => Some(v.clone()),
                        None => None,
                    };
                    let ghost prev = restores@;
                    let x = RestoreEnv { name: snapshots[i].0.duplicate(), old };
                    restores.push(x);
                    proof {
                        assert(restores@.drop_last() =~= prev);
                        assert(restore_views(restores@) =~= restore_views(prev).push(restore_view(x)));
                        assert(snapshots@.take(i + 1).drop_last() =~= snapshots@.take(i as int));
                        assert(snap_views(snapshots@.take(i + 1)) =~= snap_views(snapshots@.take(i as int)).push(restore_view(x)));
                    }
                    i = i + 1;
                }
                proof {
                    assert(snapshots@.take(i as int) =~= snapshots@);
                }
                Ok(Compensation::Composite(restores))
            },
            Op::RunCommand { commands, base } => {
                ctx.fs.create_dir_all(base.as_str())?;
                match CommandInvocation::try_fallback(commands.as_slice(), ctx) {
                    Ok(()) => Ok(Compensation::RemoveDir(base.clone())),
                    Err(e) => Err(e),
                }
            },
        }
    }
}

impl RestoreEnv {
    /// Write the old value back, or remove the variable when it had none.
    pub fn undo<E: EnvStore>(&self, env: &mut E) -> (r: Result<()>)
        ensures
            r is Ok ==> final(env).vars() == restore_one(old(env).vars(), restore_view(*self)),
            old(env).dependable() ==> r is Ok && final(env).dependable(),
            final(env).platform_of() == old(env).platform_of(),
    {
        match &self.old {
            Some(value) => env.write(&self.name, value.as_str()),
            None => env.remove(&self.name),
        }
    }
}

impl Compensation {
    /// Replay this compensation. Missing paths are tolerated so a
    /// compensation never causes a secondary failure; a group is replayed in
    /// reverse order and stops at the first failure.
    pub fn undo<F: Fs, E: EnvStore>(&self, fs: &mut F, env: &mut E) -> (r: Result<()>)
        ensures
            r is Ok ==> final(env).vars() == env_undone(old(env).vars(), *self),
            r is Ok ==> final(fs).tree() == fs_undone(old(fs).tree(), *self),
            old(fs).dependable() ==> final(fs).dependable(),
            old(env).dependable() ==> final(env).dependable(),
            final(env).platform_of() == old(env).platform_of(),
            old(env).dependable() ==> final(env).vars() == env_undone(old(env).vars(), *self),
            old(fs).dependable() ==> final(fs).tree() == fs_undone(old(fs).tree(), *self),
            old(env).dependable() && (self is RestoreEnv || self is Composite) ==> r is Ok,
            old(fs).dependable() && (self is RemoveFile || self is RemoveDir) ==> r is Ok,
            self is Nothing ==> r is Ok,
    {
        match self {
            Compensation::RemoveFile(path) => {
                if fs.path_exists(path.as_str())? {
                    fs.remove_file(path.as_str())?;
                } else {
                    assert(fs.tree() =~= fs.tree().remove(path_key(path@)));
                }
                Ok(())
            },
            Compensation::RemoveDir(path) => {
                if fs.path_exists(path.as_str())? {
                    fs.remove_dir_all(path.as_str())?;
                }
                Ok(())
            },
            Compensation::RestoreEnv(restore) => restore.undo(env),
            Compensation::Composite(parts) => {
                let ghost m = env.vars();
                let ghost views = restore_views(parts@);
                let mut i: usize = parts.len();
                proof {
                    assert(views.take(parts@.len() as int) =~= views);
                }
                while i > 0
                    invariant
                        i <= parts@.len(),
                        views == restore_views(parts@),
                        old(env).dependable() ==> env.dependable(),
                        env.platform_of() == old(env).platform_of(),
                        *self == Compensation::Composite(*parts),
                        restore_lifo(env.vars(), views.take(i as int)) == restore_lifo(m, views),
                    decreases i,
                {
                    i = i - 1;
                    let ghost before = env.vars();
                    parts[i].undo(env)?;
                    proof {
                        let t = views.take(i + 1);
                        assert(t.drop_last() =~= views.take(i as int));
                        assert(t.last() == restore_view(parts@[i as int]));
                    }
                }
                proof {
                    assert(views.take(0) =~= Seq::<(Seq<char>, Option<Seq<char>>)>::empty());
                }
                Ok(())
            },
            Compensation::Nothing => Ok(()),
        }
    }
}

} // verus!
