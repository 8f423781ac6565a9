//! Progress reporting during install.
//!
//! The engine only emits [`Progress`] events; how they are rendered is up to
//! the [`Reporter`] implementation (terminal spinner / silent / log). The
//! engine and the display are decoupled, so tests can inject the silent
//! implementation.

use vstd::prelude::*;

verus! {

/// One progress event during an install.
#[derive(Clone, Debug)]
pub enum Progress {
    /// Start of a named phase (extract, write env).
    Phase(&'static str),
    /// A download is starting: pull `url` into the local staging file.
    DownloadSource { url: String },
    /// The install is attempting candidate method `index` of `total`.
    TryingMethod { index: usize, total: usize },
    /// A candidate method failed; the chain moves to the next one.
    MethodFailed { error: String },
    /// An external install command (e.g. a package manager) is being attempted.
    RunningCommand { tool: String },
    /// An external command failed; the command list moves to the next candidate.
    CommandFailed { tool: String, error: String },
    /// Byte progress; `total` is `None` when unknown.
    Bytes { done: u64, total: Option<u64> },
}

/// Pure logical progress bar state, decoupled from terminal rendering.
#[derive(Clone, Copy, Debug, PartialEq, Eq, Structural)]
pub struct ProgressState {
    /// Confirmed total bytes; `None` means unknown (indeterminate progress).
    pub total: Option<u64>,
    /// Bytes downloaded so far; monotonically non-decreasing.
    pub position: u64,
}

/// The fresh state: nothing known, nothing downloaded.
pub open spec fn fresh() -> ProgressState {
    ProgressState { total: None, position: 0 }
}

/// The state after one event: `Bytes` adopts a reported total (keeping the
/// known one otherwise) and moves the position to the larger of the two; any
/// other event starts afresh.
pub open spec fn next_state(s: ProgressState, event: Progress) -> ProgressState {
    match event {
        Progress::Bytes { done, total } => ProgressState {
            total: match total {
                Some(t) => Some(t),
                None => s.total,
            },
            position: if done > s.position {
                done
            } else {
                s.position
            },
        },
        _ => fresh(),
    }
}

impl Default for ProgressState {
    fn default() -> (r: ProgressState)
        ensures
            r == fresh(),
    {
        ProgressState { total: None, position: 0 }
    }
}

impl ProgressState {
    /// Advance state by applying an event: `Bytes` adopts the total and moves
    /// the position monotonically; any other event resets to start fresh.
    pub fn update(self, event: &Progress) -> (r: ProgressState)
        ensures
            r == next_state(self, *event),
    {
        match event {
            Progress::Bytes { done, total } => {
                let t = match total {
                    Some(t) => Some(*t),
                    None => self.total,
                };
                let p = if *done > self.position {
                    *done
                } else {
                    self.position
                };
                ProgressState { total: t, position: p }
            },
            _ => ProgressState { total: None, position: 0 },
        }
    }
}

/// The state after a run of events, applied in order.
pub open spec fn run_events(s: ProgressState, events: Seq<Progress>) -> ProgressState
    decreases events.len(),
{
    if events.len() == 0 {
        s
    } else {
        next_state(run_events(s, events.drop_last()), events.last())
    }
}

/// Byte progress never moves backwards: after a `Bytes` event the position
/// is at least the previous position and at least the reported count.
pub proof fn law_position_monotone(s: ProgressState, done: u64, total: Option<u64>)
    ensures
        next_state(s, Progress::Bytes { done, total }).position >= s.position,
        next_state(s, Progress::Bytes { done, total }).position >= done,
{
}

/// A known total is kept by later `Bytes` events that report none, and a
/// reported total is adopted.
pub proof fn law_total_adopted(s: ProgressState, done: u64, total: Option<u64>)
    ensures
        total is Some ==> next_state(s, Progress::Bytes { done, total }).total == total,
        total is None ==> next_state(s, Progress::Bytes { done, total }).total == s.total,
{
}

/// Any event other than `Bytes` starts afresh.
pub proof fn law_other_events_reset(s: ProgressState, event: Progress)
    requires
        !(event is Bytes),
    ensures
        next_state(s, event) == fresh(),
{
}

/// Whether every event of a run is a `Bytes` event.
pub open spec fn all_bytes(events: Seq<Progress>) -> bool {
    forall|i: int| 0 <= i < events.len() ==> (#[trigger] events[i]) is Bytes
}

/// Over a run of `Bytes` events the position is the largest count seen (or
/// the starting position), so re-entrant reports never regress it.
pub proof fn law_run_position_is_maximum(s: ProgressState, events: Seq<Progress>)
    requires
        all_bytes(events),
    ensures
        run_events(s, events).position >= s.position,
        forall|i: int|
            0 <= i < events.len() ==> run_events(s, events).position >= (#[trigger] events[i])->done,
        run_events(s, events).position == s.position || exists|i: int|
            0 <= i < events.len() && run_events(s, events).position == (#[trigger] events[i])->done,
    decreases events.len(),
{
    if events.len() > 0 {
        let init = events.drop_last();
        assert(all_bytes(init)) by {
            assert forall|i: int| 0 <= i < init.len() implies (#[trigger] init[i]) is Bytes by {
                assert(init[i] == events[i]);
            }
        }
        law_run_position_is_maximum(s, init);
        let last = events.len() - 1;
        assert(events[last] is Bytes);
        assert forall|i: int| 0 <= i < events.len() implies run_events(s, events).position >= (
        #[trigger] events[i])->done by {
            if i < last {
                assert(init[i] == events[i]);
            }
        }
        let p = run_events(s, init).position;
        if run_events(s, events).position != s.position {
            if run_events(s, events).position != events[last]->done {
                assert(run_events(s, events).position == p);
                let w = choose|i: int| 0 <= i < init.len() && p == (#[trigger] init[i])->done;
                assert(init[w] == events[w]);
            }
        }
    }
}

/// The consumer side of progress events.
pub trait Reporter {
    /// Report one progress event.
    fn report(&self, event: Progress);
}

/// A silent implementation that drops every event, for tests and headless use.
pub struct SilentReporter;

impl Reporter for SilentReporter {
    fn report(&self, event: Progress) {
    }
}

} // verus!
