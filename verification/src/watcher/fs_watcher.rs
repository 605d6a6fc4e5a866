//! Decisions of the log watcher: which file events matter, and when the report
//! is to be written again.
use vstd::prelude::*;
use std::path::PathBuf;

verus! {

#[verifier::external_type_specification]
#[verifier::external_body]
pub struct ExPathBuf(PathBuf);

/// Watches a training log and rewrites the report when it changes.
pub struct FileWatcher {
    csv_path: PathBuf,
    output_path: PathBuf,
}

impl FileWatcher {
    /// A watcher of the log at `csv_path` that writes its report to `output_path`.
    pub fn new(csv_path: PathBuf, output_path: PathBuf) -> (r: FileWatcher)
        ensures
            r.csv_path() == csv_path,
            r.output_path() == output_path,
    {
        FileWatcher { csv_path, output_path }
    }

    pub closed spec fn csv_path(&self) -> PathBuf {
        self.csv_path
    }

    pub closed spec fn output_path(&self) -> PathBuf {
        self.output_path
    }

    /// The log that is watched.
    pub fn csv_file(&self) -> (r: &PathBuf)
        ensures
            *r == self.csv_path(),
    {
        &self.csv_path
    }

    /// Where the report is written.
    pub fn output_file(&self) -> (r: &PathBuf)
        ensures
            *r == self.output_path(),
    {
        &self.output_path
    }
}

/// What the watcher asks of its driver.
#[derive(Debug, Clone, Copy, PartialEq, Eq, Structural)]
pub enum WatchEvent {
    /// The log changed since the report was last written: write it again.
    FileChanged,
    /// Stop watching.
    Shutdown,
}

/// A file's modification time, as time elapsed since the Unix epoch.
#[derive(Debug, Clone, Copy, PartialEq, Eq, Structural)]
pub struct FileTime {
    pub secs: u64,
    pub nanos: u32,
}

/// `a` is strictly later than `b`.
pub open spec fn later(a: FileTime, b: FileTime) -> bool {
    a.secs > b.secs || (a.secs == b.secs && a.nanos > b.nanos)
}

/// What the driver of the watcher observed.
#[derive(Debug, Clone, Copy, PartialEq, Eq, Structural)]
pub enum WatchInput {
    /// The watched log now carries this modification time.
    Modified(FileTime),
    /// The debounce interval elapsed.
    Tick,
    /// The user asked to stop.
    Interrupt,
}

/// The watcher's memory between observations: the newest modification time
/// acted on, and whether a report is owed.
#[derive(Debug, Clone, Copy, PartialEq, Eq, Structural)]
pub struct WatchState {
    pub last_modified: FileTime,
    pub pending_update: bool,
}

/// The state before any observation: the epoch, nothing owed.
pub open spec fn initial_state() -> WatchState {
    WatchState { last_modified: FileTime { secs: 0, nanos: 0 }, pending_update: false }
}

/// One decision: a newer modification time is remembered and makes a report
/// owed (an older or equal one changes nothing); a tick asks for the owed
/// report, if any, and clears the debt; an interrupt asks to stop.
pub open spec fn next(s: WatchState, input: WatchInput) -> (WatchState, Option<WatchEvent>) {
    match input {
        WatchInput::Modified(t) => if later(t, s.last_modified) {
            (WatchState { last_modified: t, pending_update: true }, None)
        } else {
            (s, None)
        },
        WatchInput::Tick => if s.pending_update {
            (WatchState { pending_update: false, ..s }, Some(WatchEvent::FileChanged))
        } else {
            (s, None)
        },
        WatchInput::Interrupt => (s, Some(WatchEvent::Shutdown)),
    }
}

impl WatchState {
    /// The state before any observation.
    pub fn new() -> (r: WatchState)
        ensures
            r == initial_state(),
    {
        WatchState { last_modified: FileTime { secs: 0, nanos: 0 }, pending_update: false }
    }

    /// Takes one observation into account and says what to do, if anything.
    pub fn step(&mut self, input: WatchInput) -> (r: Option<WatchEvent>)
        ensures
            (*final(self), r) == next(*old(self), input),
    {
        match input {
            WatchInput::Modified(t) => {
                let newer = t.secs > self.last_modified.secs || (t.secs
                    == self.last_modified.secs && t.nanos > self.last_modified.nanos);
                if newer {
                    self.last_modified = t;
                    self.pending_update = true;
                }
                None
            },
            WatchInput::Tick => {
                if self.pending_update {
                    self.pending_update = false;
                    Some(WatchEvent::FileChanged)
                } else {
                    None
                }
            },
            WatchInput::Interrupt => Some(WatchEvent::Shutdown),
        }
    }
}

/// A path's file name, where it has one, is `target`.
pub open spec fn is_named(name: Option<String>, target: Seq<char>) -> bool {
    match name {
        Some(n) => n@ == target,
        None => false,
    }
}

/// Some path of the event has the watched file's name.
pub open spec fn names_watched_file(names: Seq<Option<String>>, target: Seq<char>) -> bool {
    exists|i: int| 0 <= i < names.len() && #[trigger] is_named(names[i], target)
}

/// Whether a file-system event concerns the watched log: one of its paths has
/// the log's file name (`names` holds each path's file name, where it has
/// one), and the event is a modification or a creation.
pub fn is_relevant_event(
    names: &Vec<Option<String>>,
    target: &String,
    is_modify: bool,
    is_create: bool,
) -> (r: bool)
    ensures
        r == (names_watched_file(names@, target@) && (is_modify || is_create)),
{
    let mut found = false;
    let mut i: usize = 0;
    while i < names.len()
        invariant
            i <= names@.len(),
            found == names_watched_file(names@.subrange(0, i as int), target@),
        decreases names@.len() - i,
    {
        let ghost before = names@.subrange(0, i as int);
        let ghost after = names@.subrange(0, i + 1);
        let hit = match &names[i] {
            Some(n) => n.eq(target),
            None => false,
        };
        proof {
            if found {
                let k = choose|k: int| 0 <= k < before.len() && #[trigger] is_named(before[k], target@);
                assert(after[k] == before[k]);
            }
            if hit {
                assert(after[i as int] == names@[i as int]);
                assert(is_named(after[i as int], target@));
            }
            if names_watched_file(after, target@) {
                let k = choose|k: int| 0 <= k < after.len() && #[trigger] is_named(after[k], target@);
                if k < i {
                    assert(before[k] == after[k]);
                }
            }
        }
        found = found || hit;
        i = i + 1;
    }
    assert(names@.subrange(0, names@.len() as int) =~= names@);
    found && (is_modify || is_create)
}

/// The newest modification time acted on never goes back, whatever is observed.
pub proof fn lemma_last_modified_never_decreases(s: WatchState, input: WatchInput)
    ensures
        !later(s.last_modified, next(s, input).0.last_modified),
{
}

/// A report is asked for at most once per change: right after a tick, a second
/// tick asks for nothing.
pub proof fn lemma_one_report_per_change(s: WatchState)
    ensures
        next(next(s, WatchInput::Tick).0, WatchInput::Tick).1 is None,
{
}

/// Only a tick that follows a newer modification time asks for a report: after
/// a tick, only an observed newer time makes the next tick ask again.
pub proof fn lemma_report_needs_newer_time(s: WatchState, t: FileTime)
    requires
        !s.pending_update,
    ensures
        (next(next(s, WatchInput::Modified(t)).0, WatchInput::Tick).1 == Some(
            WatchEvent::FileChanged,
        )) == later(t, s.last_modified),
{
}

/// A modification time that is not newer than the remembered one changes
/// nothing, whether or not a report is owed.
pub proof fn lemma_stale_time_changes_nothing(s: WatchState, t: FileTime)
    requires
        !later(t, s.last_modified),
    ensures
        next(s, WatchInput::Modified(t)) == (s, Option::<WatchEvent>::None),
{
}

/// A newer modification time is remembered and makes a report owed, without
/// asking for anything yet.
pub proof fn lemma_newer_time_owes_report(s: WatchState, t: FileTime)
    requires
        later(t, s.last_modified),
    ensures
        next(s, WatchInput::Modified(t)).0 == (WatchState { last_modified: t, pending_update: true }),
        next(s, WatchInput::Modified(t)).1 is None,
{
}

/// A report that is owed stays owed until a tick, and the tick asks for it,
/// keeps the remembered time and clears the debt.
pub proof fn lemma_owed_report_kept_until_tick(s: WatchState, input: WatchInput)
    requires
        s.pending_update,
    ensures
        input != WatchInput::Tick ==> next(s, input).0.pending_update,
        next(s, WatchInput::Tick) == (
            WatchState { last_modified: s.last_modified, pending_update: false },
            Some(WatchEvent::FileChanged),
        ),
{
}

/// Without an owed report a tick asks for nothing and changes nothing; an
/// interrupt always asks to stop and changes nothing.
pub proof fn lemma_quiet_tick_and_interrupt(s: WatchState)
    ensures
        !s.pending_update ==> next(s, WatchInput::Tick) == (s, Option::<WatchEvent>::None),
        next(s, WatchInput::Interrupt) == (s, Some(WatchEvent::Shutdown)),
{
}

} // verus!
