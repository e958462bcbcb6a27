pub mod event;
pub mod debouncer;
pub mod tracker;
pub mod pipeline;

use vstd::prelude::*;
use crate::error::{Error, ErrorView, join2};
use crate::text::texts;
use crate::db::{FileRowView, renamed_row, unique_rows, with_row};
use crate::watcher::debouncer::{
    EventDebouncer, by_priority, distinct_paths, elapsed, merge_in, position, purge,
};
use crate::watcher::event::EventPriority;
use crate::watcher::event::{EventView, FsEvent, ProcessedEvent, views_of};
use crate::watcher::pipeline::{
    InodeProbe, ReconView, RenameReconstructor, resolve_spec, RENAME_WINDOW_MS,
};
use crate::watcher::tracker::{fresh, lists_keys, orphans};

verus! {

/// Tuning knobs of a watcher.
#[derive(Debug, Clone, Copy)]
pub struct WatcherConfig {
    /// Coalescing window in milliseconds.
    pub debounce_ms: u64,
    /// Most notifications drained from the queue in one worker iteration.
    pub batch_size: usize,
    /// Capacity of the bounded queue between notifier and worker.
    pub max_queue_size: usize,
    /// Upper bound, in milliseconds, on the wait for the drain at shutdown.
    pub drain_timeout_ms: u64,
}

impl Default for WatcherConfig {
    fn default() -> (c: Self)
        ensures
            c.debounce_ms == 100,
            c.batch_size == 1_000,
            c.max_queue_size == 100_000,
            c.drain_timeout_ms == 5_000,
    {
        WatcherConfig {
            debounce_ms: 100,
            batch_size: 1_000,
            max_queue_size: 100_000,
            drain_timeout_ms: 5_000,
        }
    }
}

/// Lifecycle state of a watcher.
#[derive(Debug, Clone, Copy, PartialEq, Eq, Structural)]
pub enum WatcherState {
    Initializing,
    Watching,
    Paused,
    ShuttingDown,
    Stopped,
}

/// A lifecycle request.
#[derive(Debug, Clone, Copy, PartialEq, Eq, Structural)]
pub enum Command {
    Start,
    Pause,
    Resume,
    Stop,
}

/// What a stop does next while the worker drains.
#[derive(Debug, Clone, Copy, PartialEq, Eq, Structural)]
pub enum DrainStep {
    /// The worker has finished.
    Done,
    /// The worker is still draining and the timeout has not passed: look again.
    Wait,
    /// The timeout has passed: stop waiting for the worker.
    GiveUp,
}

/// What the worker does in its next iteration.
#[derive(Debug, Clone, Copy, PartialEq, Eq, Structural)]
pub enum WorkerAction {
    /// Sleep briefly and look at the state again.
    Idle,
    /// Drain the queue, expire removals, flush if ready.
    Run,
    /// Leave the loop and drain for the last time.
    Exit,
}

impl WatcherState {
    /// Shutting down or stopped: no way back to watching.
    pub open spec fn is_terminal(self) -> bool {
        self == WatcherState::ShuttingDown || self == WatcherState::Stopped
    }

    /// The state that `cmd` leads to from `self`, or `None` where the request is
    /// illegal. A stop leads to `Stopped` by way of `ShuttingDown`.
    pub open spec fn next(self, cmd: Command) -> Option<WatcherState> {
        match cmd {
            Command::Start => match self {
                WatcherState::Initializing | WatcherState::Paused | WatcherState::Watching => Some(
                    WatcherState::Watching,
                ),
                _ => None,
            },
            Command::Pause => match self {
                WatcherState::Watching | WatcherState::Paused => Some(WatcherState::Paused),
                _ => None,
            },
            Command::Resume => match self {
                WatcherState::Paused | WatcherState::Watching => Some(WatcherState::Watching),
                _ => None,
            },
            Command::Stop => match self {
                WatcherState::ShuttingDown => Some(WatcherState::ShuttingDown),
                _ => Some(WatcherState::Stopped),
            },
        }
    }

    /// The state's name.
    pub open spec fn name_spec(self) -> Seq<char> {
        match self {
            WatcherState::Initializing => "Initializing"@,
            WatcherState::Watching => "Watching"@,
            WatcherState::Paused => "Paused"@,
            WatcherState::ShuttingDown => "ShuttingDown"@,
            WatcherState::Stopped => "Stopped"@,
        }
    }

    /// The state's name, as it appears in messages and in the status report.
    pub fn name(self) -> (s: &'static str)
        ensures
            s@ == self.name_spec(),
    {
        match self {
            WatcherState::Initializing => "Initializing",
            WatcherState::Watching => "Watching",
            WatcherState::Paused => "Paused",
            WatcherState::ShuttingDown => "ShuttingDown",
            WatcherState::Stopped => "Stopped",
        }
    }

    /// What the worker does when it observes this state: it idles while the watcher
    /// is initialising or paused, runs while it watches, and leaves once it shuts
    /// down.
    pub open spec fn worker_action_spec(self) -> WorkerAction {
        match self {
            WatcherState::Paused | WatcherState::Initializing => WorkerAction::Idle,
            WatcherState::ShuttingDown | WatcherState::Stopped => WorkerAction::Exit,
            WatcherState::Watching => WorkerAction::Run,
        }
    }

    /// What the worker does when it observes this state.
    pub fn worker_action(self) -> (a: WorkerAction)
        ensures
            a == self.worker_action_spec(),
    {
        match self {
            WatcherState::Paused | WatcherState::Initializing => WorkerAction::Idle,
            WatcherState::ShuttingDown | WatcherState::Stopped => WorkerAction::Exit,
            WatcherState::Watching => WorkerAction::Run,
        }
    }
}

/// The lifecycle as a whole: starting and resuming a watching watcher, pausing a
/// paused one and stopping a stopped one change nothing; nothing leads out of
/// `Stopped`; and a stop is never refused.
pub proof fn lemma_lifecycle(s: WatcherState, cmd: Command)
    ensures
        WatcherState::Watching.next(Command::Start) == Some(WatcherState::Watching),
        WatcherState::Watching.next(Command::Resume) == Some(WatcherState::Watching),
        WatcherState::Paused.next(Command::Pause) == Some(WatcherState::Paused),
        WatcherState::Stopped.next(Command::Stop) == Some(WatcherState::Stopped),
        s.next(Command::Stop) is Some,
        s.is_terminal() && cmd != Command::Stop ==> s.next(cmd) is None,
        s.is_terminal() && s.next(cmd) is Some ==> s.next(cmd)->0.is_terminal(),
        s.next(cmd) is Some ==> s.next(cmd)->0.next(cmd) == s.next(cmd),
{
}

/// Telemetry of a watcher at one moment.
#[derive(Debug)]
pub struct WatcherStatus {
    pub state: WatcherState,
    pub events_processed: usize,
    pub queue_size: usize,
    /// Milliseconds on the watcher's clock at which it was created.
    pub start_time: Option<u64>,
    pub watched_paths: Vec<String>,
}

/// A store update that a flushed event asks for.
#[derive(Debug)]
pub enum StoreAction {
    UpdateFilePath { old: String, new: String },
    RenameDirectory { old: String, new: String },
}

/// Mathematical value of a [`StoreAction`].
pub ghost enum StoreActionView {
    UpdateFilePath { old: Seq<char>, new: Seq<char> },
    RenameDirectory { old: Seq<char>, new: Seq<char> },
}

impl View for StoreAction {
    type V = StoreActionView;

    open spec fn view(&self) -> StoreActionView {
        match self {
            StoreAction::UpdateFilePath { old, new } => StoreActionView::UpdateFilePath {
                old: old@,
                new: new@,
            },
            StoreAction::RenameDirectory { old, new } => StoreActionView::RenameDirectory {
                old: old@,
                new: new@,
            },
        }
    }
}

/// The value of a store action that may be absent.
pub open spec fn opt_action(o: Option<StoreAction>) -> Option<StoreActionView> {
    match o {
        Some(a) => Some(a@),
        None => None,
    }
}

/// The store update for a flushed event: a rename with both ends known moves a
/// directory's files if the new path is a directory, one file otherwise. Every
/// other event asks for nothing.
pub open spec fn store_action_spec(e: EventView, new_is_dir: bool) -> Option<StoreActionView> {
    if e.kind is Rename && e.old_path is Some && e.new_path is Some {
        if new_is_dir {
            Some(StoreActionView::RenameDirectory { old: e.old_path->0, new: e.new_path->0 })
        } else {
            Some(StoreActionView::UpdateFilePath { old: e.old_path->0, new: e.new_path->0 })
        }
    } else {
        None
    }
}

/// The store update that the flushed event `e` asks for, where `new_is_dir` says
/// whether its new path is a directory on disk.
pub fn store_action(e: &ProcessedEvent, new_is_dir: bool) -> (a: Option<StoreAction>)
    ensures
        opt_action(a) == store_action_spec(e@, new_is_dir),
{
    if !e.kind.is_rename() {
        return None;
    }
    match (&e.old_path, &e.new_path) {
        (Some(old), Some(new)) => {
            if new_is_dir {
                Some(StoreAction::RenameDirectory { old: old.clone(), new: new.clone() })
            } else {
                Some(StoreAction::UpdateFilePath { old: old.clone(), new: new.clone() })
            }
        },
        _ => None,
    }
}

/// Whether a flushed batch asks the store to move the file at `from` to `to`.
pub open spec fn asks_for_move(batch: Seq<EventView>, from: Seq<char>, to: Seq<char>) -> bool {
    exists|j: int|
        0 <= j < batch.len() && (#[trigger] batch[j]).path == from && store_action_spec(
            batch[j],
            false,
        ) == Some(StoreActionView::UpdateFilePath { old: from, new: to })
}

/// A rename that the watcher has detected reaches the store. Once the rename of
/// the file at `from` to `to` is queued, whatever was pending, the next flush
/// hands out an event for `from` that asks for exactly that move; the flush is
/// due as soon as the window has passed; and in a table that holds the file at
/// `from` and none at `to`, the move leaves one row with the path `to`, which has
/// the file's id, and none with the path `from`.
pub proof fn lemma_rename_reaches_store(
    pending: Seq<EventView>,
    from: Seq<char>,
    to: Seq<char>,
    priority: EventPriority,
    at: u64,
    is_dir: bool,
    last_flush: u64,
    window: u64,
    now: u64,
    files: Seq<FileRowView>,
    i: int,
)
    requires
        distinct_paths(pending),
        unique_rows(files),
        0 <= i < files.len(),
        files[i].path == from,
        from != to,
        forall|k: int| 0 <= k < files.len() ==> (#[trigger] files[k]).path != to,
    ensures
        ({
            let rename = ProcessedEvent::rename_spec(from, to, priority, at);
            let queued = merge_in(
                if is_dir {
                    purge(pending, from)
                } else {
                    pending
                },
                rename,
            );
            let row = FileRowView { id: files[i].id, path: to };
            &&& queued.len() > 0
            &&& now >= last_flush + window ==> elapsed(now, last_flush) >= window
            &&& asks_for_move(by_priority(queued), from, to)
            &&& renamed_row(files, from, to) == Some(row)
            &&& with_row(files, row)[i] == row
            &&& forall|k: int|
                0 <= k < files.len() && k != i ==> (#[trigger] with_row(files, row)[k]).path != to
            &&& forall|k: int|
                0 <= k < files.len() ==> (#[trigger] with_row(files, row)[k]).path != from
        }),
{
    let rename = ProcessedEvent::rename_spec(from, to, priority, at);
    let base = if is_dir {
        purge(pending, from)
    } else {
        pending
    };
    crate::watcher::debouncer::lemma_purge_subset(pending, from);
    crate::watcher::debouncer::lemma_position_bounds(base, from);
    let queued = merge_in(base, rename);
    let p = position(base, from);
    let x = queued[p];
    assert(x.path == from && x.kind == rename.kind && x.old_path == Some(from) && x.new_path
        == Some(to));
    assert(store_action_spec(x, false) == Some(
        StoreActionView::UpdateFilePath { old: from, new: to },
    ));
    let batch = by_priority(queued);
    crate::watcher::debouncer::lemma_flush_complete(queued);
    assert(queued.contains(x));
    vstd::seq_lib::to_multiset_contains(queued, x);
    vstd::seq_lib::to_multiset_contains(batch, x);
    assert(batch.contains(x));
    let j = choose|j: int| 0 <= j < batch.len() && batch[j] == x;
    assert(batch[j].path == from);
    crate::db::lemma_file_rename(files, from, to, i);
}

/// A counter after `n` more events, wrapping at the machine's word size.
pub open spec fn counted(count: usize, n: usize) -> usize {
    if count + n <= usize::MAX {
        (count + n) as usize
    } else {
        (count + n - usize::MAX - 1) as usize
    }
}

fn count_up(count: usize, n: usize) -> (r: usize)
    ensures
        r == counted(count, n),
{
    if n <= usize::MAX - count {
        count + n
    } else {
        n - (usize::MAX - count) - 1
    }
}

/// The message of a refused lifecycle request.
pub open spec fn refusal_text(verb: Seq<char>, state: WatcherState) -> Seq<char> {
    "cannot "@ + verb + " from "@ + state.name_spec()
}

fn refusal(verb: &str, state: WatcherState) -> (e: Error)
    ensures
        e@ == ErrorView::InvalidState(refusal_text(verb@, state)),
{
    let a = join2("cannot ", verb);
    let b = join2(a.as_str(), " from ");
    let c = join2(b.as_str(), state.name());
    assert(c@ =~= refusal_text(verb@, state));
    Error::InvalidState(c)
}

/// The state machine and event pipeline of a watcher. It holds no thread and no
/// operating-system handle: its owner feeds it notifications and the time.
pub struct FileWatcher {
    state: WatcherState,
    config: WatcherConfig,
    watched_paths: Vec<String>,
    events_processed: usize,
    start_time: u64,
    has_database: bool,
    debouncer: EventDebouncer,
    recon: RenameReconstructor,
}

impl FileWatcher {
    /// The coalescing window of the debouncer, in milliseconds.
    pub closed spec fn window(&self) -> u64 {
        self.debouncer.window_ms()
    }

    /// The lifecycle state.
    pub closed spec fn state(&self) -> WatcherState {
        self.state
    }

    /// The configuration the watcher was made with.
    pub closed spec fn config(&self) -> WatcherConfig {
        self.config
    }

    /// How many events have been flushed so far, counted modulo the word size.
    pub closed spec fn events_processed(&self) -> usize {
        self.events_processed
    }

    /// Events waiting in the debouncer, in order of first arrival.
    pub closed spec fn pending(&self) -> Seq<EventView> {
        self.debouncer.pending()
    }

    /// The time of the last flush.
    pub closed spec fn last_flush(&self) -> u64 {
        self.debouncer.last_flush_ms()
    }

    /// The state of the rename reconstructor.
    pub closed spec fn recon(&self) -> ReconView {
        self.recon@
    }

    /// Whether a store is attached.
    pub closed spec fn has_database(&self) -> bool {
        self.has_database
    }

    /// The time at which the watcher was made.
    pub closed spec fn start_time(&self) -> u64 {
        self.start_time
    }

    /// The watched paths.
    pub closed spec fn watched(&self) -> Seq<Seq<char>> {
        texts(self.watched_paths@)
    }

    /// Everything but the lifecycle state is the same in `self` and `other`.
    pub open spec fn same_pipeline(&self, other: &FileWatcher) -> bool {
        &&& self.config() == other.config()
        &&& self.window() == other.window()
        &&& self.events_processed() == other.events_processed()
        &&& self.pending() == other.pending()
        &&& self.last_flush() == other.last_flush()
        &&& self.recon() == other.recon()
        &&& self.has_database() == other.has_database()
        &&& self.start_time() == other.start_time()
        &&& self.watched() == other.watched()
    }

    /// Everything but the pipeline's contents is the same in `self` and `other`.
    pub open spec fn same_identity(&self, other: &FileWatcher) -> bool {
        &&& self.config() == other.config()
        &&& self.window() == other.window()
        &&& self.has_database() == other.has_database()
        &&& self.start_time() == other.start_time()
        &&& self.watched() == other.watched()
    }

    /// A watcher over `paths`, created at `now`, in state `Initializing`.
    pub fn new(paths: Vec<String>, config: WatcherConfig, now: u64) -> (w: FileWatcher)
        ensures
            w.window() == config.debounce_ms,
            w.state() == WatcherState::Initializing,
            w.config() == config,
            w.events_processed() == 0,
            w.pending() == Seq::<EventView>::empty(),
            w.last_flush() == now,
            w.start_time() == now,
            !w.has_database(),
            w.watched() == texts(paths@),
            w.recon().removed == Map::<u64, crate::watcher::tracker::RemovedView>::empty(),
            w.recon().renames == Map::<usize, Seq<char>>::empty(),
    {
        FileWatcher {
            state: WatcherState::Initializing,
            config,
            watched_paths: paths,
            events_processed: 0,
            start_time: now,
            has_database: false,
            debouncer: EventDebouncer::new(config.debounce_ms, now),
            recon: RenameReconstructor::new(),
        }
    }

    /// Records that a store is attached, so that flushed renames reach it.
    pub fn with_database(&mut self)
        ensures
            final(self).has_database(),
            final(self).state() == old(self).state(),
            final(self).config() == old(self).config(),
            final(self).window() == old(self).window(),
            final(self).events_processed() == old(self).events_processed(),
            final(self).pending() == old(self).pending(),
            final(self).last_flush() == old(self).last_flush(),
            final(self).recon() == old(self).recon(),
            final(self).start_time() == old(self).start_time(),
            final(self).watched() == old(self).watched(),
    {
        self.has_database = true;
    }

    /// Starts watching: from `Initializing` or `Paused`; a watching watcher stays as
    /// it is; a watcher that shuts down or has stopped refuses.
    pub fn start(&mut self) -> (r: Result<(), Error>)
        ensures
            final(self).same_pipeline(old(self)),
            match old(self).state().next(Command::Start) {
                Some(s) => r is Ok && final(self).state() == s,
                None => r is Err && final(self).state() == old(self).state() && (r->Err_0)@
                    == ErrorView::InvalidState(refusal_text("start"@, old(self).state())),
            },
    {
        match self.state {
            WatcherState::Initializing | WatcherState::Paused => {
                self.state = WatcherState::Watching;
                Ok(())
            },
            WatcherState::Watching => Ok(()),
            _ => Err(refusal("start", self.state)),
        }
    }

    /// Pauses: from `Watching`; a paused watcher stays as it is; any other refuses.
    pub fn pause(&mut self) -> (r: Result<(), Error>)
        ensures
            final(self).same_pipeline(old(self)),
            match old(self).state().next(Command::Pause) {
                Some(s) => r is Ok && final(self).state() == s,
                None => r is Err && final(self).state() == old(self).state() && (r->Err_0)@
                    == ErrorView::InvalidState(refusal_text("pause"@, old(self).state())),
            },
    {
        match self.state {
            WatcherState::Watching => {
                self.state = WatcherState::Paused;
                Ok(())
            },
            WatcherState::Paused => Ok(()),
            _ => Err(refusal("pause", self.state)),
        }
    }

    /// Resumes: from `Paused`; a watching watcher stays as it is; any other refuses.
    pub fn resume(&mut self) -> (r: Result<(), Error>)
        ensures
            final(self).same_pipeline(old(self)),
            match old(self).state().next(Command::Resume) {
                Some(s) => r is Ok && final(self).state() == s,
                None => r is Err && final(self).state() == old(self).state() && (r->Err_0)@
                    == ErrorView::InvalidState(refusal_text("resume"@, old(self).state())),
            },
    {
        match self.state {
            WatcherState::Paused => {
                self.state = WatcherState::Watching;
                Ok(())
            },
            WatcherState::Watching => Ok(()),
            _ => Err(refusal("resume", self.state)),
        }
    }

    /// First half of a stop: enters `ShuttingDown` unless the watcher is already
    /// shutting down or stopped. Returns whether the state changed.
    pub fn begin_stop(&mut self) -> (changed: bool)
        ensures
            final(self).same_pipeline(old(self)),
            changed == !old(self).state().is_terminal(),
            changed ==> final(self).state() == WatcherState::ShuttingDown,
            !changed ==> final(self).state() == old(self).state(),
    {
        match self.state {
            WatcherState::Stopped | WatcherState::ShuttingDown => false,
            _ => {
                self.state = WatcherState::ShuttingDown;
                true
            },
        }
    }

    /// Second half of a stop, the drain: flushes whatever the debouncer still holds,
    /// counts it, and enters `Stopped`.
    pub fn finish_stop(&mut self, now: u64) -> (out: Vec<ProcessedEvent>)
        ensures
            final(self).same_identity(old(self)),
            final(self).state() == WatcherState::Stopped,
            final(self).recon() == old(self).recon(),
            final(self).pending() == Seq::<EventView>::empty(),
            views_of(out@) == by_priority(old(self).pending()),
            out@.len() == old(self).pending().len(),
            final(self).events_processed() == counted(
                old(self).events_processed(),
                old(self).pending().len() as usize,
            ),
            old(self).pending().len() > 0 ==> final(self).last_flush() == now,
            old(self).pending().len() == 0 ==> final(self).last_flush() == old(self).last_flush(),
    {
        let out = if self.debouncer.len() > 0 {
            let batch = self.debouncer.flush(now);
            self.events_processed = count_up(self.events_processed, batch.len());
            batch
        } else {
            let batch: Vec<ProcessedEvent> = Vec::new();
            assert(views_of(batch@) =~= by_priority(self.debouncer.pending()));
            batch
        };
        self.state = WatcherState::Stopped;
        out
    }

    /// Stops the watcher: from any state that is not terminal, through
    /// `ShuttingDown` and the drain to `Stopped`. What the drain flushes comes back,
    /// ordered by priority, so that its renames still reach the store. Stopping
    /// again changes nothing and hands back nothing.
    pub fn stop(&mut self, now: u64) -> (r: Result<Vec<ProcessedEvent>, Error>)
        ensures
            r is Ok,
            views_of((r->Ok_0)@) == if old(self).state().is_terminal() {
                Seq::<EventView>::empty()
            } else {
                by_priority(old(self).pending())
            },
            final(self).same_identity(old(self)),
            final(self).recon() == old(self).recon(),
            final(self).state() == old(self).state().next(Command::Stop)->0,
            old(self).state().is_terminal() ==> final(self).same_pipeline(old(self)),
            !old(self).state().is_terminal() ==> {
                &&& final(self).pending() == Seq::<EventView>::empty()
                &&& final(self).events_processed() == counted(
                    old(self).events_processed(),
                    old(self).pending().len() as usize,
                )
            },
    {
        if self.begin_stop() {
            Ok(self.finish_stop(now))
        } else {
            let none: Vec<ProcessedEvent> = Vec::new();
            assert(views_of(none@) =~= Seq::<EventView>::empty());
            Ok(none)
        }
    }

    /// What a stop does next while it waits for the worker to finish its drain:
    /// nothing more once the worker is done, another look while the wait is
    /// shorter than the configured drain timeout, and no further waiting after
    /// that.
    pub fn drain_step(&self, worker_done: bool, waited_ms: u64) -> (s: DrainStep)
        ensures
            s == if worker_done {
                DrainStep::Done
            } else if waited_ms < self.config().drain_timeout_ms {
                DrainStep::Wait
            } else {
                DrainStep::GiveUp
            },
    {
        if worker_done {
            DrainStep::Done
        } else if waited_ms < self.config.drain_timeout_ms {
            DrainStep::Wait
        } else {
            DrainStep::GiveUp
        }
    }

    /// The watcher's telemetry: state, events processed, events pending, start time
    /// and watched paths.
    pub fn status(&self) -> (r: Result<WatcherStatus, Error>)
        ensures
            r is Ok,
            r->Ok_0.state == self.state(),
            r->Ok_0.events_processed == self.events_processed(),
            r->Ok_0.queue_size == self.pending().len(),
            r->Ok_0.start_time == Some(self.start_time()),
            texts(r->Ok_0.watched_paths@) == self.watched(),
    {
        let mut paths: Vec<String> = Vec::new();
        let mut i: usize = 0;
        while i < self.watched_paths.len()
            invariant
                i <= self.watched_paths.len(),
                paths@.len() == i,
                forall|k: int| 0 <= k < i ==> (#[trigger] paths@[k])@ == self.watched_paths@[k]@,
            decreases self.watched_paths.len() - i,
        {
            paths.push(self.watched_paths[i].clone());
            i = i + 1;
        }
        assert(texts(paths@) =~= texts(self.watched_paths@));
        Ok(
            WatcherStatus {
                state: self.state,
                events_processed: self.events_processed,
                queue_size: self.debouncer.len(),
                start_time: Some(self.start_time),
                watched_paths: paths,
            },
        )
    }

    /// What the worker does next, by the state it observes.
    pub fn worker_action(&self) -> (a: WorkerAction)
        ensures
            a == self.state().worker_action_spec(),
    {
        self.state.worker_action()
    }

    /// Whether the worker has drained as many notifications as one iteration allows.
    pub fn batch_full(&self, drained: usize) -> (full: bool)
        ensures
            full == (drained >= self.config().batch_size),
    {
        drained >= self.config.batch_size
    }

    /// Resolves one notification through the rename reconstructor. The events that
    /// come back are to be queued with [`FileWatcher::queue`].
    pub fn ingest(&mut self, event: &FsEvent, probe: InodeProbe, now: u64) -> (out: Vec<
        ProcessedEvent,
    >)
        ensures
            final(self).same_identity(old(self)),
            final(self).state() == old(self).state(),
            final(self).events_processed() == old(self).events_processed(),
            final(self).pending() == old(self).pending(),
            final(self).last_flush() == old(self).last_flush(),
            final(self).recon() == resolve_spec(
                old(self).recon(),
                event.kind,
                texts(event.paths@),
                event.tracker,
                probe,
                now,
                RENAME_WINDOW_MS,
            ).next,
            views_of(out@) == resolve_spec(
                old(self).recon(),
                event.kind,
                texts(event.paths@),
                event.tracker,
                probe,
                now,
                RENAME_WINDOW_MS,
            ).events,
    {
        self.recon.resolve(event, probe, now, RENAME_WINDOW_MS)
    }

    /// Hands one event to the debouncer. `is_dir` says whether the event's path is a
    /// directory on disk.
    pub fn queue(&mut self, event: ProcessedEvent, is_dir: bool)
        ensures
            final(self).same_identity(old(self)),
            final(self).state() == old(self).state(),
            final(self).events_processed() == old(self).events_processed(),
            final(self).recon() == old(self).recon(),
            final(self).last_flush() == old(self).last_flush(),
            final(self).pending() == merge_in(
                if is_dir {
                    purge(old(self).pending(), event@.path)
                } else {
                    old(self).pending()
                },
                event@,
            ),
            distinct_paths(final(self).pending()),
    {
        self.debouncer.add_event(event, is_dir);
    }

    /// Gives up on removals that no create has matched within the rename window.
    /// The delete events that come back are to be queued.
    pub fn expire(&mut self, now: u64) -> (out: Vec<ProcessedEvent>)
        ensures
            final(self).same_identity(old(self)),
            final(self).state() == old(self).state(),
            final(self).events_processed() == old(self).events_processed(),
            final(self).pending() == old(self).pending(),
            final(self).last_flush() == old(self).last_flush(),
            final(self).recon().renames == old(self).recon().renames,
            final(self).recon().removed == fresh(old(self).recon().removed, now, RENAME_WINDOW_MS),
            exists|order: Seq<u64>|
                lists_keys(order, old(self).recon().removed) && views_of(out@)
                    == #[trigger] orphans(order, old(self).recon().removed, now, RENAME_WINDOW_MS),
    {
        let ghost removed = self.recon@.removed;
        let out = self.recon.flush_expired(now, RENAME_WINDOW_MS);
        proof {
            let order = choose|order: Seq<u64>|
                lists_keys(order, removed) && views_of(out@) == #[trigger] orphans(
                    order,
                    removed,
                    now,
                    RENAME_WINDOW_MS,
                );
            assert(lists_keys(order, old(self).recon().removed));
            assert(views_of(out@) == orphans(
                order,
                old(self).recon().removed,
                now,
                RENAME_WINDOW_MS,
            ));
        }
        out
    }

    /// Whether a flush is due at `now`: the window has passed since the last flush
    /// and something is pending.
    pub open spec fn flush_due(&self, now: u64) -> bool {
        elapsed(now, self.last_flush()) >= self.window() && self.pending().len() > 0
    }

    /// Flushes the debouncer if a flush is due, and counts what was flushed.
    /// Otherwise nothing changes and nothing comes back.
    pub fn flush_if_ready(&mut self, now: u64) -> (out: Vec<ProcessedEvent>)
        ensures
            final(self).same_identity(old(self)),
            final(self).state() == old(self).state(),
            final(self).recon() == old(self).recon(),
            old(self).flush_due(now) ==> {
                &&& views_of(out@) == by_priority(old(self).pending())
                &&& out@.len() == old(self).pending().len()
                &&& final(self).pending() == Seq::<EventView>::empty()
                &&& final(self).last_flush() == now
                &&& final(self).events_processed() == counted(
                    old(self).events_processed(),
                    old(self).pending().len() as usize,
                )
            },
            !old(self).flush_due(now) ==> {
                &&& out@.len() == 0
                &&& final(self).pending() == old(self).pending()
                &&& final(self).last_flush() == old(self).last_flush()
                &&& final(self).events_processed() == old(self).events_processed()
            },
    {
        if self.debouncer.is_ready_to_flush(now) && self.debouncer.len() > 0 {
            let batch = self.debouncer.flush(now);
            self.events_processed = count_up(self.events_processed, batch.len());
            batch
        } else {
            Vec::new()
        }
    }

    /// Whether flushed renames are to be applied to a store.
    pub fn store_attached(&self) -> (b: bool)
        ensures
            b == self.has_database(),
    {
        self.has_database
    }
}

} // verus!
