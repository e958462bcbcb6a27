use vstd::prelude::*;
use crate::text::texts;
use crate::utils::{digest_of, path_digest};
use crate::watcher::event::{
    EventPriority, EventView, FsEvent, FsEventKind, ProcessedEvent, RenameMode, views_of,
};
use crate::watcher::tracker::{
    RemoveTracker, RemovedView, RenameCache, fresh, lists_keys, match_key, match_result, orphans,
    record_key,
};

verus! {

/// Default window, in milliseconds, within which a remove and a create of the same
/// inode count as one rename.
pub const RENAME_WINDOW_MS: u64 = 500;

/// What the filesystem says of the first path of an event: the key of its handle,
/// if one could be obtained. Without one the digest of the path is the key.
#[derive(Debug, Clone, Copy)]
pub struct InodeProbe {
    pub handle_key: Option<u64>,
}

/// One plain event per path, each with the kind's own priority.
pub open spec fn plain_events(paths: Seq<Seq<char>>, kind: FsEventKind, now: u64) -> Seq<
    EventView,
> {
    Seq::new(
        paths.len(),
        |i: int| ProcessedEvent::plain_spec(paths[i], kind, kind.priority_spec(), now),
    )
}

/// Mathematical value of the reconstructor: remembered removals and rename sources.
pub ghost struct ReconView {
    pub removed: Map<u64, RemovedView>,
    pub renames: Map<usize, Seq<char>>,
}

/// Outcome of resolving one notification: the next state and the events to queue.
pub ghost struct Resolution {
    pub next: ReconView,
    pub events: Seq<EventView>,
}

/// How one notification is resolved against the reconstructor's state.
pub open spec fn resolve_spec(
    st: ReconView,
    kind: FsEventKind,
    paths: Seq<Seq<char>>,
    tracker: Option<usize>,
    probe: InodeProbe,
    now: u64,
    window: u64,
) -> Resolution {
    let plain = Resolution { next: st, events: plain_events(paths, kind, now) };
    match kind {
        FsEventKind::Remove => if paths.len() == 1 {
            Resolution {
                next: ReconView {
                    removed: st.removed.insert(
                        record_key(probe.handle_key, path_digest(paths[0])),
                        RemovedView { path: paths[0], at: now },
                    ),
                    renames: st.renames,
                },
                events: Seq::empty(),
            }
        } else {
            plain
        },
        FsEventKind::Create => if paths.len() == 1 {
            let next = ReconView {
                removed: st.removed.remove(
                    match_key(st.removed, probe.handle_key, path_digest(paths[0])),
                ),
                renames: st.renames,
            };
            match match_result(
                st.removed,
                probe.handle_key,
                path_digest(paths[0]),
                now,
                window,
            ) {
                Some(old) => Resolution {
                    next,
                    events: seq![
                        ProcessedEvent::rename_spec(old, paths[0], EventPriority::Create, now),
                    ],
                },
                None => Resolution { next, events: plain_events(paths, kind, now) },
            }
        } else {
            plain
        },
        FsEventKind::Rename(RenameMode::Both) | FsEventKind::Rename(RenameMode::Any) => {
            if paths.len() >= 2 {
                Resolution {
                    next: st,
                    events: seq![
                        ProcessedEvent::rename_spec(paths[0], paths[1], EventPriority::Modify, now),
                    ],
                }
            } else {
                Resolution { next: st, events: Seq::empty() }
            }
        },
        FsEventKind::Rename(RenameMode::From) => match tracker {
            Some(id) => if paths.len() >= 1 {
                Resolution {
                    next: ReconView {
                        removed: st.removed,
                        renames: st.renames.insert(id, paths[0]),
                    },
                    events: plain_events(paths, kind, now),
                }
            } else {
                plain
            },
            None => plain,
        },
        FsEventKind::Rename(RenameMode::To) => match tracker {
            Some(id) => if paths.len() >= 1 && st.renames.contains_key(id) {
                Resolution {
                    next: ReconView { removed: st.removed, renames: st.renames.remove(id) },
                    events: seq![
                        ProcessedEvent::rename_spec(
                            st.renames[id],
                            paths[0],
                            EventPriority::Modify,
                            now,
                        ),
                    ],
                }
            } else {
                plain
            },
            None => plain,
        },
        _ => plain,
    }
}

/// A removal followed within the window by a create of the same inode is one
/// rename: the removal alone queues nothing, the create queues a single rename
/// from the removed path to the created one, and the removal is forgotten.
pub proof fn lemma_remove_then_create(
    st: ReconView,
    old_path: Seq<char>,
    new_path: Seq<char>,
    key: u64,
    removed: InodeProbe,
    created: InodeProbe,
    t1: u64,
    t2: u64,
    window: u64,
)
    requires
        record_key(removed.handle_key, path_digest(old_path)) == key,
        created.handle_key == Some(key),
        crate::watcher::debouncer::elapsed(t2, t1) <= window,
    ensures
        ({
            let first = resolve_spec(
                st,
                FsEventKind::Remove,
                seq![old_path],
                None,
                removed,
                t1,
                window,
            );
            let second = resolve_spec(
                first.next,
                FsEventKind::Create,
                seq![new_path],
                None,
                created,
                t2,
                window,
            );
            &&& first.events == Seq::<EventView>::empty()
            &&& second.events == seq![
                ProcessedEvent::rename_spec(old_path, new_path, EventPriority::Create, t2),
            ]
            &&& !second.next.removed.contains_key(key)
            &&& second.next.renames == st.renames
        }),
{
    assert(seq![old_path][0] == old_path);
    assert(seq![new_path][0] == new_path);
}

/// The two halves of a split native rename, tied by their tracker, are one
/// rename: the first half alone is queued as it is, the second queues a single
/// rename from the first path to the second.
pub proof fn lemma_split_rename(
    st: ReconView,
    old_path: Seq<char>,
    new_path: Seq<char>,
    tracker: usize,
    probe: InodeProbe,
    t1: u64,
    t2: u64,
    window: u64,
)
    ensures
        ({
            let from = FsEventKind::Rename(RenameMode::From);
            let first = resolve_spec(st, from, seq![old_path], Some(tracker), probe, t1, window);
            let second = resolve_spec(
                first.next,
                FsEventKind::Rename(RenameMode::To),
                seq![new_path],
                Some(tracker),
                probe,
                t2,
                window,
            );
            &&& first.events == seq![
                ProcessedEvent::plain_spec(old_path, from, EventPriority::Modify, t1),
            ]
            &&& second.events == seq![
                ProcessedEvent::rename_spec(old_path, new_path, EventPriority::Modify, t2),
            ]
            &&& !second.next.renames.contains_key(tracker)
        }),
{
    assert(seq![old_path][0] == old_path);
    assert(seq![new_path][0] == new_path);
    let from = FsEventKind::Rename(RenameMode::From);
    assert(plain_events(seq![old_path], from, t1) =~= seq![
        ProcessedEvent::plain_spec(old_path, from, EventPriority::Modify, t1),
    ]);
}

/// A rename that the notifier delivers whole is queued as one rename, and a
/// flushed rename asks the store to move the file, or the directory's files.
pub proof fn lemma_whole_rename(
    st: ReconView,
    old_path: Seq<char>,
    new_path: Seq<char>,
    probe: InodeProbe,
    now: u64,
    window: u64,
    new_is_dir: bool,
)
    ensures
        ({
            let both = FsEventKind::Rename(RenameMode::Both);
            let r = resolve_spec(st, both, seq![old_path, new_path], None, probe, now, window);
            &&& r.next == st
            &&& r.events == seq![
                ProcessedEvent::rename_spec(old_path, new_path, EventPriority::Modify, now),
            ]
            &&& crate::watcher::store_action_spec(r.events[0], new_is_dir) == Some(
                if new_is_dir {
                    crate::watcher::StoreActionView::RenameDirectory {
                        old: old_path,
                        new: new_path,
                    }
                } else {
                    crate::watcher::StoreActionView::UpdateFilePath {
                        old: old_path,
                        new: new_path,
                    }
                },
            )
        }),
{
    assert(seq![old_path, new_path][0] == old_path);
    assert(seq![old_path, new_path][1] == new_path);
}

/// Turns remove/create pairs and split native renames into single rename events.
pub struct RenameReconstructor {
    tracker: RemoveTracker,
    cache: RenameCache,
}

fn plain_list(paths: &Vec<String>, kind: FsEventKind, now: u64) -> (out: Vec<ProcessedEvent>)
    ensures
        views_of(out@) == plain_events(texts(paths@), kind, now),
{
    let mut out: Vec<ProcessedEvent> = Vec::new();
    let mut i: usize = 0;
    while i < paths.len()
        invariant
            i <= paths.len(),
            out@.len() == i,
            forall|k: int|
                0 <= k < i ==> (#[trigger] out@[k])@ == ProcessedEvent::plain_spec(
                    paths@[k]@,
                    kind,
                    kind.priority_spec(),
                    now,
                ),
        decreases paths.len() - i,
    {
        let e = ProcessedEvent::plain(paths[i].clone(), kind, kind.priority(), now);
        out.push(e);
        i = i + 1;
    }
    assert(views_of(out@) =~= plain_events(texts(paths@), kind, now));
    out
}

fn single(e: ProcessedEvent) -> (out: Vec<ProcessedEvent>)
    ensures
        views_of(out@) == seq![e@],
{
    let mut out: Vec<ProcessedEvent> = Vec::new();
    out.push(e);
    assert(views_of(out@) =~= seq![e@]);
    out
}

fn nothing() -> (out: Vec<ProcessedEvent>)
    ensures
        views_of(out@) == Seq::<EventView>::empty(),
{
    let out: Vec<ProcessedEvent> = Vec::new();
    assert(views_of(out@) =~= Seq::<EventView>::empty());
    out
}

impl View for RenameReconstructor {
    type V = ReconView;

    closed spec fn view(&self) -> ReconView {
        ReconView { removed: self.tracker.entries(), renames: self.cache.entries() }
    }
}

impl RenameReconstructor {
    /// A reconstructor that remembers nothing.
    pub fn new() -> (r: RenameReconstructor)
        ensures
            r@.removed == Map::<u64, RemovedView>::empty(),
            r@.renames == Map::<usize, Seq<char>>::empty(),
    {
        RenameReconstructor { tracker: RemoveTracker::new(), cache: RenameCache::new() }
    }

    /// Number of removals still waiting for a matching create.
    pub fn pending_removes(&self) -> (n: usize)
        ensures
            n == self@.removed.dom().len(),
    {
        self.tracker.len()
    }

    /// Resolves one notification at time `now`. `probe` describes the first path of
    /// the event. Returns the events to hand to the debouncer, in order.
    pub fn resolve(&mut self, event: &FsEvent, probe: InodeProbe, now: u64, window: u64) -> (out:
        Vec<ProcessedEvent>)
        ensures
            final(self)@ == resolve_spec(
                old(self)@,
                event.kind,
                texts(event.paths@),
                event.tracker,
                probe,
                now,
                window,
            ).next,
            views_of(out@) == resolve_spec(
                old(self)@,
                event.kind,
                texts(event.paths@),
                event.tracker,
                probe,
                now,
                window,
            ).events,
    {
        let n = event.paths.len();
        match event.kind {
            FsEventKind::Remove => {
                if n == 1 {
                    self.tracker.record(
                        probe.handle_key,
                        digest_of(event.paths[0].as_str()),
                        event.paths[0].clone(),
                        now,
                    );
                    nothing()
                } else {
                    plain_list(&event.paths, event.kind, now)
                }
            },
            FsEventKind::Create => {
                if n == 1 {
                    match self.tracker.match_create(
                        probe.handle_key,
                        digest_of(event.paths[0].as_str()),
                        now,
                        window,
                    ) {
                        Some(old_p) => single(
                            ProcessedEvent::rename(
                                old_p,
                                event.paths[0].clone(),
                                EventPriority::Create,
                                now,
                            ),
                        ),
                        None => plain_list(&event.paths, event.kind, now),
                    }
                } else {
                    plain_list(&event.paths, event.kind, now)
                }
            },
            FsEventKind::Rename(RenameMode::Both) | FsEventKind::Rename(RenameMode::Any) => {
                if n >= 2 {
                    single(
                        ProcessedEvent::rename(
                            event.paths[0].clone(),
                            event.paths[1].clone(),
                            EventPriority::Modify,
                            now,
                        ),
                    )
                } else {
                    nothing()
                }
            },
            FsEventKind::Rename(RenameMode::From) => {
                match event.tracker {
                    Some(id) => {
                        if n >= 1 {
                            self.cache.insert(id, event.paths[0].clone());
                        }
                    },
                    None => {},
                }
                plain_list(&event.paths, event.kind, now)
            },
            FsEventKind::Rename(RenameMode::To) => {
                let found: Option<String> = match event.tracker {
                    Some(id) => {
                        if n >= 1 {
                            let ghost before = self.cache.entries();
                            let found = self.cache.remove(id);
                            assert(found is None ==> self.cache.entries() =~= before);
                            found
                        } else {
                            None
                        }
                    },
                    None => None,
                };
                match found {
                    Some(old_p) => single(
                        ProcessedEvent::rename(
                            old_p,
                            event.paths[0].clone(),
                            EventPriority::Modify,
                            now,
                        ),
                    ),
                    None => plain_list(&event.paths, event.kind, now),
                }
            },
            _ => plain_list(&event.paths, event.kind, now),
        }
    }

    /// Gives up on every removal older than `window` at `now`: each becomes a delete
    /// event for the debouncer. The order of the events is that in which the map of
    /// removals hands out its keys.
    pub fn flush_expired(&mut self, now: u64, window: u64) -> (out: Vec<ProcessedEvent>)
        ensures
            final(self)@.renames == old(self)@.renames,
            final(self)@.removed == fresh(old(self)@.removed, now, window),
            exists|order: Seq<u64>|
                lists_keys(order, old(self)@.removed) && views_of(out@) == #[trigger] orphans(
                    order,
                    old(self)@.removed,
                    now,
                    window,
                ),
    {
        self.tracker.flush_expired(now, window)
    }
}

} // verus!
