use vstd::prelude::*;
use std::collections::HashMap;
use crate::text::opt_text;
use crate::watcher::debouncer::elapsed;
use crate::watcher::event::{EventPriority, EventView, FsEventKind, ProcessedEvent, views_of};

verus! {

/// A removed path with the time of its removal.
pub struct Removed {
    pub path: String,
    pub at: u64,
}

/// Mathematical value of a [`Removed`].
pub ghost struct RemovedView {
    pub path: Seq<char>,
    pub at: u64,
}

impl View for Removed {
    type V = RemovedView;

    open spec fn view(&self) -> RemovedView {
        RemovedView { path: self.path@, at: self.at }
    }
}

/// Whether a removal remembered at `at` has outlived `window` at time `now`.
pub open spec fn expired(now: u64, at: u64, window: u64) -> bool {
    elapsed(now, at) > window
}

/// The removals that are still within `window` at `now`.
pub open spec fn fresh(m: Map<u64, RemovedView>, now: u64, window: u64) -> Map<u64, RemovedView> {
    Map::new(|k: u64| m.contains_key(k) && !expired(now, m[k].at, window), |k: u64| m[k])
}

/// The delete event that stands for an orphaned removal.
pub open spec fn orphan_event(e: RemovedView) -> EventView {
    EventView {
        path: e.path,
        old_path: None,
        new_path: None,
        kind: FsEventKind::Remove,
        priority: EventPriority::Delete,
        timestamp: e.at,
    }
}

/// Whether `order` lists every key of `m` once, and nothing else.
pub open spec fn lists_keys(order: Seq<u64>, m: Map<u64, RemovedView>) -> bool {
    &&& order.no_duplicates()
    &&& forall|k: u64| order.contains(k) <==> m.contains_key(k)
}

/// Delete events for the removals among `order` that have outlived `window` at
/// `now`, in that order.
pub open spec fn orphans(order: Seq<u64>, m: Map<u64, RemovedView>, now: u64, window: u64) -> Seq<
    EventView,
>
    decreases order.len(),
{
    if order.len() == 0 {
        Seq::empty()
    } else if m.contains_key(order.last()) && expired(now, m[order.last()].at, window) {
        orphans(order.drop_last(), m, now, window).push(orphan_event(m[order.last()]))
    } else {
        orphans(order.drop_last(), m, now, window)
    }
}

/// The keys among `order` whose removals have outlived `window` at `now`.
pub open spec fn expired_keys(order: Seq<u64>, m: Map<u64, RemovedView>, now: u64, window: u64)
    -> Seq<u64>
    decreases order.len(),
{
    if order.len() == 0 {
        Seq::empty()
    } else if m.contains_key(order.last()) && expired(now, m[order.last()].at, window) {
        expired_keys(order.drop_last(), m, now, window).push(order.last())
    } else {
        expired_keys(order.drop_last(), m, now, window)
    }
}

/// The key under which a create looks for its removal: the handle's key if a
/// removal is remembered under it, the key derived from the path otherwise.
pub open spec fn match_key(m: Map<u64, RemovedView>, handle_key: Option<u64>, path_key: u64) -> u64 {
    match handle_key {
        Some(k) => if m.contains_key(k) {
            k
        } else {
            path_key
        },
        None => path_key,
    }
}

/// The old path that a create at `now` is paired with, if any.
pub open spec fn match_result(
    m: Map<u64, RemovedView>,
    handle_key: Option<u64>,
    path_key: u64,
    now: u64,
    window: u64,
) -> Option<Seq<char>> {
    let key = match_key(m, handle_key, path_key);
    if m.contains_key(key) && elapsed(now, m[key].at) <= window {
        Some(m[key].path)
    } else {
        None
    }
}

/// The key under which a removal is remembered: the handle's key where the handle
/// could be obtained, the key derived from the path otherwise.
pub open spec fn record_key(handle_key: Option<u64>, path_key: u64) -> u64 {
    match handle_key {
        Some(k) => k,
        None => path_key,
    }
}

/// The expired keys of an order are the keys in it whose removals have outlived
/// the window, one for each delete event.
pub proof fn lemma_expired_keys(order: Seq<u64>, m: Map<u64, RemovedView>, now: u64, window: u64)
    ensures
        forall|k: u64|
            expired_keys(order, m, now, window).contains(k) <==> order.contains(k)
                && m.contains_key(k) && expired(now, m[k].at, window),
        expired_keys(order, m, now, window).len() == orphans(order, m, now, window).len(),
        expired_keys(order, m, now, window).len() <= order.len(),
    decreases order.len(),
{
    if order.len() > 0 {
        let t = order.drop_last();
        lemma_expired_keys(t, m, now, window);
        let r = expired_keys(order, m, now, window);
        let rt = expired_keys(t, m, now, window);
        assert forall|k: u64|
            r.contains(k) <==> order.contains(k) && m.contains_key(k) && expired(
                now,
                m[k].at,
                window,
            ) by {
            if r.contains(k) {
                let i = choose|i: int| 0 <= i < r.len() && r[i] == k;
                if i < rt.len() {
                    assert(rt[i] == k);
                    assert(rt.contains(k));
                    assert(t.contains(k));
                    let j = choose|j: int| 0 <= j < t.len() && t[j] == k;
                    assert(order[j] == k);
                } else {
                    assert(order[order.len() - 1] == k);
                }
            }
            if order.contains(k) && m.contains_key(k) && expired(now, m[k].at, window) {
                let j = choose|j: int| 0 <= j < order.len() && order[j] == k;
                if j < t.len() {
                    assert(t[j] == k);
                    assert(t.contains(k));
                    let i = choose|i: int| 0 <= i < rt.len() && rt[i] == k;
                    assert(r[i] == k);
                } else {
                    assert(r[r.len() - 1] == k);
                }
            }
        }
    }
}

/// Giving up on stale removals turns each of them into one delete event and
/// nothing else: every removal that has outlived the window gets its event, and
/// every event is that of such a removal.
pub proof fn lemma_orphans(order: Seq<u64>, m: Map<u64, RemovedView>, now: u64, window: u64)
    ensures
        forall|k: u64|
            order.contains(k) && m.contains_key(k) && expired(now, m[k].at, window) ==> orphans(
                order,
                m,
                now,
                window,
            ).contains(orphan_event(#[trigger] m[k])),
        forall|i: int|
            0 <= i < orphans(order, m, now, window).len() ==> stands_for_orphan(
                #[trigger] orphans(order, m, now, window)[i],
                m,
                now,
                window,
            ),
        orphans(order, m, now, window).len() <= order.len(),
    decreases order.len(),
{
    if order.len() > 0 {
        let t = order.drop_last();
        lemma_orphans(t, m, now, window);
        let r = orphans(order, m, now, window);
        let rt = orphans(t, m, now, window);
        assert forall|k: u64|
            order.contains(k) && m.contains_key(k) && expired(
                now,
                m[k].at,
                window,
            ) implies r.contains(orphan_event(#[trigger] m[k])) by {
            let j = choose|j: int| 0 <= j < order.len() && order[j] == k;
            if j < t.len() {
                assert(t[j] == k);
                assert(t.contains(k));
                let i = choose|i: int| 0 <= i < rt.len() && rt[i] == orphan_event(m[k]);
                assert(r[i] == orphan_event(m[k]));
            } else {
                assert(r[r.len() - 1] == orphan_event(m[k]));
            }
        }
        assert forall|i: int| 0 <= i < r.len() implies stands_for_orphan(
            #[trigger] r[i],
            m,
            now,
            window,
        ) by {
            if i < rt.len() {
                assert(r[i] == rt[i]);
            } else {
                assert(r[i] == orphan_event(m[order.last()]));
            }
        }
    }
}

/// Whether `e` is the delete event of a removal that has outlived the window.
pub open spec fn stands_for_orphan(e: EventView, m: Map<u64, RemovedView>, now: u64, window: u64)
    -> bool {
    exists|k: u64|
        m.contains_key(k) && expired(now, m[k].at, window) && e == orphan_event(#[trigger] m[k])
}

/// Whether `entries` is what is left of `before` once the keys in `done` are
/// forgotten.
pub open spec fn left_after(
    entries: Map<u64, RemovedView>,
    before: Map<u64, RemovedView>,
    done: Seq<u64>,
) -> bool {
    &&& forall|k: u64| #[trigger]
        entries.contains_key(k) <==> before.contains_key(k) && !done.contains(k)
    &&& forall|k: u64| #[trigger] entries.contains_key(k) ==> entries[k] == before[k]
}

/// Forgetting one more key leaves what was left without that key.
pub proof fn lemma_left_after(
    entries: Map<u64, RemovedView>,
    before: Map<u64, RemovedView>,
    done: Seq<u64>,
    key: u64,
)
    requires
        left_after(entries, before, done),
    ensures
        left_after(entries.remove(key), before, done.push(key)),
{
    let next = entries.remove(key);
    let more = done.push(key);
    assert forall|k: u64| #[trigger]
        next.contains_key(k) <==> before.contains_key(k) && !more.contains(k) by {
        assert(entries.contains_key(k) <==> before.contains_key(k) && !done.contains(k));
        assert(more[more.len() - 1] == key);
        if done.contains(k) {
            let j = choose|j: int| 0 <= j < done.len() && done[j] == k;
            assert(more[j] == k);
        }
        if more.contains(k) && k != key {
            let j = choose|j: int| 0 <= j < more.len() && more[j] == k;
            assert(done[j] == k);
        }
    }
    assert forall|k: u64| #[trigger] next.contains_key(k) implies next[k] == before[k] by {
        assert(entries.contains_key(k));
    }
}

/// Remembers removed paths under an inode-like key so that a later create of the
/// same inode can be recognised as the second half of a rename.
pub struct RemoveTracker {
    map: HashMap<u64, Removed>,
}

impl RemoveTracker {
    /// The remembered removals, each under its key.
    pub closed spec fn entries(&self) -> Map<u64, RemovedView> {
        Map::new(|k: u64| self.map@.contains_key(k), |k: u64| self.map@[k]@)
    }

    /// A tracker that remembers nothing.
    pub fn new() -> (t: RemoveTracker)
        ensures
            t.entries() == Map::<u64, RemovedView>::empty(),
    {
        let t = RemoveTracker { map: HashMap::new() };
        assert(t.entries() =~= Map::<u64, RemovedView>::empty());
        t
    }

    /// The number of remembered entries.
    pub fn len(&self) -> (n: usize)
        ensures
            n == self.entries().dom().len(),
    {
        broadcast use vstd::std_specs::hash::group_hash_axioms;

        assert(self.entries().dom() =~= self.map@.dom());
        self.map.len()
    }

    /// Remembers that `path` was removed at `now`, under the handle's key where the
    /// handle could be obtained and under the key derived from the path otherwise.
    /// An earlier removal under the same key is forgotten.
    pub fn record(&mut self, handle_key: Option<u64>, path_key: u64, path: String, now: u64)
        ensures
            final(self).entries() == old(self).entries().insert(
                record_key(handle_key, path_key),
                RemovedView { path: path@, at: now },
            ),
    {
        broadcast use vstd::std_specs::hash::group_hash_axioms;

        let key: u64 = match handle_key {
            Some(k) => k,
            None => path_key,
        };
        let _ = self.map.insert(key, Removed { path, at: now });
        assert(self.entries() =~= old(self).entries().insert(
            key,
            RemovedView { path: path@, at: now },
        ));
    }

    /// Looks for a remembered removal that a create at `now` completes into a rename.
    /// The handle's key is tried first, then the key derived from the path. The
    /// removal found is forgotten; its path is returned only if it is at most
    /// `window` old.
    pub fn match_create(
        &mut self,
        handle_key: Option<u64>,
        path_key: u64,
        now: u64,
        window: u64,
    ) -> (old_path: Option<String>)
        ensures
            final(self).entries() == old(self).entries().remove(
                match_key(old(self).entries(), handle_key, path_key),
            ),
            opt_text(old_path) == match_result(
                old(self).entries(),
                handle_key,
                path_key,
                now,
                window,
            ),
    {
        broadcast use vstd::std_specs::hash::group_hash_axioms;

        let key: u64 = match handle_key {
            Some(k) => {
                if self.map.contains_key(&k) {
                    k
                } else {
                    path_key
                }
            },
            None => path_key,
        };
        let found = self.map.remove(&key);
        assert(self.entries() =~= old(self).entries().remove(key));
        match found {
            Some(removed) => {
                let waited: u64 = if now >= removed.at {
                    now - removed.at
                } else {
                    0
                };
                if waited <= window {
                    Some(removed.path)
                } else {
                    None
                }
            },
            None => None,
        }
    }

    /// Forgets every removal that has outlived `window` at `now` and returns one
    /// delete event for each. The events come in the order in which the map hands
    /// out its keys, which is not fixed.
    pub fn flush_expired(&mut self, now: u64, window: u64) -> (out: Vec<ProcessedEvent>)
        ensures
            final(self).entries() == fresh(old(self).entries(), now, window),
            exists|order: Seq<u64>|
                lists_keys(order, old(self).entries()) && views_of(out@) == #[trigger] orphans(
                    order,
                    old(self).entries(),
                    now,
                    window,
                ),
    {
        broadcast use vstd::std_specs::hash::group_hash_axioms;

        let ghost before = self.entries();
        let mut out: Vec<ProcessedEvent> = Vec::new();
        let mut gone: Vec<u64> = Vec::new();
        let ghost mut order: Seq<u64> = Seq::empty();
        for key in it: self.map.keys()
            invariant
                before == self.entries(),
                it.seq().unref().to_set() == self.map@.dom(),
                it.seq().no_duplicates(),
                order == it.seq().unref().subrange(0, it.index() as int),
                views_of(out@) == orphans(order, before, now, window),
                gone@ == expired_keys(order, before, now, window),
                it.index() == it.seq().len() ==> lists_keys(order, before),
        {
            let ghost prev_order = order;
            let ghost prev_out = views_of(out@);
            let ghost prev_gone = gone@;
            proof {
                order = order.push(*key);
                assert(order.drop_last() =~= prev_order);
                assert(order =~= it.seq().unref().subrange(0, it.index() + 1));
                assert(it.seq().unref()[it.index() as int] == *key);
                assert(it.seq().unref().to_set().contains(*key));
                assert(before.contains_key(*key));
            }
            match self.map.get(key) {
                Some(removed) => {
                    assert(removed@ == before[*key]);
                    let waited: u64 = if now >= removed.at {
                        now - removed.at
                    } else {
                        0
                    };
                    if waited > window {
                        out.push(
                            ProcessedEvent {
                                path: removed.path.clone(),
                                old_path: None,
                                new_path: None,
                                kind: FsEventKind::Remove,
                                priority: EventPriority::Delete,
                                timestamp: removed.at,
                            },
                        );
                        gone.push(*key);
                        assert(views_of(out@) =~= prev_out.push(orphan_event(before[*key])));
                        assert(gone@ =~= prev_gone.push(*key));
                    }
                },
                None => {},
            }
            assert(it.index() + 1 == it.seq().len() ==> lists_keys(order, before)) by {
                if it.index() + 1 == it.seq().len() {
                    assert(order =~= it.seq().unref());
                    assert forall|a: int, b: int|
                        0 <= a < order.len() && 0 <= b < order.len() && a != b implies order[a]
                        != order[b] by {
                        assert(it.seq()[a] != it.seq()[b]);
                    }
                    assert forall|k: u64| order.contains(k) <==> before.contains_key(k) by {
                        assert(order.to_set().contains(k) <==> order.contains(k));
                    }
                }
            }
        }
        proof {
            lemma_expired_keys(order, before, now, window);
        }
        let ghost listed = order;
        assert(lists_keys(listed, before));
        let mut i: usize = 0;
        assert(gone@.subrange(0, 0) =~= Seq::<u64>::empty());
        while i < gone.len()
            invariant
                i <= gone.len(),
                gone@ == expired_keys(listed, before, now, window),
                left_after(self.entries(), before, gone@.subrange(0, i as int)),
            decreases gone.len() - i,
        {
            let ghost was = self.entries();
            let key = gone[i];
            let _ = self.map.remove(&key);
            assert(self.entries() =~= was.remove(key));
            proof {
                lemma_left_after(was, before, gone@.subrange(0, i as int), key);
                assert(gone@.subrange(0, i as int).push(key) =~= gone@.subrange(0, i + 1));
            }
            i = i + 1;
        }
        proof {
            assert(gone@.subrange(0, i as int) =~= gone@);
            assert forall|k: u64| #[trigger]
                self.entries().contains_key(k) <==> fresh(before, now, window).contains_key(
                    k,
                ) by {
                assert(gone@.contains(k) <==> listed.contains(k) && before.contains_key(k)
                    && expired(now, before[k].at, window));
            }
            assert(self.entries() =~= fresh(before, now, window));
        }
        out
    }
}

/// Remembers the source path of a split rename under the identifier that the
/// notification layer gave to both halves.
pub struct RenameCache {
    map: HashMap<usize, String>,
}

impl RenameCache {
    /// The remembered source of each rename that is still open.
    pub closed spec fn entries(&self) -> Map<usize, Seq<char>> {
        Map::new(|id: usize| self.map@.contains_key(id), |id: usize| self.map@[id]@)
    }

    /// A cache that remembers nothing.
    pub fn new() -> (c: RenameCache)
        ensures
            c.entries() == Map::<usize, Seq<char>>::empty(),
    {
        let c = RenameCache { map: HashMap::new() };
        assert(c.entries() =~= Map::<usize, Seq<char>>::empty());
        c
    }

    /// The number of remembered entries.
    pub fn len(&self) -> (n: usize)
        ensures
            n == self.entries().dom().len(),
    {
        broadcast use vstd::std_specs::hash::group_hash_axioms;

        assert(self.entries().dom() =~= self.map@.dom());
        self.map.len()
    }

    /// Remembers `path` as the source of the rename `id`, replacing an earlier one.
    pub fn insert(&mut self, id: usize, path: String)
        ensures
            final(self).entries() == old(self).entries().insert(id, path@),
    {
        broadcast use vstd::std_specs::hash::group_hash_axioms;

        let _ = self.map.insert(id, path);
        assert(self.entries() =~= old(self).entries().insert(id, path@));
    }

    /// Takes the source of the rename `id` out of the cache, if it is there.
    pub fn remove(&mut self, id: usize) -> (path: Option<String>)
        ensures
            final(self).entries() == old(self).entries().remove(id),
            opt_text(path) == if old(self).entries().contains_key(id) {
                Some(old(self).entries()[id])
            } else {
                None::<Seq<char>>
            },
    {
        broadcast use vstd::std_specs::hash::group_hash_axioms;

        let path = self.map.remove(&id);
        assert(self.entries() =~= old(self).entries().remove(id));
        path
    }
}

} // verus!
