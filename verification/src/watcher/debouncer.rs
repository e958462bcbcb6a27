use vstd::prelude::*;
use crate::text::chars_of;
use crate::watcher::event::{EventPriority, EventView, ProcessedEvent, views_of, copy_opt};

verus! {

/// Whether path `p` lies strictly below directory `dir`: `dir` is a proper prefix of `p`
/// that ends at a separator.
pub open spec fn strictly_under(p: Seq<char>, dir: Seq<char>) -> bool {
    &&& 0 < dir.len() < p.len()
    &&& p.subrange(0, dir.len() as int) == dir
    &&& (p[dir.len() as int] == '/' || dir.last() == '/')
}

/// The pending events that survive the arrival of an event for directory `dir`:
/// everything that is not strictly below it, in the same order.
pub open spec fn purge(s: Seq<EventView>, dir: Seq<char>) -> Seq<EventView>
    decreases s.len(),
{
    if s.len() == 0 {
        s
    } else if strictly_under(s.last().path, dir) {
        purge(s.drop_last(), dir)
    } else {
        purge(s.drop_last(), dir).push(s.last())
    }
}

/// Index of the first pending event for `path`, or `s.len()` if there is none.
pub open spec fn position(s: Seq<EventView>, path: Seq<char>) -> int
    decreases s.len(),
{
    if s.len() == 0 {
        0
    } else {
        let p = position(s.drop_last(), path);
        if p < s.len() - 1 {
            p
        } else if s.last().path == path {
            s.len() - 1
        } else {
            s.len() as int
        }
    }
}

/// The result of coalescing `incoming` into the `existing` entry for the same path.
pub open spec fn merged(existing: EventView, incoming: EventView) -> EventView {
    EventView {
        path: existing.path,
        old_path: if incoming.old_path is Some {
            incoming.old_path
        } else {
            existing.old_path
        },
        new_path: if incoming.new_path is Some {
            incoming.new_path
        } else {
            existing.new_path
        },
        kind: incoming.kind,
        priority: existing.priority.min_spec(incoming.priority),
        timestamp: incoming.timestamp,
    }
}

/// Pending events after `e` is coalesced in: merged into the entry for its path if there
/// is one, appended otherwise.
pub open spec fn merge_in(s: Seq<EventView>, e: EventView) -> Seq<EventView> {
    let i = position(s, e.path);
    if i < s.len() {
        s.update(i, merged(s[i], e))
    } else {
        s.push(e)
    }
}

/// No two entries share a path.
pub open spec fn distinct_paths(s: Seq<EventView>) -> bool {
    forall|i: int, j: int| 0 <= i < j < s.len() ==> s[i].path != s[j].path
}

/// The entries of `s` with priority `p`, in the same order.
pub open spec fn with_priority(s: Seq<EventView>, p: EventPriority) -> Seq<EventView>
    decreases s.len(),
{
    if s.len() == 0 {
        s
    } else if s.last().priority == p {
        with_priority(s.drop_last(), p).push(s.last())
    } else {
        with_priority(s.drop_last(), p)
    }
}

/// `s` ordered by ascending priority rank, entries of equal priority in their old order.
pub open spec fn by_priority(s: Seq<EventView>) -> Seq<EventView> {
    with_priority(s, EventPriority::Create) + with_priority(s, EventPriority::Delete)
        + with_priority(s, EventPriority::Modify) + with_priority(s, EventPriority::Access)
}

/// Time elapsed from `since` to `now` on a clock that never runs backwards.
pub open spec fn elapsed(now: u64, since: u64) -> int {
    if now >= since {
        now - since
    } else {
        0
    }
}

/// A position is that of the first pending event for the path, or the end.
pub proof fn lemma_position_bounds(s: Seq<EventView>, path: Seq<char>)
    ensures
        0 <= position(s, path) <= s.len(),
        position(s, path) < s.len() ==> s[position(s, path)].path == path,
        forall|k: int| 0 <= k < position(s, path) ==> #[trigger] s[k].path != path,
    decreases s.len(),
{
    if s.len() > 0 {
        let t = s.drop_last();
        lemma_position_bounds(t, path);
        assert forall|k: int| 0 <= k < position(s, path) implies #[trigger] s[k].path
            != path by {
            if k < t.len() {
                assert(t[k] == s[k]);
            }
        }
    }
}

/// What survives a purge was pending before, and still has one event per path.
pub proof fn lemma_purge_subset(s: Seq<EventView>, dir: Seq<char>)
    ensures
        purge(s, dir).len() <= s.len(),
        forall|k: int|
            0 <= k < purge(s, dir).len() ==> exists|m: int|
                0 <= m < s.len() && s[m] == #[trigger] purge(s, dir)[k],
        distinct_paths(s) ==> distinct_paths(purge(s, dir)),
    decreases s.len(),
{
    if s.len() > 0 {
        let t = s.drop_last();
        lemma_purge_subset(t, dir);
        let r = purge(s, dir);
        assert forall|k: int| 0 <= k < r.len() implies exists|m: int|
            0 <= m < s.len() && s[m] == #[trigger] r[k] by {
            if k < purge(t, dir).len() {
                let m = choose|m: int| 0 <= m < t.len() && t[m] == purge(t, dir)[k];
                assert(s[m] == r[k]);
            } else {
                assert(s[s.len() - 1] == r[k]);
            }
        }
        if distinct_paths(s) {
            assert(distinct_paths(t));
            assert forall|i: int, j: int| 0 <= i < j < r.len() implies r[i].path
                != r[j].path by {
                if j == purge(t, dir).len() {
                    let m = choose|m: int| 0 <= m < t.len() && t[m] == purge(t, dir)[i];
                    assert(s[m].path != s[s.len() - 1].path);
                }
            }
        }
    }
}

/// In-memory coalescing of events per path within a time window.
pub struct EventDebouncer {
    events: Vec<ProcessedEvent>,
    debounce_window_ms: u64,
    last_flush: u64,
}

impl EventDebouncer {
    /// Pending events in order of first arrival.
    pub closed spec fn pending(&self) -> Seq<EventView> {
        views_of(self.events@)
    }

    /// The coalescing window in milliseconds.
    pub closed spec fn window_ms(&self) -> u64 {
        self.debounce_window_ms
    }

    /// The time of the last flush.
    pub closed spec fn last_flush_ms(&self) -> u64 {
        self.last_flush
    }

    /// At most one pending event per path. This holds of every debouncer.
    pub open spec fn wf(&self) -> bool {
        distinct_paths(self.pending())
    }

    #[verifier::type_invariant]
    closed spec fn one_per_path(&self) -> bool {
        distinct_paths(views_of(self.events@))
    }

    /// An empty debouncer with the given window, last flushed at `now`.
    pub fn new(debounce_window_ms: u64, now: u64) -> (d: EventDebouncer)
        ensures
            d.wf(),
            d.pending() == Seq::<EventView>::empty(),
            d.window_ms() == debounce_window_ms,
            d.last_flush_ms() == now,
    {
        let d = EventDebouncer { events: Vec::new(), debounce_window_ms, last_flush: now };
        assert(d.pending() =~= Seq::<EventView>::empty());
        d
    }

    /// The number of pending events.
    pub fn len(&self) -> (n: usize)
        ensures
            n == self.pending().len(),
    {
        self.events.len()
    }

    /// The pending event at `index`, in order of first arrival.
    pub fn get(&self, index: usize) -> (e: Option<ProcessedEvent>)
        ensures
            index < self.pending().len() ==> e is Some && e->0@ == self.pending()[index as int],
            index >= self.pending().len() ==> e is None,
    {
        if index < self.events.len() {
            Some(self.events[index].duplicate())
        } else {
            None
        }
    }

    /// Overrides the time of the last flush.
    pub fn set_last_flush(&mut self, now: u64)
        ensures
            final(self).pending() == old(self).pending(),
            final(self).window_ms() == old(self).window_ms(),
            final(self).last_flush_ms() == now,
    {
        proof {
            use_type_invariant(&*self);
        }
        self.last_flush = now;
    }

    /// Whether the window has passed since the last flush.
    pub fn is_ready_to_flush(&self, now: u64) -> (ready: bool)
        ensures
            ready <==> elapsed(now, self.last_flush_ms()) >= self.window_ms(),
    {
        let waited: u64 = if now >= self.last_flush {
            now - self.last_flush
        } else {
            0
        };
        waited >= self.debounce_window_ms
    }

    fn purge_under(&mut self, dir: &Vec<char>)
        ensures
            final(self).wf(),
            final(self).pending() == purge(old(self).pending(), dir@),
            final(self).window_ms() == old(self).window_ms(),
            final(self).last_flush_ms() == old(self).last_flush_ms(),
    {
        proof {
            use_type_invariant(&*self);
        }
        let mut kept: Vec<ProcessedEvent> = Vec::new();
        let mut i: usize = 0;
        let ghost all = self.pending();
        while i < self.events.len()
            invariant
                i <= self.events.len(),
                all == views_of(self.events@),
                views_of(kept@) == purge(all.subrange(0, i as int), dir@),
            decreases self.events.len() - i,
        {
            let p = chars_of(self.events[i].path.as_str());
            let under = is_strictly_under(&p, dir);
            proof {
                let s = all.subrange(0, i + 1);
                assert(s.drop_last() =~= all.subrange(0, i as int));
                assert(s.last() == all[i as int]);
            }
            if !under {
                let e = self.events[i].duplicate();
                kept.push(e);
                assert(views_of(kept@) =~= purge(all.subrange(0, i as int), dir@).push(
                    all[i as int],
                ));
            }
            i = i + 1;
        }
        proof {
            assert(all.subrange(0, i as int) =~= all);
            lemma_purge_subset(all, dir@);
        }
        self.events = kept;
    }

    /// Queues `event`. If its path is a directory on disk (`is_dir`), pending events
    /// strictly below it are dropped first; then the event is merged into the pending
    /// entry for its path, or appended.
    pub fn add_event(&mut self, event: ProcessedEvent, is_dir: bool)
        ensures
            final(self).wf(),
            final(self).pending() == merge_in(
                if is_dir {
                    purge(old(self).pending(), event@.path)
                } else {
                    old(self).pending()
                },
                event@,
            ),
            final(self).window_ms() == old(self).window_ms(),
            final(self).last_flush_ms() == old(self).last_flush_ms(),
    {
        if is_dir {
            let dir = chars_of(event.path.as_str());
            self.purge_under(&dir);
        }
        proof {
            use_type_invariant(&*self);
        }
        let ghost base = self.pending();
        let mut i: usize = 0;
        let mut found: bool = false;
        assert(base.subrange(0, 0).len() == 0);
        if self.events.len() == 0 {
            assert(base.subrange(0, 0) =~= base);
        }
        while i < self.events.len()
            invariant_except_break
                !found,
            invariant
                i <= self.events.len(),
                base == views_of(self.events@),
                position(base.subrange(0, i as int), event@.path) == i,
                i == self.events.len() ==> base.subrange(0, i as int) == base,
            ensures
                found ==> i < base.len() && position(base, event@.path) == i,
                !found ==> position(base, event@.path) == base.len(),
            decreases self.events.len() - i,
        {
            proof {
                let s = base.subrange(0, i + 1);
                assert(s.drop_last() =~= base.subrange(0, i as int));
                assert(s.last() == base[i as int]);
            }
            if self.events[i].path == event.path {
                found = true;
                proof {
                    lemma_position_prefix(base, event@.path, i + 1);
                }
                break;
            }
            i = i + 1;
            if i == self.events.len() {
                assert(base.subrange(0, i as int) =~= base);
            }
        }
        proof {
            lemma_position_bounds(base, event@.path);
        }
        if found {
            let existing = &self.events[i];
            let replacement = ProcessedEvent {
                path: existing.path.clone(),
                old_path: if event.old_path.is_some() {
                    event.old_path
                } else {
                    copy_opt(&existing.old_path)
                },
                new_path: if event.new_path.is_some() {
                    event.new_path
                } else {
                    copy_opt(&existing.new_path)
                },
                kind: event.kind,
                priority: existing.priority.min(event.priority),
                timestamp: event.timestamp,
            };
            assert(replacement@ == merged(base[i as int], event@));
            let mut events: Vec<ProcessedEvent> = Vec::new();
            core::mem::swap(&mut self.events, &mut events);
            events.set(i, replacement);
            proof {
                assert(views_of(events@) =~= base.update(i as int, merged(base[i as int], event@)));
                lemma_merge_in(base, event@);
            }
            self.events = events;
        } else {
            let mut events: Vec<ProcessedEvent> = Vec::new();
            core::mem::swap(&mut self.events, &mut events);
            events.push(event);
            proof {
                assert(views_of(events@) =~= base.push(event@));
                lemma_merge_in(base, event@);
            }
            self.events = events;
        }
    }

    /// Drains every pending event, ordered by ascending priority rank, and restarts
    /// the window at `now`.
    pub fn flush(&mut self, now: u64) -> (out: Vec<ProcessedEvent>)
        ensures
            views_of(out@) == by_priority(old(self).pending()),
            out@.len() == old(self).pending().len(),
            final(self).pending() == Seq::<EventView>::empty(),
            final(self).wf(),
            final(self).window_ms() == old(self).window_ms(),
            final(self).last_flush_ms() == now,
    {
        let ghost all = self.pending();
        let mut out: Vec<ProcessedEvent> = Vec::new();
        self.collect(EventPriority::Create, &mut out);
        self.collect(EventPriority::Delete, &mut out);
        self.collect(EventPriority::Modify, &mut out);
        self.collect(EventPriority::Access, &mut out);
        proof {
            lemma_by_priority_len(all);
        }
        self.events = Vec::new();
        self.last_flush = now;
        assert(self.pending() =~= Seq::<EventView>::empty());
        out
    }

    fn collect(&self, p: EventPriority, out: &mut Vec<ProcessedEvent>)
        ensures
            views_of(final(out)@) == views_of(old(out)@) + with_priority(self.pending(), p),
    {
        let ghost before = views_of(out@);
        let ghost all = self.pending();
        let mut i: usize = 0;
        assert(all.subrange(0, 0) =~= Seq::<EventView>::empty());
        assert(views_of(out@) =~= before + with_priority(all.subrange(0, 0), p));
        while i < self.events.len()
            invariant
                i <= self.events.len(),
                all == views_of(self.events@),
                views_of(out@) == before + with_priority(all.subrange(0, i as int), p),
            decreases self.events.len() - i,
        {
            proof {
                let s = all.subrange(0, i + 1);
                assert(s.drop_last() =~= all.subrange(0, i as int));
                assert(s.last() == all[i as int]);
            }
            if self.events[i].priority == p {
                let e = self.events[i].duplicate();
                let ghost prev = views_of(out@);
                out.push(e);
                assert(views_of(out@) =~= prev.push(all[i as int]));
                assert(views_of(out@) =~= before + with_priority(
                    all.subrange(0, i as int),
                    p,
                ).push(all[i as int]));
            }
            i = i + 1;
        }
        assert(all.subrange(0, i as int) =~= all);
    }
}

/// `position` of a path found in a prefix is its position in the whole sequence.
pub proof fn lemma_position_prefix(s: Seq<EventView>, path: Seq<char>, n: int)
    requires
        0 <= n <= s.len(),
        position(s.subrange(0, n), path) < n,
    ensures
        position(s, path) == position(s.subrange(0, n), path),
    decreases s.len() - n,
{
    if n < s.len() {
        assert(s.drop_last().subrange(0, n) =~= s.subrange(0, n));
        lemma_position_prefix(s.drop_last(), path, n);
    } else {
        assert(s.subrange(0, n) =~= s);
    }
}

/// The four priorities share out the pending events.
pub proof fn lemma_with_priority_len(s: Seq<EventView>)
    ensures
        with_priority(s, EventPriority::Create).len() + with_priority(
            s,
            EventPriority::Delete,
        ).len() + with_priority(s, EventPriority::Modify).len() + with_priority(
            s,
            EventPriority::Access,
        ).len() == s.len(),
    decreases s.len(),
{
    if s.len() > 0 {
        lemma_with_priority_len(s.drop_last());
    }
}

/// Ordering by priority keeps the number of events.
pub proof fn lemma_by_priority_len(s: Seq<EventView>)
    ensures
        by_priority(s).len() == s.len(),
{
    lemma_with_priority_len(s);
}

/// Every entry of `with_priority(s, p)` has priority `p`, and the entries are those
/// of `s` with that priority, as often as they occur in `s`.
pub proof fn lemma_with_priority(s: Seq<EventView>, p: EventPriority)
    ensures
        forall|k: int|
            0 <= k < with_priority(s, p).len() ==> (#[trigger] with_priority(s, p)[k]).priority
                == p,
        forall|e: EventView|
            with_priority(s, p).to_multiset().count(e) == if e.priority == p {
                s.to_multiset().count(e)
            } else {
                0
            },
    decreases s.len(),
{
    broadcast use vstd::seq_lib::group_to_multiset_ensures;

    if s.len() > 0 {
        let t = s.drop_last();
        lemma_with_priority(t, p);
        assert(s =~= t.push(s.last()));
        assert forall|e: EventView|
            with_priority(s, p).to_multiset().count(e) == if e.priority == p {
                s.to_multiset().count(e)
            } else {
                0
            } by {
            assert(s.to_multiset() =~= t.to_multiset().insert(s.last()));
            if s.last().priority == p {
                assert(with_priority(s, p).to_multiset() =~= with_priority(
                    t,
                    p,
                ).to_multiset().insert(s.last()));
            }
        }
    } else {
        assert(s.to_multiset() =~= vstd::multiset::Multiset::<EventView>::empty());
    }
}

/// A flush hands out the pending events in order of priority: no event comes
/// before one of a more urgent priority.
pub proof fn lemma_flush_order(s: Seq<EventView>)
    ensures
        forall|i: int, j: int|
            0 <= i < j < by_priority(s).len() ==> by_priority(s)[i].priority.rank_spec()
                <= by_priority(s)[j].priority.rank_spec(),
{
    lemma_with_priority(s, EventPriority::Create);
    lemma_with_priority(s, EventPriority::Delete);
    lemma_with_priority(s, EventPriority::Modify);
    lemma_with_priority(s, EventPriority::Access);
    let a = with_priority(s, EventPriority::Create);
    let b = with_priority(s, EventPriority::Delete);
    let c = with_priority(s, EventPriority::Modify);
    let d = with_priority(s, EventPriority::Access);
    let r = by_priority(s);
    assert forall|i: int| 0 <= i < r.len() implies (#[trigger] r[i]).priority.rank_spec() == (if i
        < a.len() {
        0int
    } else if i < a.len() + b.len() {
        1int
    } else if i < a.len() + b.len() + c.len() {
        2int
    } else {
        3int
    }) by {
        if i < a.len() {
            assert(r[i] == a[i]);
        } else if i < a.len() + b.len() {
            assert(r[i] == b[i - a.len()]);
        } else if i < a.len() + b.len() + c.len() {
            assert(r[i] == c[i - a.len() - b.len()]);
        } else {
            assert(r[i] == d[i - a.len() - b.len() - c.len()]);
        }
    }
}

/// A flush hands out exactly the pending events: each as often as it was pending.
pub proof fn lemma_flush_complete(s: Seq<EventView>)
    ensures
        by_priority(s).to_multiset() == s.to_multiset(),
        by_priority(s).len() == s.len(),
{
    lemma_with_priority(s, EventPriority::Create);
    lemma_with_priority(s, EventPriority::Delete);
    lemma_with_priority(s, EventPriority::Modify);
    lemma_with_priority(s, EventPriority::Access);
    lemma_by_priority_len(s);
    let a = with_priority(s, EventPriority::Create);
    let b = with_priority(s, EventPriority::Delete);
    let c = with_priority(s, EventPriority::Modify);
    let d = with_priority(s, EventPriority::Access);
    vstd::seq_lib::lemma_multiset_commutative(a, b);
    vstd::seq_lib::lemma_multiset_commutative(a + b, c);
    vstd::seq_lib::lemma_multiset_commutative(a + b + c, d);
    assert forall|e: EventView| by_priority(s).to_multiset().count(e) == s.to_multiset().count(
        e,
    ) by {
        assert(by_priority(s).to_multiset().count(e) == a.to_multiset().count(e)
            + b.to_multiset().count(e) + c.to_multiset().count(e) + d.to_multiset().count(e));
    }
    assert(by_priority(s).to_multiset() =~= s.to_multiset());
}

/// Coalescing keeps one entry per path: after an event for `e.path` is merged in,
/// exactly one pending entry has that path, it carries the more urgent of the
/// priorities, and the kind and time of the newer event.
pub proof fn lemma_merge_in(s: Seq<EventView>, e: EventView)
    requires
        distinct_paths(s),
    ensures
        distinct_paths(merge_in(s, e)),
        position(merge_in(s, e), e.path) < merge_in(s, e).len(),
        merge_in(s, e)[position(merge_in(s, e), e.path)].kind == e.kind,
        merge_in(s, e)[position(merge_in(s, e), e.path)].timestamp == e.timestamp,
        merge_in(s, e)[position(merge_in(s, e), e.path)].priority.rank_spec()
            <= e.priority.rank_spec(),
        merge_in(s, e).len() == if position(s, e.path) < s.len() {
            s.len()
        } else {
            s.len() + 1
        },
{
    lemma_position_bounds(s, e.path);
    let r = merge_in(s, e);
    lemma_position_bounds(r, e.path);
    let i = position(s, e.path);
    if i < s.len() {
        assert(r[i].path == e.path);
    } else {
        assert(r[s.len() as int].path == e.path);
    }
    let j = position(r, e.path);
    if j != i {
        assert(r[j].path == e.path);
        if j < s.len() {
            assert(r[j] == s[j]);
        }
    }
}

/// After an event for a directory has arrived, nothing pending lies strictly
/// below the directory, and what did not lie below it is still pending.
pub proof fn lemma_purge(s: Seq<EventView>, dir: Seq<char>)
    ensures
        forall|k: int|
            0 <= k < purge(s, dir).len() ==> !strictly_under(
                (#[trigger] purge(s, dir)[k]).path,
                dir,
            ),
        forall|m: int|
            0 <= m < s.len() && !strictly_under((#[trigger] s[m]).path, dir) ==> purge(
                s,
                dir,
            ).contains(s[m]),
    decreases s.len(),
{
    if s.len() > 0 {
        let t = s.drop_last();
        lemma_purge(t, dir);
        let r = purge(s, dir);
        assert forall|m: int|
            0 <= m < s.len() && !strictly_under((#[trigger] s[m]).path, dir) implies r.contains(
            s[m],
        ) by {
            if m < t.len() {
                assert(t[m] == s[m]);
                let k = choose|k: int| 0 <= k < purge(t, dir).len() && purge(t, dir)[k] == t[m];
                assert(r[k] == s[m]);
            } else {
                assert(r[r.len() - 1] == s[m]);
            }
        }
    }
}

/// Executable test of [`strictly_under`].
pub fn is_strictly_under(p: &Vec<char>, dir: &Vec<char>) -> (b: bool)
    ensures
        b == strictly_under(p@, dir@),
{
    let n = dir.len();
    if n == 0 || n >= p.len() {
        return false;
    }
    let mut i: usize = 0;
    while i < n
        invariant
            i <= n,
            n == dir.len(),
            n < p.len(),
            p@.subrange(0, i as int) == dir@.subrange(0, i as int),
        decreases n - i,
    {
        if p[i] != dir[i] {
            assert(p@.subrange(0, n as int)[i as int] != dir@[i as int]);
            return false;
        }
        i = i + 1;
        assert(p@.subrange(0, i as int) =~= dir@.subrange(0, i as int)) by {
            assert(p@.subrange(0, i as int) =~= p@.subrange(0, i - 1).push(p@[i - 1]));
            assert(dir@.subrange(0, i as int) =~= dir@.subrange(0, i - 1).push(dir@[i - 1]));
        }
    }
    assert(dir@.subrange(0, n as int) =~= dir@);
    p[n] == '/' || dir[n - 1] == '/'
}

} // verus!
