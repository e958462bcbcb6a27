use vstd::prelude::*;
use crate::text::opt_text;

verus! {

/// Urgency class of a pending event. A lower rank is flushed earlier.
#[derive(Debug, Clone, Copy, PartialEq, Eq, Structural)]
pub enum EventPriority {
    Create,
    Delete,
    Modify,
    Access,
}

impl EventPriority {
    /// Numeric rank: Create is 0, Delete 1, Modify 2, Access 3.
    pub open spec fn rank_spec(self) -> int {
        match self {
            EventPriority::Create => 0,
            EventPriority::Delete => 1,
            EventPriority::Modify => 2,
            EventPriority::Access => 3,
        }
    }

    /// Numeric rank: Create is 0, Delete 1, Modify 2, Access 3.
    pub fn rank(self) -> (r: u8)
        ensures
            r == self.rank_spec(),
    {
        match self {
            EventPriority::Create => 0,
            EventPriority::Delete => 1,
            EventPriority::Modify => 2,
            EventPriority::Access => 3,
        }
    }

    /// The more urgent of two priorities.
    pub open spec fn min_spec(self, other: EventPriority) -> EventPriority {
        if other.rank_spec() < self.rank_spec() {
            other
        } else {
            self
        }
    }

    /// The more urgent of two priorities.
    pub fn min(self, other: EventPriority) -> (r: EventPriority)
        ensures
            r == self.min_spec(other),
    {
        if other.rank() < self.rank() {
            other
        } else {
            self
        }
    }
}

/// How a rename notification relates to the two ends of the rename.
#[derive(Debug, Clone, Copy, PartialEq, Eq, Structural)]
pub enum RenameMode {
    Any,
    To,
    From,
    Both,
    Other,
}

/// Kind of a filesystem notification, as far as the pipeline distinguishes kinds.
#[derive(Debug, Clone, Copy, PartialEq, Eq, Structural)]
pub enum FsEventKind {
    Any,
    Access,
    Create,
    /// A modification that is not a rename (data, metadata, unspecified).
    Modify,
    Rename(RenameMode),
    Remove,
    Other,
}

impl FsEventKind {
    /// Priority assigned to a notification of this kind.
    pub open spec fn priority_spec(self) -> EventPriority {
        match self {
            FsEventKind::Create => EventPriority::Create,
            FsEventKind::Remove => EventPriority::Delete,
            FsEventKind::Access => EventPriority::Access,
            _ => EventPriority::Modify,
        }
    }

    /// Priority assigned to a notification of this kind.
    #[verifier::when_used_as_spec(priority_spec)]
    pub fn priority(self) -> (p: EventPriority)
        ensures
            p == self.priority_spec(),
    {
        match self {
            FsEventKind::Create => EventPriority::Create,
            FsEventKind::Remove => EventPriority::Delete,
            FsEventKind::Access => EventPriority::Access,
            _ => EventPriority::Modify,
        }
    }

    /// Whether the kind is a rename of any mode.
    pub open spec fn is_rename_spec(self) -> bool {
        self is Rename
    }

    /// Whether the kind is a rename of any mode.
    #[verifier::when_used_as_spec(is_rename_spec)]
    pub fn is_rename(self) -> (b: bool)
        ensures
            b == self.is_rename_spec(),
    {
        match self {
            FsEventKind::Rename(_) => true,
            _ => false,
        }
    }
}

/// A raw notification as delivered by the operating system layer.
#[derive(Debug)]
pub struct FsEvent {
    pub kind: FsEventKind,
    pub paths: Vec<String>,
    /// Identifier that ties the two halves of a split rename together.
    pub tracker: Option<usize>,
}

/// Mathematical value of a [`ProcessedEvent`].
pub ghost struct EventView {
    pub path: Seq<char>,
    pub old_path: Option<Seq<char>>,
    pub new_path: Option<Seq<char>>,
    pub kind: FsEventKind,
    pub priority: EventPriority,
    pub timestamp: u64,
}

/// An event as held by the debouncer: one per path, with rename bookkeeping.
#[derive(Debug)]
pub struct ProcessedEvent {
    pub path: String,
    pub old_path: Option<String>,
    pub new_path: Option<String>,
    pub kind: FsEventKind,
    pub priority: EventPriority,
    /// Milliseconds on the watcher's clock.
    pub timestamp: u64,
}

impl View for ProcessedEvent {
    type V = EventView;

    open spec fn view(&self) -> EventView {
        EventView {
            path: self.path@,
            old_path: opt_text(self.old_path),
            new_path: opt_text(self.new_path),
            kind: self.kind,
            priority: self.priority,
            timestamp: self.timestamp,
        }
    }
}

/// A copy of an optional string.
pub fn copy_opt(o: &Option<String>) -> (r: Option<String>)
    ensures
        opt_text(r) == opt_text(*o),
{
    match o {
        Some(s) => Some(s.clone()),
        None => None,
    }
}

impl ProcessedEvent {
    /// An event for `path` alone, with no rename bookkeeping.
    pub open spec fn plain_spec(
        path: Seq<char>,
        kind: FsEventKind,
        priority: EventPriority,
        timestamp: u64,
    ) -> EventView {
        EventView { path, old_path: None, new_path: None, kind, priority, timestamp }
    }

    /// A completed rename from `old` to `new`, keyed on the old path.
    pub open spec fn rename_spec(
        old: Seq<char>,
        new: Seq<char>,
        priority: EventPriority,
        timestamp: u64,
    ) -> EventView {
        EventView {
            path: old,
            old_path: Some(old),
            new_path: Some(new),
            kind: FsEventKind::Rename(RenameMode::Both),
            priority,
            timestamp,
        }
    }

    /// An event for `path` alone, with no rename bookkeeping.
    pub fn plain(path: String, kind: FsEventKind, priority: EventPriority, timestamp: u64) -> (e:
        ProcessedEvent)
        ensures
            e@ == Self::plain_spec(path@, kind, priority, timestamp),
    {
        ProcessedEvent { path, old_path: None, new_path: None, kind, priority, timestamp }
    }

    /// A completed rename from `old` to `new`, keyed on the old path.
    pub fn rename(old: String, new: String, priority: EventPriority, timestamp: u64) -> (e:
        ProcessedEvent)
        ensures
            e@ == Self::rename_spec(old@, new@, priority, timestamp),
    {
        let key = old.clone();
        ProcessedEvent {
            path: key,
            old_path: Some(old),
            new_path: Some(new),
            kind: FsEventKind::Rename(RenameMode::Both),
            priority,
            timestamp,
        }
    }

    /// A copy with the same value.
    pub fn duplicate(&self) -> (e: ProcessedEvent)
        ensures
            e@ == self@,
    {
        ProcessedEvent {
            path: self.path.clone(),
            old_path: copy_opt(&self.old_path),
            new_path: copy_opt(&self.new_path),
            kind: self.kind,
            priority: self.priority,
            timestamp: self.timestamp,
        }
    }
}

/// The values of a sequence of events, in order.
pub open spec fn views_of(events: Seq<ProcessedEvent>) -> Seq<EventView> {
    Seq::new(events.len(), |i: int| events[i]@)
}

} // verus!
