use vstd::prelude::*;
use crate::text::{chars_of, ends_with, has_suffix};

verus! {

/// Whether a file name is that of the store or of one of its journal siblings:
/// it ends in `.db`, `-wal` or `-shm`.
pub open spec fn is_store_file_spec(name: Seq<char>) -> bool {
    has_suffix(name, ".db"@) || has_suffix(name, "-wal"@) || has_suffix(name, "-shm"@)
}

/// Whether `name` is that of the store or of one of its journal siblings.
pub fn is_store_file(name: &str) -> (b: bool)
    ensures
        b == is_store_file_spec(name@),
{
    let n = chars_of(name);
    ends_with(&n, &chars_of(".db")) || ends_with(&n, &chars_of("-wal")) || ends_with(
        &n,
        &chars_of("-shm"),
    )
}

/// One entry met on a walk, with what the filesystem says of it.
#[derive(Debug)]
pub struct WalkEntry {
    pub path: String,
    /// The final component of the path, where it has one that is text.
    pub file_name: Option<String>,
    pub is_file: bool,
    pub size_bytes: u64,
    /// Whole seconds from the epoch to the last modification.
    pub modified_secs: u64,
}

/// Mathematical value of a [`WalkEntry`].
pub ghost struct WalkEntryView {
    pub path: Seq<char>,
    pub file_name: Option<Seq<char>>,
    pub is_file: bool,
    pub size_bytes: u64,
    pub modified_secs: u64,
}

impl View for WalkEntry {
    type V = WalkEntryView;

    open spec fn view(&self) -> WalkEntryView {
        WalkEntryView {
            path: self.path@,
            file_name: match self.file_name {
                Some(n) => Some(n@),
                None => None,
            },
            is_file: self.is_file,
            size_bytes: self.size_bytes,
            modified_secs: self.modified_secs,
        }
    }
}

/// What the index records of one file.
#[derive(Debug)]
pub struct FileRecord {
    pub path: String,
    pub size: i64,
    pub mtime: i64,
}

/// Mathematical value of a [`FileRecord`].
pub ghost struct FileRecordView {
    pub path: Seq<char>,
    pub size: i64,
    pub mtime: i64,
}

impl View for FileRecord {
    type V = FileRecordView;

    open spec fn view(&self) -> FileRecordView {
        FileRecordView { path: self.path@, size: self.size, mtime: self.mtime }
    }
}

/// The values of a list of walk entries, in order.
pub open spec fn entry_views(items: Seq<WalkEntry>) -> Seq<WalkEntryView> {
    Seq::new(items.len(), |i: int| items[i]@)
}

/// The values of a list of file records, in order.
pub open spec fn record_views(items: Seq<FileRecord>) -> Seq<FileRecordView> {
    Seq::new(items.len(), |i: int| items[i]@)
}

/// An unsigned 64-bit count as the store's signed integer of the same bits.
pub open spec fn stored(v: u64) -> i64 {
    if v <= i64::MAX {
        v as i64
    } else {
        (v - 0x1_0000_0000_0000_0000) as i64
    }
}

/// An unsigned 64-bit count as the store's signed integer of the same bits.
pub fn to_stored(v: u64) -> (r: i64)
    ensures
        r == stored(v),
{
    if v <= 0x7fff_ffff_ffff_ffffu64 {
        v as i64
    } else {
        ((v - 0x8000_0000_0000_0000u64) as i64) + i64::MIN
    }
}

/// Whether a walk indexes the entry: a regular file that is not one of the
/// store's own files.
pub open spec fn is_indexed(e: WalkEntryView) -> bool {
    e.is_file && !(e.file_name is Some && is_store_file_spec(e.file_name->0))
}

/// What is recorded for an entry.
pub open spec fn record_of(e: WalkEntryView) -> FileRecordView {
    FileRecordView { path: e.path, size: stored(e.size_bytes), mtime: stored(e.modified_secs) }
}

/// The records of a walk: one for each entry that is indexed, in order.
pub open spec fn scan_records(entries: Seq<WalkEntryView>) -> Seq<FileRecordView>
    decreases entries.len(),
{
    if entries.len() == 0 {
        Seq::empty()
    } else if is_indexed(entries.last()) {
        scan_records(entries.drop_last()).push(record_of(entries.last()))
    } else {
        scan_records(entries.drop_last())
    }
}

/// Whether the walk indexes the entry.
pub fn indexes(e: &WalkEntry) -> (b: bool)
    ensures
        b == is_indexed(e@),
{
    if !e.is_file {
        return false;
    }
    match &e.file_name {
        Some(n) => !is_store_file(n.as_str()),
        None => true,
    }
}

/// The records to write for a walk of a directory tree: one per regular file,
/// the store's own files left out. The number of records is the number of files
/// scanned.
pub fn scan_directory(entries: &Vec<WalkEntry>) -> (records: Vec<FileRecord>)
    ensures
        record_views(records@) == scan_records(entry_views(entries@)),
{
    let ghost all = entry_views(entries@);
    let mut records: Vec<FileRecord> = Vec::new();
    let mut i: usize = 0;
    assert(all.subrange(0, 0) =~= Seq::<WalkEntryView>::empty());
    assert(record_views(records@) =~= scan_records(all.subrange(0, 0)));
    while i < entries.len()
        invariant
            i <= entries.len(),
            all == entry_views(entries@),
            record_views(records@) == scan_records(all.subrange(0, i as int)),
        decreases entries.len() - i,
    {
        proof {
            let t = all.subrange(0, i + 1);
            assert(t.drop_last() =~= all.subrange(0, i as int));
            assert(t.last() == all[i as int]);
        }
        if indexes(&entries[i]) {
            let ghost prev = record_views(records@);
            let r = FileRecord {
                path: crate::utils::to_db_path(entries[i].path.as_str()),
                size: to_stored(entries[i].size_bytes),
                mtime: to_stored(entries[i].modified_secs),
            };
            records.push(r);
            assert(record_views(records@) =~= prev.push(record_of(all[i as int])));
        }
        i = i + 1;
    }
    assert(all.subrange(0, i as int) =~= all);
    records
}

} // verus!
