use vstd::prelude::*;
use vstd::string::StringExecFns;
use chrono::TimeZone;
use crate::error::{Error, ErrorView};
use crate::text::{
    chars_of, ends_with, has_prefix, has_suffix, same_text, slice_of, starts_with, string_of,
};
use crate::utils::{join_of, path_join};

verus! {

/// A moment in universal time: whole seconds since the epoch and the nanoseconds
/// within the second.
#[derive(Debug, Clone, Copy, PartialEq, Eq, Structural)]
pub struct Timestamp {
    pub secs: i64,
    pub nanos: u32,
}

impl Timestamp {
    /// The moment as one number; later moments have greater numbers.
    pub open spec fn key(self) -> int {
        self.secs * 1_000_000_000 + self.nanos
    }

    /// Whether `self` is strictly earlier than `other`.
    pub fn is_before(self, other: Timestamp) -> (b: bool)
        ensures
            b == earlier(self, other),
            self.nanos < 1_000_000_000 && other.nanos < 1_000_000_000 ==> b == (self.key()
                < other.key()),
    {
        self.secs < other.secs || (self.secs == other.secs && self.nanos < other.nanos)
    }
}

/// What is known of one backup.
#[derive(Debug)]
pub struct BackupInfo {
    /// The backup's file name.
    pub id: String,
    pub timestamp: Timestamp,
    pub size_bytes: u64,
    pub hash: Option<String>,
}

/// Mathematical value of a [`BackupInfo`].
pub ghost struct BackupInfoView {
    pub id: Seq<char>,
    pub timestamp: Timestamp,
    pub size_bytes: u64,
    pub hash: Option<Seq<char>>,
}

impl View for BackupInfo {
    type V = BackupInfoView;

    open spec fn view(&self) -> BackupInfoView {
        BackupInfoView {
            id: self.id@,
            timestamp: self.timestamp,
            size_bytes: self.size_bytes,
            hash: match self.hash {
                Some(h) => Some(h@),
                None => None,
            },
        }
    }
}

impl BackupInfo {
    /// A copy with the same value.
    pub fn duplicate(&self) -> (b: BackupInfo)
        ensures
            b@ == self@,
    {
        BackupInfo {
            id: self.id.clone(),
            timestamp: self.timestamp,
            size_bytes: self.size_bytes,
            hash: match &self.hash {
                Some(h) => Some(h.clone()),
                None => None,
            },
        }
    }
}

/// The values of a listing, in order.
pub open spec fn info_views(items: Seq<BackupInfo>) -> Seq<BackupInfoView> {
    Seq::new(items.len(), |i: int| items[i]@)
}

/// Outcome of pruning: what stays and what goes.
#[derive(Debug)]
pub struct PruneResult {
    pub kept: Vec<BackupInfo>,
    pub removed: Vec<BackupInfo>,
}

/// Order of two moments: by second, then by nanosecond.
pub open spec fn earlier(a: Timestamp, b: Timestamp) -> bool {
    a.secs < b.secs || (a.secs == b.secs && a.nanos < b.nanos)
}

/// Newest first: no entry is earlier than one that follows it.
pub open spec fn newest_first(s: Seq<BackupInfoView>) -> bool {
    forall|i: int, j: int| 0 <= i < j < s.len() ==> !earlier(s[i].timestamp, s[j].timestamp)
}

/// Where `x` goes in a listing that is newest first: behind every entry that is
/// not earlier than `x`.
pub open spec fn place(s: Seq<BackupInfoView>, x: BackupInfoView) -> int
    decreases s.len(),
{
    if s.len() == 0 {
        0
    } else if !earlier(s.last().timestamp, x.timestamp) {
        s.len() as int
    } else {
        place(s.drop_last(), x)
    }
}

/// The entries of `s` newest first; entries of the same moment keep their order.
pub open spec fn sorted_newest(s: Seq<BackupInfoView>) -> Seq<BackupInfoView>
    decreases s.len(),
{
    if s.len() == 0 {
        s
    } else {
        let r = sorted_newest(s.drop_last());
        r.insert(place(r, s.last()), s.last())
    }
}

/// The place of an entry lies within the listing, behind every entry that is not
/// earlier and before every entry that is.
pub proof fn lemma_place(s: Seq<BackupInfoView>, x: BackupInfoView)
    ensures
        0 <= place(s, x) <= s.len(),
        forall|k: int| place(s, x) <= k < s.len() ==> earlier(#[trigger] s[k].timestamp, x.timestamp),
        place(s, x) > 0 ==> !earlier(s[place(s, x) - 1].timestamp, x.timestamp),
    decreases s.len(),
{
    if s.len() > 0 && earlier(s.last().timestamp, x.timestamp) {
        lemma_place(s.drop_last(), x);
        assert forall|k: int| place(s, x) <= k < s.len() implies earlier(
            #[trigger] s[k].timestamp,
            x.timestamp,
        ) by {
            if k < s.len() - 1 {
                assert(s.drop_last()[k] == s[k]);
            }
        }
    }
}

/// A sorted listing is newest first, as long as the listing, and holds the same
/// entries as the unsorted one.
pub proof fn lemma_sorted_newest(s: Seq<BackupInfoView>)
    ensures
        sorted_newest(s).len() == s.len(),
        newest_first(sorted_newest(s)),
        sorted_newest(s).to_multiset() == s.to_multiset(),
    decreases s.len(),
{
    if s.len() > 0 {
        let t = s.drop_last();
        let x = s.last();
        lemma_sorted_newest(t);
        let r = sorted_newest(t);
        lemma_place(r, x);
        let p = place(r, x);
        let out = r.insert(p, x);
        assert forall|i: int, j: int| 0 <= i < j < out.len() implies !earlier(
            out[i].timestamp,
            out[j].timestamp,
        ) by {
            if j < p {
                assert(out[i] == r[i] && out[j] == r[j]);
            } else if j == p {
                assert(out[i] == r[i]);
                if p > 0 {
                    assert(!earlier(r[i].timestamp, r[p - 1].timestamp) || i == p - 1);
                }
            } else if i < p {
                assert(out[i] == r[i] && out[j] == r[j - 1]);
            } else if i == p {
                assert(out[j] == r[j - 1]);
            } else {
                assert(out[i] == r[i - 1] && out[j] == r[j - 1]);
            }
        }
        vstd::seq_lib::to_multiset_insert(r, p, x);
        assert(s =~= t.push(x));
        vstd::seq_lib::to_multiset_build(t, x);
    }
}

/// Orders a listing newest first.
pub fn sort_newest_first(items: Vec<BackupInfo>) -> (out: Vec<BackupInfo>)
    ensures
        info_views(out@) == sorted_newest(info_views(items@)),
        out@.len() == items@.len(),
        newest_first(info_views(out@)),
{
    let ghost all = info_views(items@);
    let mut out: Vec<BackupInfo> = Vec::new();
    let mut i: usize = 0;
    assert(all.subrange(0, 0) =~= Seq::<BackupInfoView>::empty());
    assert(info_views(out@) =~= sorted_newest(all.subrange(0, 0)));
    while i < items.len()
        invariant
            i <= items.len(),
            all == info_views(items@),
            info_views(out@) == sorted_newest(all.subrange(0, i as int)),
        decreases items.len() - i,
    {
        proof {
            let t = all.subrange(0, i + 1);
            assert(t.drop_last() =~= all.subrange(0, i as int));
            assert(t.last() == all[i as int]);
        }
        let x = items[i].duplicate();
        let ghost sorted = info_views(out@);
        let mut j: usize = out.len();
        assert(sorted.subrange(0, j as int) =~= sorted);
        while j > 0 && out[j - 1].timestamp.is_before(x.timestamp)
            invariant
                j <= out.len(),
                sorted == info_views(out@),
                place(sorted.subrange(0, j as int), x@) == place(sorted, x@),
            decreases j,
        {
            assert(sorted.subrange(0, j as int).drop_last() =~= sorted.subrange(0, j - 1));
            assert(sorted.subrange(0, j as int).last() == sorted[j - 1]);
            j = j - 1;
        }
        proof {
            if j > 0 {
                assert(sorted.subrange(0, j as int).last() == sorted[j - 1]);
            }
            assert(place(sorted, x@) == j);
        }
        out.insert(j, x);
        assert(info_views(out@) =~= sorted.insert(j as int, all[i as int]));
        i = i + 1;
    }
    proof {
        assert(all.subrange(0, i as int) =~= all);
        lemma_sorted_newest(all);
    }
    out
}

/// How many backups survive a pruning that keeps `keep_count`.
pub open spec fn kept_count(total: nat, keep_count: usize) -> int {
    if keep_count >= total {
        total as int
    } else {
        keep_count as int
    }
}

/// Splits a listing into the `keep_count` first entries, which stay, and the rest,
/// which go.
pub fn prune_listing(listing: Vec<BackupInfo>, keep_count: usize) -> (r: PruneResult)
    ensures
        info_views(r.kept@) == info_views(listing@).subrange(
            0,
            kept_count(listing@.len(), keep_count),
        ),
        info_views(r.removed@) == info_views(listing@).subrange(
            kept_count(listing@.len(), keep_count),
            listing@.len() as int,
        ),
{
    let ghost all = info_views(listing@);
    let cut: usize = if keep_count >= listing.len() {
        listing.len()
    } else {
        keep_count
    };
    let mut kept: Vec<BackupInfo> = Vec::new();
    let mut removed: Vec<BackupInfo> = Vec::new();
    let mut i: usize = 0;
    while i < listing.len()
        invariant
            i <= listing.len(),
            cut <= listing.len(),
            all == info_views(listing@),
            i <= cut ==> kept@.len() == i && removed@.len() == 0,
            i > cut ==> kept@.len() == cut && removed@.len() == i - cut,
            forall|k: int| 0 <= k < kept@.len() ==> (#[trigger] kept@[k])@ == all[k],
            forall|k: int| 0 <= k < removed@.len() ==> (#[trigger] removed@[k])@ == all[cut + k],
        decreases listing.len() - i,
    {
        if i < cut {
            kept.push(listing[i].duplicate());
        } else {
            removed.push(listing[i].duplicate());
        }
        i = i + 1;
    }
    assert(info_views(kept@) =~= all.subrange(0, cut as int));
    assert(info_views(removed@) =~= all.subrange(cut as int, listing@.len() as int));
    PruneResult { kept, removed }
}

/// Whether a file name is that of a backup: it begins with `backup_` and ends
/// with `.db`.
pub open spec fn is_backup_name_spec(name: Seq<char>) -> bool {
    has_prefix(name, "backup_"@) && has_suffix(name, ".db"@)
}

/// Whether `name` begins with `backup_` and ends with `.db`.
pub fn is_backup_name(name: &str) -> (b: bool)
    ensures
        b == is_backup_name_spec(name@),
{
    let n = chars_of(name);
    starts_with(&n, &chars_of("backup_")) && ends_with(&n, &chars_of(".db"))
}

/// `s` without every leading repetition of `prefix`.
pub open spec fn trim_start(s: Seq<char>, prefix: Seq<char>) -> Seq<char>
    decreases s.len(),
{
    if prefix.len() > 0 && has_prefix(s, prefix) {
        trim_start(s.subrange(prefix.len() as int, s.len() as int), prefix)
    } else {
        s
    }
}

/// `s` without every trailing repetition of `suffix`.
pub open spec fn trim_end(s: Seq<char>, suffix: Seq<char>) -> Seq<char>
    decreases s.len(),
{
    if suffix.len() > 0 && has_suffix(s, suffix) {
        trim_end(s.subrange(0, s.len() - suffix.len()), suffix)
    } else {
        s
    }
}

/// The part of a backup's file name that holds its time stamp.
pub open spec fn stamp_text_spec(name: Seq<char>) -> Seq<char> {
    trim_end(trim_start(name, "backup_"@), ".db"@)
}

fn trimmed_start(s: Vec<char>, prefix: &Vec<char>) -> (out: Vec<char>)
    ensures
        out@ == trim_start(s@, prefix@),
    decreases s@.len(),
{
    if prefix.len() > 0 && starts_with(&s, prefix) {
        let rest = slice_of(&s, prefix.len(), s.len());
        trimmed_start(rest, prefix)
    } else {
        s
    }
}

fn trimmed_end(s: Vec<char>, suffix: &Vec<char>) -> (out: Vec<char>)
    ensures
        out@ == trim_end(s@, suffix@),
    decreases s@.len(),
{
    if suffix.len() > 0 && ends_with(&s, suffix) {
        let rest = slice_of(&s, 0, s.len() - suffix.len());
        trimmed_end(rest, suffix)
    } else {
        s
    }
}

/// The part of a backup's file name that holds its time stamp.
pub fn stamp_text(name: &str) -> (stamp: String)
    ensures
        stamp@ == stamp_text_spec(name@),
{
    let n = chars_of(name);
    let a = trimmed_start(n, &chars_of("backup_"));
    let b = trimmed_end(a, &chars_of(".db"));
    string_of(&b)
}

/// The file name of a backup taken at the moment that `stamp` writes.
pub open spec fn backup_name_spec(stamp: Seq<char>) -> Seq<char> {
    "backup_"@ + stamp + ".db"@
}

/// The file name of a backup taken at the moment that `stamp` writes.
pub fn backup_name(stamp: &str) -> (name: String)
    ensures
        name@ == backup_name_spec(stamp@),
{
    let mut name = "backup_".to_owned();
    name.append(stamp);
    name.append(".db");
    name
}

/// What `chrono::NaiveDateTime::parse_from_str` reads from `text` under `format`:
/// the civil time, counted in seconds and nanoseconds as if it were universal
/// time, or `None` where the text does not fit the format.
pub uninterp spec fn naive_reading(text: Seq<char>, format: Seq<char>) -> Option<(i64, u32)>;

/// Calls `chrono::NaiveDateTime::parse_from_str`; the contract gives the result
/// its name.
#[verifier::external_body]
fn parse_naive(text: &str, format: &str) -> (r: Option<(i64, u32)>)
    ensures
        r == naive_reading(text@, format@),
{
    match chrono::NaiveDateTime::parse_from_str(text, format) {
        Ok(dt) => Some((dt.and_utc().timestamp(), dt.and_utc().timestamp_subsec_nanos())),
        Err(_) => None,
    }
}

/// A civil time read in the machine's time zone.
#[derive(Debug, Clone, Copy, PartialEq, Eq, Structural)]
pub enum LocalReading {
    /// The civil time names one moment.
    Single(Timestamp),
    /// The civil time names two moments; the earlier reading comes first.
    Ambiguous(Timestamp, Timestamp),
    /// The civil time does not exist in this zone.
    Missing,
}

/// Whether `t` can be the moment that the civil time counted by `secs` and `nanos`
/// names in some time zone: the same fraction of a second, less than a day away.
pub open spec fn near(t: Timestamp, secs: i64, nanos: u32) -> bool {
    t.nanos == nanos && secs - 86_400 < t.secs < secs + 86_400
}

/// Whether `r` can be the reading of that civil time in some time zone.
pub open spec fn reading_fits(r: LocalReading, secs: i64, nanos: u32) -> bool {
    match r {
        LocalReading::Single(t) => near(t, secs, nanos),
        LocalReading::Ambiguous(a, b) => near(a, secs, nanos) && near(b, secs, nanos),
        LocalReading::Missing => true,
    }
}

/// Calls `chrono::TimeZone::from_local_datetime` on `chrono::Local` for the civil
/// time that `secs` and `nanos` count. Which moment the civil time names depends
/// on the machine's time zone. What holds in every zone: an offset from universal
/// time is a whole number of seconds and less than a day, so each moment named has
/// the fraction of the civil time and lies less than a day from it.
#[verifier::external_body]
fn local_to_utc(secs: i64, nanos: u32) -> (r: LocalReading)
    ensures
        reading_fits(r, secs, nanos),
{
    let naive = match chrono::DateTime::from_timestamp(secs, nanos) {
        Some(dt) => dt.naive_utc(),
        None => return LocalReading::Missing,
    };
    match chrono::Local.from_local_datetime(&naive) {
        chrono::LocalResult::Single(dt) => LocalReading::Single(
            Timestamp { secs: dt.timestamp(), nanos: dt.timestamp_subsec_nanos() },
        ),
        chrono::LocalResult::Ambiguous(a, b) => LocalReading::Ambiguous(
            Timestamp { secs: a.timestamp(), nanos: a.timestamp_subsec_nanos() },
            Timestamp { secs: b.timestamp(), nanos: b.timestamp_subsec_nanos() },
        ),
        chrono::LocalResult::None => LocalReading::Missing,
    }
}

/// Calls `chrono::Local::now` and formats the moment with `format`, which has to
/// be the format of a backup's stamp. Which moment it is depends on the clock. What
/// holds of every moment: the seven fields are written as year, month, day, hour,
/// minute, second and nanoseconds, each in the form in which
/// `chrono::NaiveDateTime::parse_from_str` reads it under the same format, so the
/// stamp can be read back. The call does not return on a machine whose clock
/// stands before 1970.
#[verifier::external_body]
fn local_stamp(format: &str) -> (stamp: String)
    requires
        format@ == "%Y-%m-%d_%H-%M-%S_%f"@,
    ensures
        stamp_reading(stamp@) is Some,
{
    chrono::Local::now().format(format).to_string()
}

/// The civil time that a stamp writes: read with a fraction of a second first,
/// without one if that fails.
pub open spec fn stamp_reading(stamp: Seq<char>) -> Option<(i64, u32)> {
    match naive_reading(stamp, "%Y-%m-%d_%H-%M-%S_%f"@) {
        Some(t) => Some(t),
        None => naive_reading(stamp, "%Y-%m-%d_%H-%M-%S"@),
    }
}

/// The first reading if there is one, the second otherwise.
pub fn first_reading(with_fraction: Option<(i64, u32)>, without: Option<(i64, u32)>) -> (r:
    Option<(i64, u32)>)
    ensures
        r == match with_fraction {
            Some(t) => Some(t),
            None => without,
        },
{
    match with_fraction {
        Some(t) => Some(t),
        None => without,
    }
}

fn read_stamp(stamp: &str) -> (r: Option<(i64, u32)>)
    ensures
        r == stamp_reading(stamp@),
{
    let with_fraction = parse_naive(stamp, "%Y-%m-%d_%H-%M-%S_%f");
    let without = if with_fraction.is_none() {
        parse_naive(stamp, "%Y-%m-%d_%H-%M-%S")
    } else {
        None
    };
    first_reading(with_fraction, without)
}

/// Whether the stamp in a backup's file name can be read. Where it cannot, the
/// backup is listed under the time at which its file was last written, which then
/// has to be known.
pub fn stamp_readable(name: &str) -> (b: bool)
    ensures
        b == (stamp_reading(stamp_text_spec(name@)) is Some),
{
    let stamp = stamp_text(name);
    read_stamp(stamp.as_str()).is_some()
}

/// The moment of a backup. `local` is the reading of the stamp in its file name in
/// the machine's time zone, or `None` where the name holds no stamp; `modified` is
/// when the file was last written. A stamp that names one moment gives that
/// moment, one that names two gives the first, and one that names none leaves the
/// backup out. A name without a stamp falls back to `modified`.
pub open spec fn backup_moment(local: Option<LocalReading>, modified: Timestamp) -> Option<
    Timestamp,
> {
    match local {
        Some(LocalReading::Single(t)) => Some(t),
        Some(LocalReading::Ambiguous(first, _)) => Some(first),
        Some(LocalReading::Missing) => None,
        None => Some(modified),
    }
}

/// The moment of a backup, from the reading of its stamp and the time of its file.
pub fn moment_of(local: Option<LocalReading>, modified: Timestamp) -> (t: Option<Timestamp>)
    ensures
        t == backup_moment(local, modified),
{
    match local {
        Some(LocalReading::Single(t)) => Some(t),
        Some(LocalReading::Ambiguous(first, _)) => Some(first),
        Some(LocalReading::Missing) => None,
        None => Some(modified),
    }
}

/// One entry of the backups directory.
#[derive(Debug)]
pub struct DirEntry {
    pub name: String,
    pub is_file: bool,
    pub size_bytes: u64,
    pub modified: Timestamp,
}

/// Mathematical value of a [`DirEntry`].
pub ghost struct DirEntryView {
    pub name: Seq<char>,
    pub is_file: bool,
    pub size_bytes: u64,
    pub modified: Timestamp,
}

impl View for DirEntry {
    type V = DirEntryView;

    open spec fn view(&self) -> DirEntryView {
        DirEntryView {
            name: self.name@,
            is_file: self.is_file,
            size_bytes: self.size_bytes,
            modified: self.modified,
        }
    }
}

/// The values of a list of directory entries, in order.
pub open spec fn entry_views(items: Seq<DirEntry>) -> Seq<DirEntryView> {
    Seq::new(items.len(), |i: int| items[i]@)
}

/// Whether a directory entry is a backup: a regular file whose name is that of a
/// backup.
pub open spec fn is_backup_entry(e: DirEntryView) -> bool {
    e.is_file && is_backup_name_spec(e.name)
}

/// What is listed for a backup entry whose moment is `moment`.
pub open spec fn listed(e: DirEntryView, moment: Timestamp) -> BackupInfoView {
    BackupInfoView { id: e.name, timestamp: moment, size_bytes: e.size_bytes, hash: None }
}

/// The listing for one directory entry, given the reading of its stamp in the
/// machine's time zone: nothing for an entry that is no backup or whose stamp
/// names no moment.
pub open spec fn entry_info(e: DirEntryView, local: Option<LocalReading>) -> Option<
    BackupInfoView,
> {
    if is_backup_entry(e) {
        match backup_moment(local, e.modified) {
            Some(t) => Some(listed(e, t)),
            None => None,
        }
    } else {
        None
    }
}

/// The value of a listing entry that may be absent.
pub open spec fn opt_info(o: Option<BackupInfo>) -> Option<BackupInfoView> {
    match o {
        Some(b) => Some(b@),
        None => None,
    }
}

/// The listing for one directory entry, given the reading of its stamp.
pub fn info_for(e: &DirEntry, local: Option<LocalReading>) -> (r: Option<BackupInfo>)
    ensures
        opt_info(r) == entry_info(e@, local),
{
    if !(e.is_file && is_backup_name(e.name.as_str())) {
        return None;
    }
    match moment_of(local, e.modified) {
        Some(t) => Some(
            BackupInfo {
                id: e.name.clone(),
                timestamp: t,
                size_bytes: e.size_bytes,
                hash: None,
            },
        ),
        None => None,
    }
}

/// Whether the stamp in the name of `e` can be read.
pub open spec fn has_stamp(e: DirEntryView) -> bool {
    civil_time(e) is Some
}

/// What the entries list, in the order of the directory, given for each entry
/// the reading of its stamp in the machine's time zone.
pub open spec fn collected(entries: Seq<DirEntryView>, readings: Seq<Option<LocalReading>>) -> Seq<
    BackupInfoView,
>
    decreases entries.len(),
{
    if entries.len() == 0 || readings.len() != entries.len() {
        Seq::empty()
    } else {
        let rest = collected(entries.drop_last(), readings.drop_last());
        match entry_info(entries.last(), readings.last()) {
            Some(info) => rest.push(info),
            None => rest,
        }
    }
}

/// The listing of a directory for given readings: what the entries list, newest
/// first.
pub open spec fn listing(entries: Seq<DirEntryView>, readings: Seq<Option<LocalReading>>) -> Seq<
    BackupInfoView,
> {
    sorted_newest(collected(entries, readings))
}

/// The civil time that the stamp in the name of `e` writes.
pub open spec fn civil_time(e: DirEntryView) -> Option<(i64, u32)> {
    stamp_reading(stamp_text_spec(e.name))
}

/// Whether `reading` can be the reading of the stamp in the name of `e`: there is
/// one exactly where the stamp can be read, and it fits the civil time that the
/// stamp writes.
pub open spec fn reads_entry(e: DirEntryView, reading: Option<LocalReading>) -> bool {
    &&& reading is Some <==> has_stamp(e)
    &&& reading is Some ==> {
        let (secs, nanos) = civil_time(e)->0;
        reading_fits(reading->0, secs, nanos)
    }
}

/// Whether `readings` holds, for each backup among `entries`, a reading of the
/// stamp in its name.
pub open spec fn reads(entries: Seq<DirEntryView>, readings: Seq<Option<LocalReading>>) -> bool {
    &&& readings.len() == entries.len()
    &&& forall|i: int|
        0 <= i < entries.len() && is_backup_entry(#[trigger] entries[i]) ==> reads_entry(
            entries[i],
            readings[i],
        )
}

/// Lists the backups among `entries`, newest first, given the reading of each
/// entry's stamp. Lists of different lengths give an empty listing.
pub fn list_from(entries: &Vec<DirEntry>, readings: &Vec<Option<LocalReading>>) -> (out: Vec<
    BackupInfo,
>)
    ensures
        info_views(out@) == listing(entry_views(entries@), readings@),
        newest_first(info_views(out@)),
        out@.len() <= entries@.len(),
{
    let ghost all = entry_views(entries@);
    let mut found: Vec<BackupInfo> = Vec::new();
    if readings.len() != entries.len() {
        assert(info_views(found@) =~= Seq::<BackupInfoView>::empty());
        return found;
    }
    let mut i: usize = 0;
    assert(all.subrange(0, 0) =~= Seq::<DirEntryView>::empty());
    assert(info_views(found@) =~= collected(all.subrange(0, 0), readings@.subrange(0, 0)));
    while i < entries.len()
        invariant
            i <= entries.len(),
            readings.len() == entries.len(),
            all == entry_views(entries@),
            found@.len() <= i,
            info_views(found@) == collected(
                all.subrange(0, i as int),
                readings@.subrange(0, i as int),
            ),
        decreases entries.len() - i,
    {
        proof {
            let t = all.subrange(0, i + 1);
            let r = readings@.subrange(0, i + 1);
            assert(t.drop_last() =~= all.subrange(0, i as int));
            assert(r.drop_last() =~= readings@.subrange(0, i as int));
            assert(t.last() == all[i as int]);
            assert(r.last() == readings@[i as int]);
        }
        let ghost prev = info_views(found@);
        match info_for(&entries[i], readings[i]) {
            Some(info) => {
                found.push(info);
                assert(info_views(found@) =~= prev.push(info@));
            },
            None => {},
        }
        i = i + 1;
    }
    proof {
        assert(all.subrange(0, i as int) =~= all);
        assert(readings@.subrange(0, i as int) =~= readings@);
    }
    sort_newest_first(found)
}

fn read_entry(e: &DirEntry) -> (r: Option<LocalReading>)
    ensures
        is_backup_entry(e@) ==> reads_entry(e@, r),
{
    if !(e.is_file && is_backup_name(e.name.as_str())) {
        return None;
    }
    let stamp = stamp_text(e.name.as_str());
    match read_stamp(stamp.as_str()) {
        Some((secs, nanos)) => Some(local_to_utc(secs, nanos)),
        None => None,
    }
}

/// What the directory of a path is found to be.
#[derive(Debug, Clone, Copy, PartialEq, Eq, Structural)]
pub enum PathState {
    Missing,
    Directory,
    File,
    /// Present, but neither a regular file nor a directory.
    Other,
}

/// Creates, lists, prunes, verifies and restores the backups of one store.
#[derive(Debug)]
pub struct BackupManager {
    live_db_path: String,
    backups_dir: String,
}

/// What the manager's owner has to do before the manager can be used.
#[derive(Debug, Clone, Copy, PartialEq, Eq, Structural)]
pub enum Preparation {
    /// The backups directory is there.
    Nothing,
    /// The backups directory has to be created.
    CreateDirectory,
}

impl BackupManager {
    /// The path of the store.
    pub closed spec fn live_db(&self) -> Seq<char> {
        self.live_db_path@
    }

    /// The directory that holds the backups.
    pub closed spec fn dir(&self) -> Seq<char> {
        self.backups_dir@
    }

    /// A manager for the store at `live_db_path` with its backups in `backups_dir`,
    /// which is found to be `state`. A directory that is missing is to be created;
    /// a path that exists and is no directory is refused.
    pub fn new(live_db_path: &str, backups_dir: &str, state: PathState) -> (r: Result<
        (BackupManager, Preparation),
        Error,
    >)
        ensures
            state == PathState::Missing ==> r is Ok && (r->Ok_0).1 == Preparation::CreateDirectory,
            state == PathState::Directory ==> r is Ok && (r->Ok_0).1 == Preparation::Nothing,
            r is Ok ==> (r->Ok_0).0.live_db() == live_db_path@ && (r->Ok_0).0.dir()
                == backups_dir@,
            state == PathState::File || state == PathState::Other ==> r is Err && (r->Err_0)@
                == ErrorView::Other(
                "Backups path exists but is not a directory: "@ + backups_dir@,
            ),
    {
        match state {
            PathState::File | PathState::Other => {
                let mut msg = "Backups path exists but is not a directory: ".to_owned();
                msg.append(backups_dir);
                Err(Error::Other(msg))
            },
            PathState::Missing => Ok(
                (
                    BackupManager {
                        live_db_path: live_db_path.to_owned(),
                        backups_dir: backups_dir.to_owned(),
                    },
                    Preparation::CreateDirectory,
                ),
            ),
            PathState::Directory => Ok(
                (
                    BackupManager {
                        live_db_path: live_db_path.to_owned(),
                        backups_dir: backups_dir.to_owned(),
                    },
                    Preparation::Nothing,
                ),
            ),
        }
    }

    /// The path of the store.
    pub fn live_db_path(&self) -> (p: &str)
        ensures
            p@ == self.live_db(),
    {
        self.live_db_path.as_str()
    }

    /// The directory that holds the backups.
    pub fn backups_dir(&self) -> (p: &str)
        ensures
            p@ == self.dir(),
    {
        self.backups_dir.as_str()
    }

    /// Where the backup `id` lives.
    pub fn backup_path(&self, id: &str) -> (p: String)
        ensures
            p@ == path_join(self.dir(), id@),
    {
        join_of(self.backups_dir.as_str(), id)
    }

    /// The file name for a backup that is taken now: `backup_`, a stamp of the
    /// local time that can be read back, `.db`. The store has to exist.
    pub fn create_backup(&self, live_db: PathState) -> (r: Result<String, Error>)
        ensures
            live_db == PathState::Missing ==> r is Err && (r->Err_0)@ == ErrorView::Io(
                "Cannot create backup from non-existent live DB: Live DB path does not exist: "@
                    + self.live_db(),
            ),
            live_db != PathState::Missing ==> r is Ok && is_backup_name_spec((r->Ok_0)@)
                && exists|stamp: Seq<char>|
                stamp_reading(stamp) is Some && (r->Ok_0)@ == #[trigger] backup_name_spec(stamp),
    {
        if live_db == PathState::Missing {
            let mut msg =
                "Cannot create backup from non-existent live DB: Live DB path does not exist: ".to_owned();
            msg.append(self.live_db_path.as_str());
            return Err(Error::Io(msg));
        }
        let stamp = local_stamp("%Y-%m-%d_%H-%M-%S_%f");
        let name = backup_name(stamp.as_str());
        proof {
            lemma_backup_name(stamp@);
        }
        Ok(name)
    }

    /// What is reported for the backup `id` once it is written.
    pub fn created_info(id: String, modified: Timestamp, size_bytes: u64) -> (b: BackupInfo)
        ensures
            b@ == (BackupInfoView { id: id@, timestamp: modified, size_bytes, hash: None }),
    {
        BackupInfo { id, timestamp: modified, size_bytes, hash: None }
    }

    /// Lists the backups among the entries of the backups directory, newest first.
    /// Each backup is listed under its file name with the moment that its name
    /// states in local time, or with the moment at which the file was last written
    /// where the name states none. A backup whose stamp names no moment in local
    /// time is left out.
    pub fn list_backups(&self, entries: &Vec<DirEntry>) -> (out: Vec<BackupInfo>)
        ensures
            exists|readings: Seq<Option<LocalReading>>|
                reads(entry_views(entries@), readings) && info_views(out@) == #[trigger] listing(
                    entry_views(entries@),
                    readings,
                ),
            newest_first(info_views(out@)),
            out@.len() <= entries@.len(),
    {
        let ghost all = entry_views(entries@);
        let mut readings: Vec<Option<LocalReading>> = Vec::new();
        let mut i: usize = 0;
        while i < entries.len()
            invariant
                i <= entries.len(),
                all == entry_views(entries@),
                readings@.len() == i,
                forall|k: int|
                    0 <= k < i && is_backup_entry(#[trigger] all[k]) ==> reads_entry(
                        all[k],
                        readings@[k],
                    ),
            decreases entries.len() - i,
        {
            let r = read_entry(&entries[i]);
            readings.push(r);
            i = i + 1;
        }
        let out = list_from(entries, &readings);
        assert(reads(all, readings@));
        out
    }

    /// Keeps the `keep_count` newest backups of a listing and marks the rest for
    /// removal.
    pub fn prune(&self, listing: Vec<BackupInfo>, keep_count: usize) -> (r: PruneResult)
        ensures
            info_views(r.kept@) == info_views(listing@).subrange(
                0,
                kept_count(listing@.len(), keep_count),
            ),
            info_views(r.removed@) == info_views(listing@).subrange(
                kept_count(listing@.len(), keep_count),
                listing@.len() as int,
            ),
    {
        prune_listing(listing, keep_count)
    }

    /// The error for a backup that is not there, or is no regular file.
    pub open spec fn not_found(&self, id: Seq<char>) -> ErrorView {
        ErrorView::NotFound(
            "Backup file not found or is not a file: "@ + path_join(self.dir(), id),
        )
    }

    fn missing(&self, id: &str) -> (e: Error)
        ensures
            e@ == self.not_found(id@),
    {
        let mut msg = "Backup file not found or is not a file: ".to_owned();
        let p = self.backup_path(id);
        msg.append(p.as_str());
        Error::NotFound(msg)
    }

    /// Judges the backup `id`, found to be `state`, by the answer of the store's
    /// integrity check, where the check could be run: the backup is sound exactly
    /// if the answer is `ok`.
    pub fn verify_backup(&self, id: &str, state: PathState, answer: &str) -> (r: Result<
        bool,
        Error,
    >)
        ensures
            state == PathState::File ==> r is Ok && r->Ok_0 == (answer@ == "ok"@),
            state != PathState::File ==> r is Err && (r->Err_0)@ == self.not_found(id@),
    {
        if state != PathState::File {
            return Err(self.missing(id));
        }
        Ok(same_text(&chars_of(answer), &chars_of("ok")))
    }

    /// Plans the restore of the backup `id`, found to be `state`: the file to copy
    /// and the store to copy it over.
    pub fn restore_from_backup(&self, id: &str, state: PathState) -> (r: Result<
        (String, String),
        Error,
    >)
        ensures
            state == PathState::File ==> r is Ok && (r->Ok_0).0@ == path_join(self.dir(), id@)
                && (r->Ok_0).1@ == self.live_db(),
            state != PathState::File ==> r is Err && (r->Err_0)@ == self.not_found(id@),
    {
        if state != PathState::File {
            return Err(self.missing(id));
        }
        Ok((self.backup_path(id), self.live_db_path.clone()))
    }
}

/// Where the stamp of an entry has a reading, the time at which its file was last
/// written plays no part in what is listed.
pub proof fn lemma_modified_unread(e: DirEntryView, other: Timestamp, local: LocalReading)
    ensures
        entry_info(e, Some(local)) == entry_info(
            DirEntryView { modified: other, ..e },
            Some(local),
        ),
{
}

/// Whether `info` is listed for one of the entries under its reading.
pub open spec fn listed_among(
    entries: Seq<DirEntryView>,
    readings: Seq<Option<LocalReading>>,
    info: BackupInfoView,
) -> bool {
    exists|i: int|
        0 <= i < entries.len() && entry_info(#[trigger] entries[i], readings[i]) == Some(info)
}

/// The listing holds exactly what the entries list: every backup whose reading
/// gives it a moment is listed, under its own name and size, and nothing else is.
pub proof fn lemma_collected(entries: Seq<DirEntryView>, readings: Seq<Option<LocalReading>>)
    requires
        readings.len() == entries.len(),
    ensures
        collected(entries, readings).len() <= entries.len(),
        forall|i: int|
            0 <= i < entries.len() && entry_info(#[trigger] entries[i], readings[i]) is Some
                ==> collected(entries, readings).contains(entry_info(entries[i], readings[i])->0),
        forall|k: int|
            0 <= k < collected(entries, readings).len() ==> listed_among(
                entries,
                readings,
                #[trigger] collected(entries, readings)[k],
            ),
    decreases entries.len(),
{
    if entries.len() > 0 {
        let t = entries.drop_last();
        let rt = readings.drop_last();
        lemma_collected(t, rt);
        let c = collected(entries, readings);
        let ct = collected(t, rt);
        assert forall|i: int|
            0 <= i < entries.len() && entry_info(#[trigger] entries[i], readings[i])
                is Some implies c.contains(entry_info(entries[i], readings[i])->0) by {
            let x = entry_info(entries[i], readings[i])->0;
            if i < t.len() {
                assert(t[i] == entries[i] && rt[i] == readings[i]);
                let k = choose|k: int| 0 <= k < ct.len() && ct[k] == x;
                assert(c[k] == x);
            } else {
                assert(c[c.len() - 1] == x);
            }
        }
        assert forall|k: int| 0 <= k < c.len() implies listed_among(
            entries,
            readings,
            #[trigger] c[k],
        ) by {
            if k < ct.len() {
                assert(c[k] == ct[k]);
                assert(listed_among(t, rt, ct[k]));
                let i = choose|i: int|
                    0 <= i < t.len() && entry_info(#[trigger] t[i], rt[i]) == Some(ct[k]);
                assert(entries[i] == t[i] && readings[i] == rt[i]);
            } else {
                assert(entry_info(entries[entries.len() - 1], readings[entries.len() - 1])
                    == Some(c[k]));
            }
        }
    }
}

/// Pruning a listing that is newest first keeps at most `keep_count` entries, the
/// newest ones, still newest first; kept and removed together are the listing.
pub proof fn lemma_prune(listing: Seq<BackupInfoView>, keep_count: usize)
    requires
        newest_first(listing),
    ensures
        kept_count(listing.len(), keep_count) <= keep_count,
        0 <= kept_count(listing.len(), keep_count) <= listing.len(),
        newest_first(listing.subrange(0, kept_count(listing.len(), keep_count))),
        listing.subrange(0, kept_count(listing.len(), keep_count)) + listing.subrange(
            kept_count(listing.len(), keep_count),
            listing.len() as int,
        ) == listing,
        forall|i: int, j: int|
            0 <= i < kept_count(listing.len(), keep_count) <= j < listing.len() ==> !earlier(
                listing[i].timestamp,
                listing[j].timestamp,
            ),
        keep_count == 0 ==> kept_count(listing.len(), keep_count) == 0,
{
    let c = kept_count(listing.len(), keep_count);
    assert(listing.subrange(0, c) + listing.subrange(c, listing.len() as int) =~= listing);
}

/// A name made by `backup_name_spec` is the name of a backup.
pub proof fn lemma_backup_name(stamp: Seq<char>)
    ensures
        is_backup_name_spec(backup_name_spec(stamp)),
{
    let n = backup_name_spec(stamp);
    let p = "backup_"@;
    let s = ".db"@;
    assert(n.subrange(0, p.len() as int) =~= p);
    assert(n.subrange(n.len() - s.len(), n.len() as int) =~= s);
}

} // verus!
