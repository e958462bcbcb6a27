pub mod database;
pub mod tags;

use vstd::prelude::*;
use vstd::string::StringExecFns;
use crate::error::{Error, ErrorView};
use crate::text::{
    chars_of, extend, has_prefix, non_empty, replace, replace_char, rows, same_text, slice_of,
    split, split_on, starts_with, string_of, texts,
};

verus! {

/// Number of migrations that the library carries.
pub const MIGRATION_COUNT: usize = 7;

/// Schema version of this library: the version of its last migration.
pub const SCHEMA_VERSION: i32 = 7;

/// File name of the migration at `index`, in the order in which they apply.
pub open spec fn migration_name_spec(index: int) -> Seq<char> {
    if index == 0 {
        "0001_initial_schema.sql"@
    } else if index == 1 {
        "0002_update_fts_and_triggers.sql"@
    } else if index == 2 {
        "0003_create_links_collections_views.sql"@
    } else if index == 3 {
        "0004_fix_hierarchical_tags_fts.sql"@
    } else if index == 4 {
        "0005_add_dirty_table.sql"@
    } else if index == 5 {
        "0006_drop_tags_canonical_id.sql"@
    } else {
        "0007_fix_rename_trigger.sql"@
    }
}

/// Version of the migration at `index`: the number that its file name starts with.
pub open spec fn migration_version_spec(index: int) -> i64 {
    (index + 1) as i64
}

/// File name of the migration at `index`, if the library carries that many.
pub fn migration_name(index: usize) -> (name: Option<&'static str>)
    ensures
        index < MIGRATION_COUNT ==> name is Some && name->0@ == migration_name_spec(index as int),
        index >= MIGRATION_COUNT ==> name is None,
{
    if index == 0 {
        Some("0001_initial_schema.sql")
    } else if index == 1 {
        Some("0002_update_fts_and_triggers.sql")
    } else if index == 2 {
        Some("0003_create_links_collections_views.sql")
    } else if index == 3 {
        Some("0004_fix_hierarchical_tags_fts.sql")
    } else if index == 4 {
        Some("0005_add_dirty_table.sql")
    } else if index == 5 {
        Some("0006_drop_tags_canonical_id.sql")
    } else if index == 6 {
        Some("0007_fix_rename_trigger.sql")
    } else {
        None
    }
}

/// Version of the migration at `index`, if the library carries that many.
pub fn migration_version(index: usize) -> (v: Option<i64>)
    ensures
        index < MIGRATION_COUNT ==> v == Some(migration_version_spec(index as int)),
        index >= MIGRATION_COUNT ==> v is None,
{
    if index < MIGRATION_COUNT {
        Some((index as i64) + 1)
    } else {
        None
    }
}

/// Whether `c` is a decimal digit.
pub open spec fn is_digit(c: char) -> bool {
    '0' <= c <= '9'
}

/// The value of a decimal digit.
pub open spec fn digit_value(c: char) -> nat {
    (c as u32 - '0' as u32) as nat
}

/// Whether `s` holds decimal digits only.
pub open spec fn all_digits(s: Seq<char>) -> bool {
    forall|i: int| 0 <= i < s.len() ==> is_digit(#[trigger] s[i])
}

/// The number that a run of decimal digits writes.
pub open spec fn decimal_value(s: Seq<char>) -> nat
    decreases s.len(),
{
    if s.len() == 0 {
        0
    } else {
        decimal_value(s.drop_last()) * 10 + digit_value(s.last())
    }
}

/// The version that a migration's file name announces: the decimal number before
/// its first underscore, if that is a run of digits that fits. Digits are all that
/// a version is written with: a name that begins with a sign, `+` or `-`,
/// announces no version.
pub open spec fn announced_version(name: Seq<char>) -> Option<i64> {
    let head = split_on(name, '_')[0];
    if head.len() > 0 && all_digits(head) && decimal_value(head) <= i64::MAX {
        Some(decimal_value(head) as i64)
    } else {
        None
    }
}

/// A run of digits writes no smaller a number than any of its prefixes.
pub proof fn lemma_decimal_monotone(s: Seq<char>, n: int)
    requires
        0 <= n <= s.len(),
    ensures
        decimal_value(s.subrange(0, n)) <= decimal_value(s),
    decreases s.len() - n,
{
    if n < s.len() {
        let t = s.drop_last();
        assert(t.subrange(0, n) =~= s.subrange(0, n));
        lemma_decimal_monotone(t, n);
    } else {
        assert(s.subrange(0, n) =~= s);
    }
}

/// Reads a run of decimal digits. A sign is no digit: a text that begins with one
/// is refused.
pub fn parse_decimal(s: &Vec<char>) -> (v: Option<i64>)
    ensures
        v == if s@.len() > 0 && all_digits(s@) && decimal_value(s@) <= i64::MAX {
            Some(decimal_value(s@) as i64)
        } else {
            None::<i64>
        },
{
    if s.len() == 0 {
        return None;
    }
    let mut acc: i64 = 0;
    let mut i: usize = 0;
    assert(s@.subrange(0, 0) =~= Seq::<char>::empty());
    while i < s.len()
        invariant
            i <= s.len(),
            0 <= acc,
            acc == decimal_value(s@.subrange(0, i as int)),
            all_digits(s@.subrange(0, i as int)),
        decreases s.len() - i,
    {
        let c = s[i];
        proof {
            let t = s@.subrange(0, i + 1);
            assert(t.drop_last() =~= s@.subrange(0, i as int));
            assert(t.last() == c);
        }
        if !(c >= '0' && c <= '9') {
            assert(!all_digits(s@));
            return None;
        }
        let d: i64 = (c as u32 - '0' as u32) as i64;
        if acc > (i64::MAX - d) / 10 {
            proof {
                lemma_decimal_monotone(s@, i + 1);
                assert(acc * 10 + d > i64::MAX) by (nonlinear_arith)
                    requires
                        acc > (i64::MAX - d) / 10,
                        0 <= d <= 9,
                ;
            }
            return None;
        }
        assert(acc * 10 + d <= i64::MAX) by (nonlinear_arith)
            requires
                acc <= (i64::MAX - d) / 10,
                0 <= d <= 9,
                0 <= acc,
        ;
        acc = acc * 10 + d;
        i = i + 1;
        proof {
            let t = s@.subrange(0, i as int);
            assert forall|k: int| 0 <= k < t.len() implies is_digit(#[trigger] t[k]) by {
                if k < i - 1 {
                    assert(s@.subrange(0, i - 1)[k] == t[k]);
                }
            }
        }
    }
    assert(s@.subrange(0, i as int) =~= s@);
    Some(acc)
}

/// The version that a migration's file name announces.
pub fn parse_version(name: &str) -> (v: Option<i64>)
    ensures
        v == announced_version(name@),
{
    let chars = chars_of(name);
    let pieces = split(&chars, '_');
    proof {
        crate::text::lemma_split_nonempty(chars@, '_');
    }
    parse_decimal(&pieces[0])
}

/// Whether `v` is one of `versions`.
pub fn has_version(versions: &Vec<i64>, v: i64) -> (b: bool)
    ensures
        b == versions@.contains(v),
{
    let mut i: usize = 0;
    while i < versions.len()
        invariant
            i <= versions.len(),
            forall|k: int| 0 <= k < i ==> versions@[k] != v,
        decreases versions.len() - i,
    {
        if versions[i] == v {
            return true;
        }
        i = i + 1;
    }
    false
}

/// Indices below `upto` of the migrations whose version is not among `applied`,
/// in order.
pub open spec fn pending_migrations(applied: Seq<i64>, upto: int) -> Seq<usize>
    decreases upto,
{
    if upto <= 0 {
        Seq::empty()
    } else if applied.contains(migration_version_spec(upto - 1)) {
        pending_migrations(applied, upto - 1)
    } else {
        pending_migrations(applied, upto - 1).push((upto - 1) as usize)
    }
}

/// The migrations that an open has to run, in order: every migration that the
/// bookkeeping table does not record. Recorded ones are skipped.
pub fn plan_migrations(applied: &Vec<i64>) -> (plan: Vec<usize>)
    ensures
        plan@ == pending_migrations(applied@, MIGRATION_COUNT as int),
{
    let mut plan: Vec<usize> = Vec::new();
    let mut i: usize = 0;
    while i < MIGRATION_COUNT
        invariant
            i <= MIGRATION_COUNT,
            plan@ == pending_migrations(applied@, i as int),
        decreases MIGRATION_COUNT - i,
    {
        let v: i64 = (i as i64) + 1;
        if !has_version(applied, v) {
            plan.push(i);
        }
        i = i + 1;
    }
    plan
}

/// Versions below `upto + 1` that the bookkeeping table lacks, in order.
pub open spec fn unrecorded(recorded: Seq<i64>, upto: int) -> Seq<i64>
    decreases upto,
{
    if upto <= 0 {
        Seq::empty()
    } else if recorded.contains(migration_version_spec(upto - 1)) {
        unrecorded(recorded, upto - 1)
    } else {
        unrecorded(recorded, upto - 1).push(migration_version_spec(upto - 1))
    }
}

/// The versions of the library's migrations that the bookkeeping table does not
/// record. A gap here is worth a warning.
pub fn missing_versions(recorded: &Vec<i64>) -> (missing: Vec<i64>)
    ensures
        missing@ == unrecorded(recorded@, MIGRATION_COUNT as int),
{
    let mut missing: Vec<i64> = Vec::new();
    let mut i: usize = 0;
    while i < MIGRATION_COUNT
        invariant
            i <= MIGRATION_COUNT,
            missing@ == unrecorded(recorded@, i as int),
        decreases MIGRATION_COUNT - i,
    {
        let v: i64 = (i as i64) + 1;
        if !has_version(recorded, v) {
            missing.push(v);
        }
        i = i + 1;
    }
    missing
}

/// The decimal digit for a value below 10.
pub open spec fn digit_char(n: nat) -> char {
    if n == 0 {
        '0'
    } else if n == 1 {
        '1'
    } else if n == 2 {
        '2'
    } else if n == 3 {
        '3'
    } else if n == 4 {
        '4'
    } else if n == 5 {
        '5'
    } else if n == 6 {
        '6'
    } else if n == 7 {
        '7'
    } else if n == 8 {
        '8'
    } else {
        '9'
    }
}

/// The decimal digits of `n`, without leading zeros.
pub open spec fn decimal_digits(n: nat) -> Seq<char>
    decreases n,
{
    if n < 10 {
        seq![digit_char(n)]
    } else {
        decimal_digits(n / 10).push(digit_char(n % 10))
    }
}

/// `n` in decimal, with a minus sign where it is negative.
pub open spec fn decimal(n: int) -> Seq<char> {
    if n < 0 {
        seq!['-'] + decimal_digits((-n) as nat)
    } else {
        decimal_digits(n as nat)
    }
}

fn digit_of(n: u64) -> (c: char)
    requires
        n < 10,
    ensures
        c == digit_char(n as nat),
{
    if n == 0 {
        '0'
    } else if n == 1 {
        '1'
    } else if n == 2 {
        '2'
    } else if n == 3 {
        '3'
    } else if n == 4 {
        '4'
    } else if n == 5 {
        '5'
    } else if n == 6 {
        '6'
    } else if n == 7 {
        '7'
    } else if n == 8 {
        '8'
    } else {
        '9'
    }
}

fn digits_of(n: u64) -> (out: Vec<char>)
    ensures
        out@ == decimal_digits(n as nat),
    decreases n,
{
    if n < 10 {
        let mut out: Vec<char> = Vec::new();
        out.push(digit_of(n));
        assert(out@ =~= seq![digit_char(n as nat)]);
        out
    } else {
        let mut out = digits_of(n / 10);
        out.push(digit_of(n % 10));
        out
    }
}

/// `n` in decimal.
pub fn int_text(n: i64) -> (out: String)
    ensures
        out@ == decimal(n as int),
{
    if n < 0 {
        let magnitude: u64 = if n == i64::MIN {
            9223372036854775808u64
        } else {
            (-n) as u64
        };
        let mut out: Vec<char> = Vec::new();
        out.push('-');
        assert(out@ =~= seq!['-']);
        let digits = digits_of(magnitude);
        extend(&mut out, &digits);
        string_of(&out)
    } else {
        let digits = digits_of(n as u64);
        string_of(&digits)
    }
}

/// The message of a store whose schema is not this library's.
pub open spec fn mismatch_text(current: i32) -> Seq<char> {
    "database schema version "@ + decimal(current as int) + " does not match library version "@
        + decimal(SCHEMA_VERSION as int)
}

/// The strict version check at open: the highest recorded version must be the
/// library's own. Anything else refuses the store.
pub fn check_schema_version(current: i32) -> (r: Result<(), Error>)
    ensures
        current == SCHEMA_VERSION ==> r is Ok,
        current != SCHEMA_VERSION ==> r is Err && (r->Err_0)@ == ErrorView::Database(
            mismatch_text(current),
        ),
{
    if current == SCHEMA_VERSION {
        Ok(())
    } else {
        let mut msg = "database schema version ".to_owned();
        let a = int_text(current as i64);
        msg.append(a.as_str());
        msg.append(" does not match library version ");
        let b = int_text(SCHEMA_VERSION as i64);
        msg.append(b.as_str());
        Err(Error::Database(msg))
    }
}

/// The names of the tags along a tag path: its pieces between slashes, without
/// the empty ones.
pub open spec fn tag_segments_spec(path: Seq<char>) -> Seq<Seq<char>> {
    non_empty(split_on(path, '/'))
}

/// The pieces that are not empty, in order.
pub fn keep_non_empty(pieces: &Vec<Vec<char>>) -> (out: Vec<String>)
    ensures
        texts(out@) == non_empty(rows(pieces@)),
{
    let ghost all = rows(pieces@);
    let mut out: Vec<String> = Vec::new();
    let mut i: usize = 0;
    assert(all.subrange(0, 0) =~= Seq::<Seq<char>>::empty());
    assert(texts(out@) =~= non_empty(all.subrange(0, 0)));
    while i < pieces.len()
        invariant
            i <= pieces.len(),
            all == rows(pieces@),
            texts(out@) == non_empty(all.subrange(0, i as int)),
        decreases pieces.len() - i,
    {
        proof {
            let t = all.subrange(0, i + 1);
            assert(t.drop_last() =~= all.subrange(0, i as int));
            assert(t.last() == all[i as int]);
        }
        if pieces[i].len() > 0 {
            let ghost prev = texts(out@);
            out.push(string_of(&pieces[i]));
            assert(texts(out@) =~= prev.push(all[i as int]));
        }
        i = i + 1;
    }
    assert(all.subrange(0, i as int) =~= all);
    out
}

/// The names of the tags along `path`, root first. A path without a name is
/// refused.
pub fn tag_segments(path: &str) -> (r: Result<Vec<String>, Error>)
    ensures
        tag_segments_spec(path@).len() > 0 ==> r is Ok && texts(r->Ok_0@) == tag_segments_spec(
            path@,
        ),
        tag_segments_spec(path@).len() == 0 ==> r is Err && (r->Err_0)@ == ErrorView::Other(
            "empty tag path"@,
        ),
{
    let chars = chars_of(path);
    let pieces = split(&chars, '/');
    let segments = keep_non_empty(&pieces);
    if segments.len() == 0 {
        Err(Error::Other("empty tag path".to_owned()))
    } else {
        Ok(segments)
    }
}

/// The message for a path that the index does not hold.
pub fn not_indexed(path: &str) -> (e: Error)
    ensures
        e@ == ErrorView::NotFound("file not indexed: "@ + path@),
{
    let mut msg = "file not indexed: ".to_owned();
    msg.append(path);
    Error::NotFound(msg)
}

/// The message for a view that does not exist.
pub fn no_such_view(name: &str) -> (e: Error)
    ensures
        e@ == ErrorView::NotFound("no view called '"@ + name@ + "'"@),
{
    let mut msg = "no view called '".to_owned();
    msg.append(name);
    msg.append("'");
    Error::NotFound(msg)
}

/// A glob as a pattern of the store's LIKE: every `*` becomes `%`; nothing else
/// changes.
pub open spec fn like_spec(pattern: Seq<char>) -> Seq<char> {
    replace_char(pattern, '*', seq!['%'])
}

/// The glob `pattern` as a pattern of the store's LIKE.
pub fn like_pattern(pattern: &str) -> (like: String)
    ensures
        like@ == like_spec(pattern@),
{
    let p = chars_of(pattern);
    let mut pct: Vec<char> = Vec::new();
    pct.push('%');
    assert(pct@ =~= seq!['%']);
    let out = replace(&p, '*', &pct);
    string_of(&out)
}

/// Which end of a link a pattern is matched against.
#[derive(Debug, Clone, Copy, PartialEq, Eq, Structural)]
pub enum Direction {
    /// The pattern names sources; their targets are listed.
    Out,
    /// The pattern names targets; their sources are listed.
    In,
}

/// The direction that a request names: `in` for incoming, anything else, or
/// nothing, for outgoing.
pub fn direction_of(word: Option<&str>) -> (d: Direction)
    ensures
        d == if word is Some && word->0@ == "in"@ {
            Direction::In
        } else {
            Direction::Out
        },
{
    match word {
        Some(w) => {
            if same_text(&chars_of(w), &chars_of("in")) {
                Direction::In
            } else {
                Direction::Out
            }
        },
        None => Direction::Out,
    }
}

impl Direction {
    /// The column of the link table against which the pattern's files are matched.
    pub fn matched_column(self) -> (c: &'static str)
        ensures
            c@ == match self {
                Direction::Out => "src_file_id"@,
                Direction::In => "dst_file_id"@,
            },
    {
        match self {
            Direction::Out => "src_file_id",
            Direction::In => "dst_file_id",
        }
    }

    /// The column of the link table from which the other end is read.
    pub fn listed_column(self) -> (c: &'static str)
        ensures
            c@ == match self {
                Direction::Out => "dst_file_id"@,
                Direction::In => "src_file_id"@,
            },
    {
        match self {
            Direction::Out => "dst_file_id",
            Direction::In => "src_file_id",
        }
    }
}

/// `s` without the slashes at its end.
pub open spec fn trim_slashes(s: Seq<char>) -> Seq<char>
    decreases s.len(),
{
    if s.len() > 0 && s.last() == '/' {
        trim_slashes(s.drop_last())
    } else {
        s
    }
}

fn trimmed_len(s: &Vec<char>) -> (n: usize)
    ensures
        n <= s@.len(),
        s@.subrange(0, n as int) == trim_slashes(s@),
{
    let mut n: usize = s.len();
    assert(s@.subrange(0, n as int) =~= s@);
    while n > 0 && s[n - 1] == '/'
        invariant
            n <= s.len(),
            trim_slashes(s@.subrange(0, n as int)) == trim_slashes(s@),
        decreases n,
    {
        assert(s@.subrange(0, n as int).drop_last() =~= s@.subrange(0, n - 1));
        n = n - 1;
    }
    n
}

/// The prefix that marks a path as lying inside `dir`: `dir` without the slashes
/// at its end, then one slash.
pub open spec fn dir_prefix(dir: Seq<char>) -> Seq<char> {
    trim_slashes(dir).push('/')
}

/// Whether `path` lies inside the directory `dir`.
pub open spec fn inside(path: Seq<char>, dir: Seq<char>) -> bool {
    has_prefix(path, dir_prefix(dir))
}

/// Where a file at `path` lives after the directory `old_dir` has become
/// `new_dir`: the path with its leading `old_dir` replaced by `new_dir`, for a
/// path inside `old_dir`, and nothing for any other path.
pub open spec fn moved_path(path: Seq<char>, old_dir: Seq<char>, new_dir: Seq<char>) -> Option<
    Seq<char>,
> {
    if inside(path, old_dir) {
        if has_prefix(path, old_dir) {
            Some(new_dir + path.subrange(old_dir.len() as int, path.len() as int))
        } else {
            Some(path)
        }
    } else {
        None
    }
}

/// The contents of a character vector that may be absent.
pub open spec fn opt_chars(o: Option<Vec<char>>) -> Option<Seq<char>> {
    match o {
        Some(v) => Some(v@),
        None => None,
    }
}

fn moved(path: &Vec<char>, old_dir: &Vec<char>, new_dir: &Vec<char>) -> (out: Option<Vec<char>>)
    ensures
        opt_chars(out) == moved_path(path@, old_dir@, new_dir@),
{
    let n = trimmed_len(old_dir);
    let mut prefix = slice_of(old_dir, 0, n);
    prefix.push('/');
    if !starts_with(path, &prefix) {
        return None;
    }
    if starts_with(path, old_dir) {
        let mut out = slice_of(new_dir, 0, new_dir.len());
        assert(new_dir@.subrange(0, new_dir@.len() as int) =~= new_dir@);
        let rest = slice_of(path, old_dir.len(), path.len());
        extend(&mut out, &rest);
        Some(out)
    } else {
        let out = slice_of(path, 0, path.len());
        assert(path@.subrange(0, path@.len() as int) =~= path@);
        Some(out)
    }
}

/// One row of the file table, as far as renames read it.
#[derive(Debug)]
pub struct FileRow {
    pub id: i64,
    pub path: String,
}

/// Mathematical value of a [`FileRow`].
pub ghost struct FileRowView {
    pub id: i64,
    pub path: Seq<char>,
}

impl View for FileRow {
    type V = FileRowView;

    open spec fn view(&self) -> FileRowView {
        FileRowView { id: self.id, path: self.path@ }
    }
}

/// The values of a list of file rows, in order.
pub open spec fn row_views(items: Seq<FileRow>) -> Seq<FileRowView> {
    Seq::new(items.len(), |i: int| items[i]@)
}

/// The rows that a rename of `old_dir` to `new_dir` changes, each with its old id
/// and its new path, in order. These are also the rows that become dirty.
pub open spec fn moved_rows(files: Seq<FileRowView>, old_dir: Seq<char>, new_dir: Seq<char>) -> Seq<
    FileRowView,
>
    decreases files.len(),
{
    if files.len() == 0 {
        Seq::empty()
    } else {
        let rest = moved_rows(files.drop_last(), old_dir, new_dir);
        match moved_path(files.last().path, old_dir, new_dir) {
            Some(p) => rest.push(FileRowView { id: files.last().id, path: p }),
            None => rest,
        }
    }
}

/// Plans the rename of a directory over the rows of the file table: every file
/// inside `old_dir` keeps its id and moves to the same place inside `new_dir`.
pub fn rename_directory(files: &Vec<FileRow>, old_dir: &str, new_dir: &str) -> (out: Vec<FileRow>)
    ensures
        row_views(out@) == moved_rows(row_views(files@), old_dir@, new_dir@),
{
    let old = chars_of(old_dir);
    let new = chars_of(new_dir);
    let ghost all = row_views(files@);
    let mut out: Vec<FileRow> = Vec::new();
    let mut i: usize = 0;
    assert(all.subrange(0, 0) =~= Seq::<FileRowView>::empty());
    assert(row_views(out@) =~= moved_rows(all.subrange(0, 0), old@, new@));
    while i < files.len()
        invariant
            i <= files.len(),
            all == row_views(files@),
            old@ == old_dir@,
            new@ == new_dir@,
            row_views(out@) == moved_rows(all.subrange(0, i as int), old@, new@),
        decreases files.len() - i,
    {
        proof {
            let t = all.subrange(0, i + 1);
            assert(t.drop_last() =~= all.subrange(0, i as int));
            assert(t.last() == all[i as int]);
        }
        let p = chars_of(files[i].path.as_str());
        match moved(&p, &old, &new) {
            Some(np) => {
                let ghost prev = row_views(out@);
                let row = FileRow { id: files[i].id, path: string_of(&np) };
                out.push(row);
                assert(row_views(out@) =~= prev.push(
                    FileRowView { id: all[i as int].id, path: np@ },
                ));
            },
            None => {},
        }
        i = i + 1;
    }
    assert(all.subrange(0, i as int) =~= all);
    out
}

/// The row to change when the file at `old_path` has moved to `new_path`: the
/// first row that holds `old_path`, with its id and the new path.
pub open spec fn renamed_row(files: Seq<FileRowView>, old_path: Seq<char>, new_path: Seq<char>)
    -> Option<FileRowView>
    decreases files.len(),
{
    if files.len() == 0 {
        None
    } else {
        match renamed_row(files.drop_last(), old_path, new_path) {
            Some(r) => Some(r),
            None => if files.last().path == old_path {
                Some(FileRowView { id: files.last().id, path: new_path })
            } else {
                None
            },
        }
    }
}

/// The value of a file row that may be absent.
pub open spec fn opt_row(o: Option<FileRow>) -> Option<FileRowView> {
    match o {
        Some(r) => Some(r@),
        None => None,
    }
}

/// Plans the rename of one file over the rows of the file table: the row keeps its
/// id and takes the new path. A path that the table does not hold is refused.
pub fn update_file_path(files: &Vec<FileRow>, old_path: &str, new_path: &str) -> (r: Result<
    FileRow,
    Error,
>)
    ensures
        match renamed_row(row_views(files@), old_path@, new_path@) {
            Some(row) => r is Ok && (r->Ok_0)@ == row,
            None => r is Err && (r->Err_0)@ == ErrorView::NotFound(
                "file not indexed: "@ + old_path@,
            ),
        },
{
    let old = chars_of(old_path);
    let ghost all = row_views(files@);
    let mut i: usize = 0;
    assert(all.subrange(0, 0) =~= Seq::<FileRowView>::empty());
    while i < files.len()
        invariant
            i <= files.len(),
            all == row_views(files@),
            old@ == old_path@,
            renamed_row(all.subrange(0, i as int), old_path@, new_path@) is None,
        decreases files.len() - i,
    {
        proof {
            let t = all.subrange(0, i + 1);
            assert(t.drop_last() =~= all.subrange(0, i as int));
            assert(t.last() == all[i as int]);
        }
        if same_text(&chars_of(files[i].path.as_str()), &old) {
            proof {
                lemma_renamed_row_prefix(all, old_path@, new_path@, i + 1);
            }
            return Ok(FileRow { id: files[i].id, path: new_path.to_owned() });
        }
        i = i + 1;
    }
    assert(all.subrange(0, i as int) =~= all);
    Err(not_indexed(old_path))
}

/// A directory rename moves every file at `a/x` to `b/x`, where `a` is written
/// without a slash at its end.
pub proof fn lemma_directory_rename_moves(a: Seq<char>, b: Seq<char>, x: Seq<char>)
    requires
        a.len() == 0 || a.last() != '/',
    ensures
        moved_path(a + seq!['/'] + x, a, b) == Some(b + seq!['/'] + x),
{
    let path = a + seq!['/'] + x;
    assert(trim_slashes(a) == a);
    assert(path.subrange(0, (a.len() + 1) as int) =~= a.push('/'));
    assert(path.subrange(0, a.len() as int) =~= a);
    assert(path.subrange(a.len() as int, path.len() as int) =~= seq!['/'] + x);
    assert(b + (seq!['/'] + x) =~= b + seq!['/'] + x);
}

/// A directory rename keeps ids: the plan holds, for every file inside the old
/// directory, one row with the file's id and its new path, and holds nothing else.
pub proof fn lemma_directory_rename_keeps_ids(
    files: Seq<FileRowView>,
    old_dir: Seq<char>,
    new_dir: Seq<char>,
)
    ensures
        forall|i: int|
            0 <= i < files.len() && moved_path((#[trigger] files[i]).path, old_dir, new_dir)
                is Some ==> moved_rows(files, old_dir, new_dir).contains(
                FileRowView {
                    id: files[i].id,
                    path: moved_path(files[i].path, old_dir, new_dir)->0,
                },
            ),
        forall|k: int|
            0 <= k < moved_rows(files, old_dir, new_dir).len() ==> exists|i: int|
                0 <= i < files.len() && files[i].id == (#[trigger] moved_rows(
                    files,
                    old_dir,
                    new_dir,
                )[k]).id && moved_path(files[i].path, old_dir, new_dir) == Some(
                    moved_rows(files, old_dir, new_dir)[k].path,
                ),
        moved_rows(files, old_dir, new_dir).len() <= files.len(),
    decreases files.len(),
{
    if files.len() > 0 {
        let t = files.drop_last();
        lemma_directory_rename_keeps_ids(t, old_dir, new_dir);
        let r = moved_rows(files, old_dir, new_dir);
        let rt = moved_rows(t, old_dir, new_dir);
        assert forall|i: int|
            0 <= i < files.len() && moved_path((#[trigger] files[i]).path, old_dir, new_dir)
                is Some implies r.contains(
            FileRowView {
                id: files[i].id,
                path: moved_path(files[i].path, old_dir, new_dir)->0,
            },
        ) by {
            let row = FileRowView {
                id: files[i].id,
                path: moved_path(files[i].path, old_dir, new_dir)->0,
            };
            if i < t.len() {
                assert(t[i] == files[i]);
                let k = choose|k: int| 0 <= k < rt.len() && rt[k] == row;
                assert(r[k] == row);
            } else {
                assert(r[r.len() - 1] == row);
            }
        }
        assert forall|k: int| 0 <= k < r.len() implies exists|i: int|
            0 <= i < files.len() && files[i].id == (#[trigger] r[k]).id && moved_path(
                files[i].path,
                old_dir,
                new_dir,
            ) == Some(r[k].path) by {
            if k < rt.len() {
                assert(r[k] == rt[k]);
                let i = choose|i: int|
                    0 <= i < t.len() && t[i].id == rt[k].id && moved_path(
                        t[i].path,
                        old_dir,
                        new_dir,
                    ) == Some(rt[k].path);
                assert(files[i] == t[i]);
            } else {
                assert(files[files.len() - 1].id == r[k].id);
            }
        }
    }
}

/// The table after the row `row` has been written back: the row with that id has
/// the new path, every other row is as it was.
pub open spec fn with_row(files: Seq<FileRowView>, row: FileRowView) -> Seq<FileRowView> {
    Seq::new(
        files.len(),
        |i: int| if files[i].id == row.id {
            row
        } else {
            files[i]
        },
    )
}

/// No two rows share a path, and no two share an id.
pub open spec fn unique_rows(files: Seq<FileRowView>) -> bool {
    forall|i: int, j: int|
        0 <= i < j < files.len() ==> files[i].path != files[j].path && files[i].id != files[j].id
}

/// A file rename keeps the id: where the table holds a file at `a` and none at `b`,
/// the planned row carries that file's id, and once it is written back exactly one
/// row has the path `b`, it is that file's, and no row has the path `a`.
pub proof fn lemma_file_rename(files: Seq<FileRowView>, a: Seq<char>, b: Seq<char>, i: int)
    requires
        unique_rows(files),
        0 <= i < files.len(),
        files[i].path == a,
        a != b,
        forall|k: int| 0 <= k < files.len() ==> (#[trigger] files[k]).path != b,
    ensures
        renamed_row(files, a, b) == Some(FileRowView { id: files[i].id, path: b }),
        with_row(files, renamed_row(files, a, b)->0)[i] == (FileRowView {
            id: files[i].id,
            path: b,
        }),
        forall|k: int|
            0 <= k < files.len() && k != i ==> (#[trigger] with_row(
                files,
                renamed_row(files, a, b)->0,
            )[k]).path != b,
        forall|k: int|
            0 <= k < files.len() ==> (#[trigger] with_row(files, renamed_row(files, a, b)->0)[k]).path
                != a,
        unique_rows(with_row(files, renamed_row(files, a, b)->0)),
{
    lemma_renamed_row_first(files, a, b);
    let r = renamed_row(files, a, b);
    assert(r is Some);
    let row = r->0;
    let m = choose|m: int| 0 <= m < files.len() && files[m].path == a && row.id == files[m].id;
    assert(m == i);
    let w = with_row(files, row);
    assert forall|k: int| 0 <= k < files.len() && k != i implies (#[trigger] w[k]).path != b by {
        assert(files[k].id != files[i].id);
        assert(w[k] == files[k]);
    }
    assert forall|k: int| 0 <= k < files.len() implies (#[trigger] w[k]).path != a by {
        if k != i {
            assert(files[k].id != files[i].id);
            assert(w[k] == files[k]);
        }
    }
    assert forall|p: int, q: int| 0 <= p < q < w.len() implies w[p].path != w[q].path && w[p].id
        != w[q].id by {
        assert(w[p].id == files[p].id);
        assert(w[q].id == files[q].id);
        if p != i {
            assert(w[p] == files[p]);
        }
        if q != i {
            assert(w[q] == files[q]);
        }
    }
}

/// The planned row is that of a file at the old path, or there is none where no
/// file is at that path.
pub proof fn lemma_renamed_row_first(files: Seq<FileRowView>, a: Seq<char>, b: Seq<char>)
    ensures
        renamed_row(files, a, b) is Some <==> exists|m: int|
            0 <= m < files.len() && (#[trigger] files[m]).path == a,
        renamed_row(files, a, b) is Some ==> renamed_row(files, a, b)->0.path == b && exists|
            m: int,
        |
            0 <= m < files.len() && (#[trigger] files[m]).path == a && renamed_row(
                files,
                a,
                b,
            )->0.id == files[m].id,
    decreases files.len(),
{
    if files.len() > 0 {
        let t = files.drop_last();
        lemma_renamed_row_first(t, a, b);
        if renamed_row(t, a, b) is Some {
            let m = choose|m: int|
                0 <= m < t.len() && (#[trigger] t[m]).path == a && renamed_row(t, a, b)->0.id
                    == t[m].id;
            assert(files[m] == t[m]);
        } else {
            if files.last().path == a {
                assert(files[files.len() - 1].path == a);
            } else {
                if exists|m: int| 0 <= m < files.len() && (#[trigger] files[m]).path == a {
                    let m = choose|m: int| 0 <= m < files.len() && (#[trigger] files[m]).path == a;
                    assert(t[m] == files[m]);
                }
            }
        }
    }
}

/// The row that is planned among the first `n` rows is the row that is planned
/// among all.
pub proof fn lemma_renamed_row_prefix(
    files: Seq<FileRowView>,
    old_path: Seq<char>,
    new_path: Seq<char>,
    n: int,
)
    requires
        0 <= n <= files.len(),
        renamed_row(files.subrange(0, n), old_path, new_path) is Some,
    ensures
        renamed_row(files, old_path, new_path) == renamed_row(
            files.subrange(0, n),
            old_path,
            new_path,
        ),
    decreases files.len() - n,
{
    if n < files.len() {
        assert(files.drop_last().subrange(0, n) =~= files.subrange(0, n));
        lemma_renamed_row_prefix(files.drop_last(), old_path, new_path, n);
    } else {
        assert(files.subrange(0, n) =~= files);
    }
}

} // verus!
