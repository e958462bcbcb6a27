use vstd::prelude::*;
use vstd::string::StringExecFns;
use crate::db::{FileRow, FileRowView, row_views};
use crate::error::{Error, ErrorView};
use crate::text::{chars_of, opt_text, texts};
use crate::utils::{file_name_of, path_file_name};

verus! {

/// What `glob::Pattern::new` and `glob::Pattern::matches` yield for the glob
/// written as `pattern` and the text `text`: whether the text matches, or `None`
/// where the pattern is not a valid glob.
pub uninterp spec fn glob_match(pattern: Seq<char>, text: Seq<char>) -> Option<bool>;

/// Whether `glob::Pattern::new` accepts `pattern`.
pub uninterp spec fn glob_valid(pattern: Seq<char>) -> bool;

/// Compiles `pattern` with `glob::Pattern::new` and asks `glob::Pattern::matches`
/// about `text`. The contract names both results: whether the pattern compiles
/// does not depend on the text.
#[verifier::external_body]
fn glob_matches(pattern: &str, text: &str) -> (r: Option<bool>)
    ensures
        r == glob_match(pattern@, text@),
        r is Some <==> glob_valid(pattern@),
{
    match glob::Pattern::new(pattern) {
        Ok(p) => Some(p.matches(text)),
        Err(_) => None,
    }
}

/// The error for a pattern that is no valid glob.
pub open spec fn invalid_glob(pattern: Seq<char>) -> ErrorView {
    ErrorView::Other("Invalid glob pattern `"@ + pattern + "`"@)
}

fn bad_pattern(pattern: &str) -> (e: Error)
    ensures
        e@ == invalid_glob(pattern@),
{
    let mut msg = "Invalid glob pattern `".to_owned();
    msg.append(pattern);
    msg.append("`");
    Error::Other(msg)
}

/// Whether a stored path is selected by a pattern, given the two verdicts of the
/// glob. A pattern that holds a separator is held against the whole path; one
/// without is held against the path's final component, and selects nothing
/// where the path has none.
pub open spec fn selects(
    pattern: Seq<char>,
    whole: Option<bool>,
    file_name: Option<Seq<char>>,
    name: Option<bool>,
) -> bool {
    if pattern.contains('/') {
        whole == Some(true)
    } else {
        file_name is Some && name == Some(true)
    }
}

/// Whether the file at `path` is selected by `pattern`.
pub open spec fn selected(pattern: Seq<char>, path: Seq<char>) -> bool {
    selects(
        pattern,
        glob_match(pattern, path),
        path_file_name(path),
        match path_file_name(path) {
            Some(n) => glob_match(pattern, n),
            None => None,
        },
    )
}

/// Whether the pattern holds a path separator.
pub fn has_separator(pattern: &str) -> (b: bool)
    ensures
        b == pattern@.contains('/'),
{
    let p = chars_of(pattern);
    let mut i: usize = 0;
    while i < p.len()
        invariant
            i <= p.len(),
            p@ == pattern@,
            forall|k: int| 0 <= k < i ==> p@[k] != '/',
        decreases p.len() - i,
    {
        if p[i] == '/' {
            assert(pattern@[i as int] == '/');
            return true;
        }
        i = i + 1;
    }
    false
}

/// The verdict on one path from the verdicts of the glob.
pub fn select_with(
    pattern: &str,
    whole: Option<bool>,
    file_name: Option<String>,
    name: Option<bool>,
) -> (b: bool)
    ensures
        b == selects(pattern@, whole, opt_text(file_name), name),
{
    if has_separator(pattern) {
        match whole {
            Some(true) => true,
            _ => false,
        }
    } else {
        match (file_name, name) {
            (Some(_), Some(true)) => true,
            _ => false,
        }
    }
}

fn is_selected(pattern: &str, path: &str) -> (b: bool)
    ensures
        b == selected(pattern@, path@),
{
    let whole = glob_matches(pattern, path);
    let file_name = file_name_of(path);
    let name = match &file_name {
        Some(n) => glob_matches(pattern, n.as_str()),
        None => None,
    };
    select_with(pattern, whole, file_name, name)
}

/// The ids of the rows that `pattern` selects, in order.
pub open spec fn selected_ids(pattern: Seq<char>, files: Seq<FileRowView>) -> Seq<i64>
    decreases files.len(),
{
    if files.len() == 0 {
        Seq::empty()
    } else if selected(pattern, files.last().path) {
        selected_ids(pattern, files.drop_last()).push(files.last().id)
    } else {
        selected_ids(pattern, files.drop_last())
    }
}

/// The indexed files to which a tag is attached: those whose stored path the
/// pattern selects. A pattern that is no valid glob is refused.
pub fn tag(pattern: &str, files: &Vec<FileRow>) -> (r: Result<Vec<i64>, Error>)
    ensures
        glob_valid(pattern@) ==> r is Ok && (r->Ok_0)@ == selected_ids(
            pattern@,
            row_views(files@),
        ),
        !glob_valid(pattern@) ==> r is Err && (r->Err_0)@ == invalid_glob(pattern@),
{
    if glob_matches(pattern, "").is_none() {
        return Err(bad_pattern(pattern));
    }
    let ghost all = row_views(files@);
    let mut ids: Vec<i64> = Vec::new();
    let mut i: usize = 0;
    assert(all.subrange(0, 0) =~= Seq::<FileRowView>::empty());
    while i < files.len()
        invariant
            i <= files.len(),
            all == row_views(files@),
            ids@ == selected_ids(pattern@, all.subrange(0, i as int)),
        decreases files.len() - i,
    {
        proof {
            let t = all.subrange(0, i + 1);
            assert(t.drop_last() =~= all.subrange(0, i as int));
            assert(t.last() == all[i as int]);
        }
        if is_selected(pattern, files[i].path.as_str()) {
            ids.push(files[i].id);
        }
        i = i + 1;
    }
    assert(all.subrange(0, i as int) =~= all);
    Ok(ids)
}

/// The paths among `paths` that match `pattern` as a whole, in order.
pub open spec fn matching(pattern: Seq<char>, paths: Seq<Seq<char>>) -> Seq<Seq<char>>
    decreases paths.len(),
{
    if paths.len() == 0 {
        Seq::empty()
    } else if glob_match(pattern, paths.last()) == Some(true) {
        matching(pattern, paths.drop_last()).push(paths.last())
    } else {
        matching(pattern, paths.drop_last())
    }
}

/// The paths met on a walk that a command applies to: those that match the
/// pattern as a whole. A pattern that is no valid glob is refused.
pub fn matching_paths(pattern: &str, paths: &Vec<String>) -> (r: Result<Vec<String>, Error>)
    ensures
        glob_valid(pattern@) ==> r is Ok && texts((r->Ok_0)@) == matching(
            pattern@,
            texts(paths@),
        ),
        !glob_valid(pattern@) ==> r is Err && (r->Err_0)@ == invalid_glob(pattern@),
{
    if glob_matches(pattern, "").is_none() {
        return Err(bad_pattern(pattern));
    }
    let ghost all = texts(paths@);
    let mut out: Vec<String> = Vec::new();
    let mut i: usize = 0;
    assert(all.subrange(0, 0) =~= Seq::<Seq<char>>::empty());
    assert(texts(out@) =~= matching(pattern@, all.subrange(0, 0)));
    while i < paths.len()
        invariant
            i <= paths.len(),
            all == texts(paths@),
            texts(out@) == matching(pattern@, all.subrange(0, i as int)),
        decreases paths.len() - i,
    {
        proof {
            let t = all.subrange(0, i + 1);
            assert(t.drop_last() =~= all.subrange(0, i as int));
            assert(t.last() == all[i as int]);
        }
        match glob_matches(pattern, paths[i].as_str()) {
            Some(true) => {
                let ghost prev = texts(out@);
                out.push(paths[i].clone());
                assert(texts(out@) =~= prev.push(all[i as int]));
            },
            _ => {},
        }
        i = i + 1;
    }
    assert(all.subrange(0, i as int) =~= all);
    Ok(out)
}

/// How many files a tagging changed: those for which at least one of the
/// attachments was new. `fresh[i]` holds, for the file at `i`, how many rows each
/// attachment added.
pub open spec fn changed_files(fresh: Seq<Vec<usize>>) -> nat
    decreases fresh.len(),
{
    if fresh.len() == 0 {
        0
    } else {
        changed_files(fresh.drop_last()) + if any_new(fresh.last()@) {
            1nat
        } else {
            0nat
        }
    }
}

/// Whether one of the attachments added a row.
pub open spec fn any_new(added: Seq<usize>) -> bool {
    exists|k: int| 0 <= k < added.len() && added[k] > 0
}

fn has_new(added: &Vec<usize>) -> (b: bool)
    ensures
        b == any_new(added@),
{
    let mut i: usize = 0;
    while i < added.len()
        invariant
            i <= added.len(),
            forall|k: int| 0 <= k < i ==> added@[k] == 0,
        decreases added.len() - i,
    {
        if added[i] > 0 {
            return true;
        }
        i = i + 1;
    }
    false
}

/// Counts the files that a tagging changed.
pub fn count_changed(fresh: &Vec<Vec<usize>>) -> (n: usize)
    ensures
        n == changed_files(fresh@),
{
    let mut n: usize = 0;
    let mut i: usize = 0;
    assert(fresh@.subrange(0, 0) =~= Seq::<Vec<usize>>::empty());
    while i < fresh.len()
        invariant
            i <= fresh.len(),
            n == changed_files(fresh@.subrange(0, i as int)),
            n <= i,
        decreases fresh.len() - i,
    {
        proof {
            let t = fresh@.subrange(0, i + 1);
            assert(t.drop_last() =~= fresh@.subrange(0, i as int));
            assert(t.last() == fresh@[i as int]);
        }
        if has_new(&fresh[i]) {
            n = n + 1;
        }
        i = i + 1;
    }
    assert(fresh@.subrange(0, i as int) =~= fresh@);
    n
}

} // verus!
