use vstd::prelude::*;
use std::hash::BuildHasher;
use crate::text::{
    chars_of, find_first_of, first_of, opt_text, replace, replace_char, slice_of, string_of,
};

verus! {

/// What `std::path::Path::parent` yields for the path written as `path`: the path
/// without its final component, or `None` where it has none to drop.
pub uninterp spec fn path_parent(path: Seq<char>) -> Option<Seq<char>>;

/// Calls `std::path::Path::parent` on `path`. The contract only gives the result its
/// name; nothing is claimed about which prefix of `path` it is.
#[verifier::external_body]
pub(crate) fn parent_of(path: &str) -> (parent: Option<String>)
    ensures
        opt_text(parent) == path_parent(path@),
{
    match std::path::Path::new(path).parent() {
        Some(p) => Some(p.to_string_lossy().into_owned()),
        None => None,
    }
}

/// What `std::path::Path::file_name` yields for the path written as `path`: its
/// final component, or `None` where the path ends in `..` or has no component.
pub uninterp spec fn path_file_name(path: Seq<char>) -> Option<Seq<char>>;

/// What `std::path::Path::with_extension` yields for the path written as `path`
/// and the extension `ext`.
pub uninterp spec fn path_with_extension(path: Seq<char>, ext: Seq<char>) -> Seq<char>;

/// What `std::path::Path::join` yields for the paths written as `dir` and `name`.
pub uninterp spec fn path_join(dir: Seq<char>, name: Seq<char>) -> Seq<char>;

/// Calls `std::path::Path::file_name` on `path`; the contract gives the result its
/// name.
#[verifier::external_body]
pub(crate) fn file_name_of(path: &str) -> (name: Option<String>)
    ensures
        opt_text(name) == path_file_name(path@),
{
    match std::path::Path::new(path).file_name() {
        Some(n) => Some(n.to_string_lossy().into_owned()),
        None => None,
    }
}

/// Whether `ext` can be an extension: it holds no path separator.
pub open spec fn plain_extension(ext: Seq<char>) -> bool {
    forall|i: int| 0 <= i < ext.len() ==> ext[i] != '/' && ext[i] != '\\'
}

/// Calls `std::path::Path::with_extension`, which does not return for an extension
/// that holds a path separator; such extensions are left out. The contract gives
/// the result its name.
#[verifier::external_body]
pub(crate) fn with_extension_of(path: &str, ext: &str) -> (out: String)
    requires
        plain_extension(ext@),
    ensures
        out@ == path_with_extension(path@, ext@),
{
    std::path::Path::new(path).with_extension(ext).to_string_lossy().into_owned()
}

/// Calls `std::path::Path::join`; the contract gives the result its name.
#[verifier::external_body]
pub(crate) fn join_of(dir: &str, name: &str) -> (out: String)
    ensures
        out@ == path_join(dir@, name@),
{
    std::path::Path::new(dir).join(name).to_string_lossy().into_owned()
}

/// What `std::hash::BuildHasher::hash_one` yields for the path written as `path`
/// under the default hasher: the 64-bit digest of the path.
pub uninterp spec fn path_digest(path: Seq<char>) -> u64;

/// Calls `std::hash::BuildHasher::hash_one` on the path with the default hasher;
/// the contract gives the result its name.
#[verifier::external_body]
pub(crate) fn digest_of(path: &str) -> (digest: u64)
    ensures
        digest == path_digest(path@),
{
    std::hash::BuildHasherDefault::<std::collections::hash_map::DefaultHasher>::default()
        .hash_one(std::path::Path::new(path))
}

/// The characters that make a pattern a glob.
pub open spec fn wildcards() -> Seq<char> {
    seq!['*', '?', '[']
}

/// The directory from which a walk for `pattern` starts, given the parent of the
/// pattern read as a path. Without a wildcard it is that parent, or `.` where there
/// is none. With one it is everything before the first wildcard, or `.` where the
/// pattern begins with the wildcard.
pub open spec fn scan_root_spec(pattern: Seq<char>, parent: Option<Seq<char>>) -> Seq<char> {
    let cut = first_of(pattern, wildcards());
    if cut == pattern.len() {
        match parent {
            Some(p) => p,
            None => "."@,
        }
    } else if cut == 0 {
        "."@
    } else {
        pattern.subrange(0, cut)
    }
}

fn wildcard_set() -> (set: Vec<char>)
    ensures
        set@ == wildcards(),
{
    let mut set: Vec<char> = Vec::new();
    set.push('*');
    set.push('?');
    set.push('[');
    assert(set@ =~= wildcards());
    set
}

/// The scan root of `pattern`, where `parent` is the parent of the pattern read as
/// a path.
pub fn scan_root_from(pattern: &str, parent: Option<String>) -> (root: String)
    ensures
        root@ == scan_root_spec(pattern@, opt_text(parent)),
{
    let p = chars_of(pattern);
    let set = wildcard_set();
    let cut = find_first_of(&p, &set);
    if cut == p.len() {
        match parent {
            Some(dir) => dir,
            None => ".".to_owned(),
        }
    } else if cut == 0 {
        ".".to_owned()
    } else {
        let prefix = slice_of(&p, 0, cut);
        string_of(&prefix)
    }
}

/// Determines the directory to which a recursive walk for a glob can be limited.
pub fn determine_scan_root(pattern: &str) -> (root: String)
    ensures
        root@ == scan_root_spec(pattern@, path_parent(pattern@)),
{
    let parent = parent_of(pattern);
    scan_root_from(pattern, parent)
}

/// The form under which a path is stored and looked up on a host whose paths are
/// separated by forward slashes and compared by case: the path as it is.
pub fn to_db_path(p: &str) -> (out: String)
    ensures
        out@ == p@,
{
    p.to_owned()
}

/// `p` with every backslash turned into a forward slash.
pub open spec fn slashed(p: Seq<char>) -> Seq<char> {
    replace_char(p, '\\', seq!['/'])
}

/// The stored form of a path on a host that separates paths by backslashes.
pub fn to_db_path_backslash(p: &str) -> (out: String)
    ensures
        out@ == slashed(p@),
{
    let chars = chars_of(p);
    let mut slash: Vec<char> = Vec::new();
    slash.push('/');
    assert(slash@ =~= seq!['/']);
    let out = replace(&chars, '\\', &slash);
    string_of(&out)
}

/// Normalising separators changes no length, leaves no backslash, and changes
/// nothing when done again.
pub proof fn lemma_slashed(p: Seq<char>)
    ensures
        slashed(p).len() == p.len(),
        !slashed(p).contains('\\'),
        slashed(slashed(p)) == slashed(p),
        !p.contains('\\') ==> slashed(p) == p,
    decreases p.len(),
{
    if p.len() > 0 {
        let t = p.drop_last();
        lemma_slashed(t);
        let r = slashed(p);
        let c = if p.last() == '\\' {
            '/'
        } else {
            p.last()
        };
        assert(r =~= slashed(t).push(c));
        assert(r.drop_last() =~= slashed(t));
        assert(!r.contains('\\')) by {
            if r.contains('\\') {
                let i = choose|i: int| 0 <= i < r.len() && r[i] == '\\';
                if i < r.len() - 1 {
                    assert(slashed(t)[i] == '\\');
                    assert(slashed(t).contains('\\'));
                }
            }
        }
        assert(slashed(r) =~= slashed(slashed(t)).push(c));
        if !p.contains('\\') {
            assert(!t.contains('\\')) by {
                if t.contains('\\') {
                    let i = choose|i: int| 0 <= i < t.len() && t[i] == '\\';
                    assert(p[i] == '\\');
                }
            }
            assert(p.last() != '\\') by {
                if p.last() == '\\' {
                    assert(p[p.len() - 1] == '\\');
                }
            }
            assert(r =~= p);
        }
    } else {
        assert(!slashed(p).contains('\\'));
    }
}

} // verus!
