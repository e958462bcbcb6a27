use vstd::prelude::*;
use crate::db::{tag_segments, tag_segments_spec};
use crate::error::{Error, ErrorView};
use crate::text::texts;

verus! {

/// One tag: a name below a parent, or at the root.
#[derive(Debug)]
pub struct TagRow {
    pub id: i64,
    pub name: String,
    pub parent_id: Option<i64>,
}

/// Mathematical value of a [`TagRow`].
pub ghost struct TagRowView {
    pub id: i64,
    pub name: Seq<char>,
    pub parent_id: Option<i64>,
}

impl View for TagRow {
    type V = TagRowView;

    open spec fn view(&self) -> TagRowView {
        TagRowView { id: self.id, name: self.name@, parent_id: self.parent_id }
    }
}

/// The values of a list of tags, in order.
pub open spec fn tag_views(rows: Seq<TagRow>) -> Seq<TagRowView> {
    Seq::new(rows.len(), |i: int| rows[i]@)
}

/// Index of the first tag named `name` below `parent`, or `rows.len()`.
pub open spec fn lookup(rows: Seq<TagRowView>, name: Seq<char>, parent: Option<i64>) -> int
    decreases rows.len(),
{
    if rows.len() == 0 {
        0
    } else {
        let p = lookup(rows.drop_last(), name, parent);
        if p < rows.len() - 1 {
            p
        } else if rows.last().name == name && rows.last().parent_id == parent {
            rows.len() - 1
        } else {
            rows.len() as int
        }
    }
}

/// Index of the first tag with the id `id`, or `rows.len()`.
pub open spec fn index_of(rows: Seq<TagRowView>, id: i64) -> int
    decreases rows.len(),
{
    if rows.len() == 0 {
        0
    } else {
        let p = index_of(rows.drop_last(), id);
        if p < rows.len() - 1 {
            p
        } else if rows.last().id == id {
            rows.len() - 1
        } else {
            rows.len() as int
        }
    }
}

/// The greatest id in use, or 0 where no id is positive.
pub open spec fn max_id(rows: Seq<TagRowView>) -> int
    decreases rows.len(),
{
    if rows.len() == 0 {
        0
    } else if rows.last().id > max_id(rows.drop_last()) {
        rows.last().id as int
    } else {
        max_id(rows.drop_last())
    }
}

/// Whether `parent` is the root or the id of a tag among `rows`.
pub open spec fn known(rows: Seq<TagRowView>, parent: Option<i64>) -> bool {
    match parent {
        None => true,
        Some(p) => index_of(rows, p) < rows.len(),
    }
}

/// The tags form a forest: no two share an id, no two share a name below the same
/// parent, and every parent comes before its children.
pub open spec fn forest(rows: Seq<TagRowView>) -> bool {
    &&& forall|i: int, j: int| 0 <= i < j < rows.len() ==> rows[i].id != rows[j].id
    &&& forall|i: int, j: int|
        0 <= i < j < rows.len() ==> !(rows[i].name == rows[j].name && rows[i].parent_id
            == rows[j].parent_id)
    &&& forall|j: int| 0 <= j < rows.len() ==> known(rows.subrange(0, j), #[trigger] rows[j].parent_id)
}

/// Names from the root down to the tag at index `j`.
pub open spec fn path_at(rows: Seq<TagRowView>, j: int) -> Seq<Seq<char>>
    decreases j,
{
    if j < 0 || j >= rows.len() {
        Seq::empty()
    } else {
        match rows[j].parent_id {
            None => seq![rows[j].name],
            Some(p) => {
                let i = index_of(rows.subrange(0, j), p);
                if 0 <= i < j {
                    path_at(rows, i).push(rows[j].name)
                } else {
                    seq![rows[j].name]
                }
            },
        }
    }
}

/// The tag path of `id`: the names from the root down to it. The root itself, and
/// an id that is not in use, have the empty path.
pub open spec fn path_of(rows: Seq<TagRowView>, id: Option<i64>) -> Seq<Seq<char>> {
    match id {
        None => Seq::empty(),
        Some(x) => path_at(rows, index_of(rows, x)),
    }
}

/// Ids from the tag at index `j` up to its root.
pub open spec fn lineage_at(rows: Seq<TagRowView>, j: int) -> Seq<i64>
    decreases j,
{
    if j < 0 || j >= rows.len() {
        Seq::empty()
    } else {
        match rows[j].parent_id {
            None => seq![rows[j].id],
            Some(p) => {
                let i = index_of(rows.subrange(0, j), p);
                if 0 <= i < j {
                    seq![rows[j].id] + lineage_at(rows, i)
                } else {
                    seq![rows[j].id]
                }
            },
        }
    }
}

/// Finding or making the tag `name` below `parent`: the tags afterwards and the
/// tag's id. A tag that is there is found; one that is not is appended under the
/// id after the greatest in use. Nothing can be made once ids are exhausted.
pub open spec fn step(rows: Seq<TagRowView>, name: Seq<char>, parent: Option<i64>) -> Option<
    (Seq<TagRowView>, i64),
> {
    let i = lookup(rows, name, parent);
    if i < rows.len() {
        Some((rows, rows[i].id))
    } else if max_id(rows) < i64::MAX {
        let id = (max_id(rows) + 1) as i64;
        Some((rows.push(TagRowView { id, name, parent_id: parent }), id))
    } else {
        None
    }
}

/// Walking down `segments` from `parent`, finding or making each tag on the way:
/// the tags afterwards and the id of the last tag.
pub open spec fn walk(rows: Seq<TagRowView>, segments: Seq<Seq<char>>, parent: Option<i64>)
    -> Option<(Seq<TagRowView>, Option<i64>)>
    decreases segments.len(),
{
    if segments.len() == 0 {
        Some((rows, parent))
    } else {
        match step(rows, segments[0], parent) {
            None => None,
            Some((next, id)) => walk(next, segments.drop_first(), Some(id)),
        }
    }
}

/// A lookup yields the first tag of that name below that parent, or the end.
pub proof fn lemma_lookup(rows: Seq<TagRowView>, name: Seq<char>, parent: Option<i64>)
    ensures
        0 <= lookup(rows, name, parent) <= rows.len(),
        lookup(rows, name, parent) < rows.len() ==> rows[lookup(rows, name, parent)].name == name
            && rows[lookup(rows, name, parent)].parent_id == parent,
        forall|k: int|
            0 <= k < lookup(rows, name, parent) ==> !((#[trigger] rows[k]).name == name
                && rows[k].parent_id == parent),
    decreases rows.len(),
{
    if rows.len() > 0 {
        let t = rows.drop_last();
        lemma_lookup(t, name, parent);
        assert forall|k: int| 0 <= k < lookup(rows, name, parent) implies !((#[trigger] rows[k]).name
            == name && rows[k].parent_id == parent) by {
            if k < t.len() {
                assert(t[k] == rows[k]);
            }
        }
    }
}

/// An index yields the first tag with that id, or the end.
pub proof fn lemma_index_of(rows: Seq<TagRowView>, id: i64)
    ensures
        0 <= index_of(rows, id) <= rows.len(),
        index_of(rows, id) < rows.len() ==> rows[index_of(rows, id)].id == id,
        forall|k: int| 0 <= k < index_of(rows, id) ==> (#[trigger] rows[k]).id != id,
    decreases rows.len(),
{
    if rows.len() > 0 {
        let t = rows.drop_last();
        lemma_index_of(t, id);
        assert forall|k: int| 0 <= k < index_of(rows, id) implies (#[trigger] rows[k]).id != id by {
            if k < t.len() {
                assert(t[k] == rows[k]);
            }
        }
    }
}

/// No id is greater than the greatest.
pub proof fn lemma_max_id(rows: Seq<TagRowView>)
    ensures
        0 <= max_id(rows) <= i64::MAX,
        forall|k: int| 0 <= k < rows.len() ==> (#[trigger] rows[k]).id <= max_id(rows),
    decreases rows.len(),
{
    if rows.len() > 0 {
        let t = rows.drop_last();
        lemma_max_id(t);
        assert forall|k: int| 0 <= k < rows.len() implies (#[trigger] rows[k]).id <= max_id(
            rows,
        ) by {
            if k < t.len() {
                assert(t[k] == rows[k]);
            }
        }
    }
}

/// What is found among the first `n` tags is found at the same place among all.
pub proof fn lemma_lookup_prefix(rows: Seq<TagRowView>, name: Seq<char>, parent: Option<i64>, n: int)
    requires
        0 <= n <= rows.len(),
        lookup(rows.subrange(0, n), name, parent) < n,
    ensures
        lookup(rows, name, parent) == lookup(rows.subrange(0, n), name, parent),
    decreases rows.len() - n,
{
    if n < rows.len() {
        assert(rows.drop_last().subrange(0, n) =~= rows.subrange(0, n));
        lemma_lookup_prefix(rows.drop_last(), name, parent, n);
    } else {
        assert(rows.subrange(0, n) =~= rows);
    }
}

/// An id that is found among the first `n` tags is found at the same place among
/// all.
pub proof fn lemma_index_of_prefix(rows: Seq<TagRowView>, id: i64, n: int)
    requires
        0 <= n <= rows.len(),
        index_of(rows.subrange(0, n), id) < n,
    ensures
        index_of(rows, id) == index_of(rows.subrange(0, n), id),
    decreases rows.len() - n,
{
    if n < rows.len() {
        assert(rows.drop_last().subrange(0, n) =~= rows.subrange(0, n));
        lemma_index_of_prefix(rows.drop_last(), id, n);
    } else {
        assert(rows.subrange(0, n) =~= rows);
    }
}

/// The path of a tag does not change when tags are appended.
pub proof fn lemma_path_at_prefix(rows: Seq<TagRowView>, n: int, j: int)
    requires
        0 <= j < n <= rows.len(),
    ensures
        path_at(rows, j) == path_at(rows.subrange(0, n), j),
        lineage_at(rows, j) == lineage_at(rows.subrange(0, n), j),
    decreases j,
{
    let short = rows.subrange(0, n);
    assert(short[j] == rows[j]);
    assert(short.subrange(0, j) =~= rows.subrange(0, j));
    match rows[j].parent_id {
        None => {},
        Some(p) => {
            let i = index_of(rows.subrange(0, j), p);
            if 0 <= i < j {
                lemma_path_at_prefix(rows, n, i);
            }
        },
    }
}

/// Finding or making one tag keeps the forest, appends at most one tag and leaves
/// the others as they were, gives the tag the path of its parent followed by its
/// name, and finds the same tag when done again.
pub proof fn lemma_step(rows: Seq<TagRowView>, name: Seq<char>, parent: Option<i64>)
    requires
        forest(rows),
        known(rows, parent),
        step(rows, name, parent) is Some,
    ensures
        ({
            let (next, id) = step(rows, name, parent)->0;
            &&& forest(next)
            &&& rows.len() <= next.len() <= rows.len() + 1
            &&& next.subrange(0, rows.len() as int) == rows
            &&& known(next, Some(id))
            &&& path_of(next, Some(id)) == path_of(rows, parent).push(name)
            &&& step(next, name, parent) == Some((next, id))
        }),
{
    let (next, id) = step(rows, name, parent)->0;
    let i = lookup(rows, name, parent);
    lemma_lookup(rows, name, parent);
    lemma_max_id(rows);
    if i < rows.len() {
        assert(next == rows);
        assert(rows.subrange(0, rows.len() as int) =~= rows);
        lemma_index_of(rows, id);
        let k = index_of(rows, id);
        assert(k == i) by {
            if k < i {
                assert(rows[k].id != rows[i].id);
            }
        }
        match parent {
            None => {
                assert(path_at(rows, i) =~= Seq::<Seq<char>>::empty().push(name));
            },
            Some(p) => {
                assert(known(rows.subrange(0, i), rows[i].parent_id));
                let m = index_of(rows.subrange(0, i), p);
                lemma_index_of(rows.subrange(0, i), p);
                lemma_index_of_prefix(rows, p, i);
            },
        }
    } else {
        let n = rows.len() as int;
        let row = TagRowView { id, name, parent_id: parent };
        assert(next == rows.push(row));
        assert(next.subrange(0, n) =~= rows);
        assert(next.drop_last() =~= rows);
        assert forall|a: int, b: int| 0 <= a < b < next.len() implies next[a].id != next[b].id by {
            if b == n {
                assert(rows[a].id <= max_id(rows));
            } else {
                assert(next[a] == rows[a] && next[b] == rows[b]);
            }
        }
        assert forall|a: int, b: int| 0 <= a < b < next.len() implies !(next[a].name
            == next[b].name && next[a].parent_id == next[b].parent_id) by {
            if b == n {
                assert(next[a] == rows[a]);
            } else {
                assert(next[a] == rows[a] && next[b] == rows[b]);
            }
        }
        assert forall|j: int| 0 <= j < next.len() implies known(
            next.subrange(0, j),
            #[trigger] next[j].parent_id,
        ) by {
            if j == n {
                assert(next.subrange(0, j) =~= rows);
            } else {
                assert(next.subrange(0, j) =~= rows.subrange(0, j));
                assert(next[j] == rows[j]);
            }
        }
        lemma_index_of(rows, id);
        assert(index_of(rows, id) == n) by {
            if index_of(rows, id) < n {
                assert(rows[index_of(rows, id)].id <= max_id(rows));
            }
        }
        assert(index_of(next, id) == n);
        match parent {
            None => {
                assert(path_at(next, n) =~= Seq::<Seq<char>>::empty().push(name));
            },
            Some(p) => {
                let m = index_of(rows, p);
                lemma_index_of(rows, p);
                lemma_path_at_prefix(next, n, m);
            },
        }
        assert(lookup(next, name, parent) == n);
    }
}

/// Walking a tag path keeps the forest and only appends tags; the tag it ends at
/// has the path of the start followed by the segments; and walking the same path
/// again changes nothing and ends at the same tag.
pub proof fn lemma_walk(rows: Seq<TagRowView>, segments: Seq<Seq<char>>, parent: Option<i64>)
    requires
        forest(rows),
        known(rows, parent),
        walk(rows, segments, parent) is Some,
    ensures
        ({
            let (after, leaf) = walk(rows, segments, parent)->0;
            &&& forest(after)
            &&& rows.len() <= after.len() <= rows.len() + segments.len()
            &&& after.subrange(0, rows.len() as int) == rows
            &&& known(after, leaf)
            &&& segments.len() > 0 ==> leaf is Some
            &&& path_of(after, leaf) == path_of(rows, parent) + segments
            &&& walk(after, segments, parent) == Some((after, leaf))
        }),
    decreases segments.len(),
{
    if segments.len() == 0 {
        assert(rows.subrange(0, rows.len() as int) =~= rows);
        assert(path_of(rows, parent) + segments =~= path_of(rows, parent));
    } else {
        let name = segments[0];
        let rest = segments.drop_first();
        lemma_step(rows, name, parent);
        let (next, id) = step(rows, name, parent)->0;
        lemma_walk(next, rest, Some(id));
        let (after, leaf) = walk(next, rest, Some(id))->0;
        assert(after.subrange(0, rows.len() as int) =~= rows) by {
            assert(after.subrange(0, next.len() as int).subrange(0, rows.len() as int)
                =~= after.subrange(0, rows.len() as int));
        }
        assert(path_of(rows, parent).push(name) + rest =~= path_of(rows, parent) + segments);
        lemma_lookup(next, name, parent);
        lemma_lookup_prefix(after, name, parent, next.len() as int);
        assert(after[lookup(after, name, parent)] == next[lookup(next, name, parent)]);
        assert(step(after, name, parent) == Some((after, id)));
    }
}

/// A tag path and the query for it agree: once the tags along `path` are there, the
/// tag that the walk ends at has the names of `path` as its path, and the query
/// `tag:path` asks for exactly those names, one term each, in order. Walking the
/// path again ends at the same tag and makes nothing new.
pub proof fn lemma_tag_path_and_query(rows: Seq<TagRowView>, path: Seq<char>)
    requires
        forest(rows),
        tag_segments_spec(path).len() > 0,
        walk(rows, tag_segments_spec(path), None) is Some,
    ensures
        ({
            let (after, leaf) = walk(rows, tag_segments_spec(path), None)->0;
            &&& forest(after)
            &&& leaf is Some
            &&& path_of(after, leaf) == tag_segments_spec(path)
            &&& crate::query::token_terms("tag:"@ + path) == crate::query::tag_terms(
                path_of(after, leaf),
            )
            &&& walk(after, tag_segments_spec(path), None) == Some((after, leaf))
        }),
{
    let segs = tag_segments_spec(path);
    lemma_walk(rows, segs, None);
    crate::query::lemma_tag_query(path);
    assert(Seq::<Seq<char>>::empty() + segs =~= segs);
}

/// The ids from a tag up to its root are as many as the names of its path, and
/// begin with the tag's own id.
pub proof fn lemma_lineage(rows: Seq<TagRowView>, j: int)
    requires
        0 <= j < rows.len(),
    ensures
        lineage_at(rows, j).len() == path_at(rows, j).len(),
        lineage_at(rows, j).len() >= 1,
        lineage_at(rows, j)[0] == rows[j].id,
    decreases j,
{
    match rows[j].parent_id {
        None => {},
        Some(p) => {
            let i = index_of(rows.subrange(0, j), p);
            if 0 <= i < j {
                lemma_lineage(rows, i);
            }
        },
    }
}

/// The tags of a store: a forest, held in the order in which the tags were made.
#[derive(Debug)]
pub struct TagForest {
    rows: Vec<TagRow>,
}

fn copy_row(r: &TagRow) -> (c: TagRow)
    ensures
        c@ == r@,
{
    TagRow { id: r.id, name: r.name.clone(), parent_id: r.parent_id }
}

fn same_parent(a: Option<i64>, b: Option<i64>) -> (eq: bool)
    ensures
        eq == (a == b),
{
    match (a, b) {
        (None, None) => true,
        (Some(x), Some(y)) => x == y,
        _ => false,
    }
}

fn find_id(rows: &Vec<TagRow>, upto: usize, id: i64) -> (i: usize)
    requires
        upto <= rows@.len(),
    ensures
        i == index_of(tag_views(rows@).subrange(0, upto as int), id),
        i <= upto,
{
    let ghost all = tag_views(rows@).subrange(0, upto as int);
    let mut i: usize = 0;
    if upto == 0 {
        assert(all.subrange(0, 0) =~= all);
    }
    assert(all.subrange(0, 0).len() == 0);
    while i < upto
        invariant
            i <= upto,
            upto <= rows@.len(),
            all == tag_views(rows@).subrange(0, upto as int),
            index_of(all.subrange(0, i as int), id) == i,
            i == upto ==> all.subrange(0, i as int) == all,
        decreases upto - i,
    {
        proof {
            let t = all.subrange(0, i + 1);
            assert(t.drop_last() =~= all.subrange(0, i as int));
            assert(t.last() == all[i as int]);
            assert(all[i as int] == rows@[i as int]@);
        }
        if rows[i].id == id {
            proof {
                lemma_index_of_prefix(all, id, i + 1);
            }
            return i;
        }
        i = i + 1;
        if i == upto {
            assert(all.subrange(0, i as int) =~= all);
        }
    }
    i
}

fn find_tag(rows: &Vec<TagRow>, name: &String, parent: Option<i64>) -> (i: usize)
    ensures
        i == lookup(tag_views(rows@), name@, parent),
        i <= rows@.len(),
{
    let ghost all = tag_views(rows@);
    let mut i: usize = 0;
    if rows.len() == 0 {
        assert(all.subrange(0, 0) =~= all);
    }
    assert(all.subrange(0, 0).len() == 0);
    while i < rows.len()
        invariant
            i <= rows.len(),
            all == tag_views(rows@),
            lookup(all.subrange(0, i as int), name@, parent) == i,
            i == rows.len() ==> all.subrange(0, i as int) == all,
        decreases rows.len() - i,
    {
        proof {
            let t = all.subrange(0, i + 1);
            assert(t.drop_last() =~= all.subrange(0, i as int));
            assert(t.last() == all[i as int]);
        }
        if rows[i].name == *name && same_parent(rows[i].parent_id, parent) {
            proof {
                lemma_lookup_prefix(all, name@, parent, i + 1);
            }
            return i;
        }
        i = i + 1;
        if i == rows.len() {
            assert(all.subrange(0, i as int) =~= all);
        }
    }
    i
}

fn greatest_id(rows: &Vec<TagRow>) -> (m: i64)
    ensures
        m == max_id(tag_views(rows@)),
{
    let ghost all = tag_views(rows@);
    let mut m: i64 = 0;
    let mut i: usize = 0;
    assert(all.subrange(0, 0) =~= Seq::<TagRowView>::empty());
    while i < rows.len()
        invariant
            i <= rows.len(),
            all == tag_views(rows@),
            m == max_id(all.subrange(0, i as int)),
        decreases rows.len() - i,
    {
        proof {
            let t = all.subrange(0, i + 1);
            assert(t.drop_last() =~= all.subrange(0, i as int));
            assert(t.last() == all[i as int]);
        }
        if rows[i].id > m {
            m = rows[i].id;
        }
        i = i + 1;
    }
    assert(all.subrange(0, i as int) =~= all);
    m
}

/// Whether the tags at `rows[..j]` and the tag at `j` go together: the tag's id
/// and its name below its parent are new, and its parent is known.
fn fits(rows: &Vec<TagRow>, j: usize) -> (ok: bool)
    requires
        j < rows@.len(),
    ensures
        ok == ({
            let all = tag_views(rows@);
            &&& forall|i: int| 0 <= i < j ==> all[i].id != all[j as int].id
            &&& forall|i: int|
                0 <= i < j ==> !(all[i].name == all[j as int].name && all[i].parent_id
                    == all[j as int].parent_id)
            &&& known(all.subrange(0, j as int), all[j as int].parent_id)
        }),
{
    let ghost all = tag_views(rows@);
    let mut i: usize = 0;
    while i < j
        invariant
            i <= j,
            j < rows@.len(),
            all == tag_views(rows@),
            forall|k: int| 0 <= k < i ==> all[k].id != all[j as int].id,
            forall|k: int|
                0 <= k < i ==> !(all[k].name == all[j as int].name && all[k].parent_id
                    == all[j as int].parent_id),
        decreases j - i,
    {
        assert(all[i as int] == rows@[i as int]@);
        assert(all[j as int] == rows@[j as int]@);
        if rows[i].id == rows[j].id {
            return false;
        }
        if rows[i].name == rows[j].name && same_parent(rows[i].parent_id, rows[j].parent_id) {
            return false;
        }
        i = i + 1;
    }
    assert(all[j as int] == rows@[j as int]@);
    match rows[j].parent_id {
        None => true,
        Some(p) => find_id(rows, j, p) < j,
    }
}

impl TagForest {
    /// The tags, in the order in which they were made.
    pub closed spec fn rows(&self) -> Seq<TagRowView> {
        tag_views(self.rows@)
    }

    #[verifier::type_invariant]
    closed spec fn is_forest(&self) -> bool {
        forest(tag_views(self.rows@))
    }

    /// A forest without tags.
    pub fn new() -> (f: TagForest)
        ensures
            f.rows() == Seq::<TagRowView>::empty(),
    {
        let f = TagForest { rows: Vec::new() };
        assert(f.rows() =~= Seq::<TagRowView>::empty());
        f
    }

    /// The forest that `rows` form, if they form one: in the order given, each tag
    /// has a new id and a new name below its parent, and comes after its parent.
    pub fn from_rows(rows: Vec<TagRow>) -> (f: Option<TagForest>)
        ensures
            f is Some <==> forest(tag_views(rows@)),
            f is Some ==> f->0.rows() == tag_views(rows@),
    {
        let ghost all = tag_views(rows@);
        let mut j: usize = 0;
        while j < rows.len()
            invariant
                j <= rows.len(),
                all == tag_views(rows@),
                forall|a: int, b: int| 0 <= a < b < j ==> all[a].id != all[b].id,
                forall|a: int, b: int|
                    0 <= a < b < j ==> !(all[a].name == all[b].name && all[a].parent_id
                        == all[b].parent_id),
                forall|b: int|
                    0 <= b < j ==> known(all.subrange(0, b), #[trigger] all[b].parent_id),
            decreases rows.len() - j,
        {
            if !fits(&rows, j) {
                return None;
            }
            j = j + 1;
        }
        Some(TagForest { rows })
    }

    /// The number of tags. The tags always form a forest.
    pub fn len(&self) -> (n: usize)
        ensures
            n == self.rows().len(),
            forest(self.rows()),
    {
        proof {
            use_type_invariant(self);
        }
        self.rows.len()
    }

    /// The tag at `index`, in the order in which the tags were made.
    pub fn get(&self, index: usize) -> (r: Option<TagRow>)
        ensures
            index < self.rows().len() ==> r is Some && (r->0)@ == self.rows()[index as int],
            index >= self.rows().len() ==> r is None,
    {
        if index < self.rows.len() {
            Some(copy_row(&self.rows[index]))
        } else {
            None
        }
    }

    /// The id of the tag named `name` below `parent`, if there is one.
    pub fn find(&self, name: &str, parent: Option<i64>) -> (id: Option<i64>)
        ensures
            id == if lookup(self.rows(), name@, parent) < self.rows().len() {
                Some(self.rows()[lookup(self.rows(), name@, parent)].id)
            } else {
                None::<i64>
            },
    {
        let n = name.to_owned();
        let i = find_tag(&self.rows, &n, parent);
        if i < self.rows.len() {
            Some(self.rows[i].id)
        } else {
            None
        }
    }

    /// Finds or makes every tag along `path` and returns the id of the last one. A
    /// path without a name is refused, and so is a path that needs a new tag when
    /// no id is left; in both cases the forest stays as it was.
    pub fn ensure_tag_path(&mut self, path: &str) -> (r: Result<i64, Error>)
        ensures
            forest(old(self).rows()),
            forest(final(self).rows()),
            tag_segments_spec(path@).len() == 0 ==> r is Err && (r->Err_0)@ == ErrorView::Other(
                "empty tag path"@,
            ) && final(self).rows() == old(self).rows(),
            tag_segments_spec(path@).len() > 0 ==> match walk(
                old(self).rows(),
                tag_segments_spec(path@),
                None,
            ) {
                Some((after, leaf)) => r is Ok && Some(r->Ok_0) == leaf && final(self).rows()
                    == after,
                None => r is Err && (r->Err_0)@ == ErrorView::Database("tag ids exhausted"@)
                    && final(self).rows() == old(self).rows(),
            },
    {
        proof {
            use_type_invariant(&*self);
        }
        let segments = match tag_segments(path) {
            Ok(s) => s,
            Err(e) => {
                return Err(e);
            },
        };
        let ghost segs = tag_segments_spec(path@);
        let ghost start = self.rows();
        let mut work: Vec<TagRow> = Vec::new();
        let mut k: usize = 0;
        while k < self.rows.len()
            invariant
                k <= self.rows.len(),
                work@.len() == k,
                forall|m: int| 0 <= m < k ==> (#[trigger] work@[m])@ == self.rows@[m]@,
            decreases self.rows.len() - k,
        {
            work.push(copy_row(&self.rows[k]));
            k = k + 1;
        }
        assert(tag_views(work@) =~= start);
        let mut parent: Option<i64> = None;
        let mut i: usize = 0;
        assert(segs.subrange(0, segs.len() as int) =~= segs);
        while i < segments.len()
            invariant
                i <= segments.len(),
                segs == texts(segments@),
                segs == tag_segments_spec(path@),
                segs.len() > 0,
                i > 0 ==> parent is Some,
                self.rows() == start,
                old(self).rows() == start,
                forest(start),
                walk(start, segs, None) == walk(
                    tag_views(work@),
                    segs.subrange(i as int, segs.len() as int),
                    parent,
                ),
            decreases segments.len() - i,
        {
            let ghost rest = segs.subrange(i as int, segs.len() as int);
            let ghost before = tag_views(work@);
            proof {
                assert(rest[0] == segs[i as int]);
                assert(rest.drop_first() =~= segs.subrange(i + 1, segs.len() as int));
            }
            let at = find_tag(&work, &segments[i], parent);
            assert(walk(before, rest, parent) == match step(before, rest[0], parent) {
                None => None,
                Some((next, id)) => walk(next, rest.drop_first(), Some(id)),
            });
            if at < work.len() {
                parent = Some(work[at].id);
            } else {
                let top = greatest_id(&work);
                if top == i64::MAX {
                    assert(step(before, rest[0], parent) is None);
                    return Err(Error::Database("tag ids exhausted".to_owned()));
                }
                let row = TagRow { id: top + 1, name: segments[i].clone(), parent_id: parent };
                work.push(row);
                assert(tag_views(work@) =~= before.push(
                    TagRowView { id: (top + 1) as i64, name: segs[i as int], parent_id: parent },
                ));
                parent = Some(top + 1);
            }
            i = i + 1;
        }
        proof {
            assert(segs.subrange(i as int, segs.len() as int) =~= Seq::<Seq<char>>::empty());
            lemma_walk(start, segs, None);
        }
        self.rows = work;
        match parent {
            Some(leaf) => Ok(leaf),
            None => Err(Error::Other("empty tag path".to_owned())),
        }
    }

    /// The ids from the tag `leaf` up to its root: the tags that a file takes on
    /// when it is tagged with `leaf`. Nothing for an id that is not in use.
    pub fn lineage(&self, leaf: i64) -> (ids: Vec<i64>)
        ensures
            ids@ == lineage_at(self.rows(), index_of(self.rows(), leaf)),
    {
        let ghost all = self.rows();
        let mut ids: Vec<i64> = Vec::new();
        let start = find_id(&self.rows, self.rows.len(), leaf);
        proof {
            assert(all.subrange(0, all.len() as int) =~= all);
            lemma_index_of(all, leaf);
        }
        if start >= self.rows.len() {
            return ids;
        }
        let mut j: usize = start;
        loop
            invariant_except_break
                j < self.rows.len(),
                all == tag_views(self.rows@),
                ids@ + lineage_at(all, j as int) == lineage_at(all, start as int),
            ensures
                ids@ == lineage_at(all, start as int),
            decreases j,
        {
            let ghost prev = ids@;
            assert(all[j as int] == self.rows@[j as int]@);
            ids.push(self.rows[j].id);
            match self.rows[j].parent_id {
                None => {
                    assert(ids@ =~= prev + lineage_at(all, j as int));
                    break;
                },
                Some(p) => {
                    let i = find_id(&self.rows, j, p);
                    if i < j {
                        assert(ids@ + lineage_at(all, i as int) =~= prev + lineage_at(
                            all,
                            j as int,
                        ));
                        j = i;
                    } else {
                        assert(ids@ =~= prev + lineage_at(all, j as int));
                        break;
                    }
                },
            }
        }
        ids
    }
}

} // verus!
