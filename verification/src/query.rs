use vstd::prelude::*;
use crate::text::{
    chars_of, contains_text, extend, find_first_of, first_of, has_infix, has_prefix, is_one_of,
    join, join_all, non_empty, replace, replace_char, rows, same_text, slice_of, split, split_on,
    starts_with, string_of, texts,
};

verus! {

/// What `str::to_uppercase` yields for `s`.
pub uninterp spec fn uppercase(s: Seq<char>) -> Seq<char>;

/// What `str::to_lowercase` yields for `s`.
pub uninterp spec fn lowercase(s: Seq<char>) -> Seq<char>;

/// What `shlex::split` yields for `s`: the words of `s` under POSIX shell quoting
/// rules, or `None` where `s` ends inside a quotation or an escape.
pub uninterp spec fn shell_words(s: Seq<char>) -> Option<Seq<Seq<char>>>;

/// The texts of a list of strings that may be absent.
pub open spec fn opt_texts(o: Option<Vec<String>>) -> Option<Seq<Seq<char>>> {
    match o {
        Some(v) => Some(texts(v@)),
        None => None,
    }
}

/// Calls `str::to_uppercase`; the contract gives the result its name.
#[verifier::external_body]
fn upper_of(s: &str) -> (out: String)
    ensures
        out@ == uppercase(s@),
{
    s.to_uppercase()
}

/// Calls `str::to_lowercase`; the contract gives the result its name.
#[verifier::external_body]
fn lower_of(s: &str) -> (out: String)
    ensures
        out@ == lowercase(s@),
{
    s.to_lowercase()
}

/// Calls `shlex::split`; the contract gives the result its name.
#[verifier::external_body]
pub(crate) fn shell_split(s: &str) -> (out: Option<Vec<String>>)
    ensures
        opt_texts(out) == shell_words(s@),
{
    shlex::split(s)
}

/// Whether `c` has the Unicode property White_Space.
pub open spec fn is_white_space(c: char) -> bool {
    let n = c as u32;
    ||| 0x09 <= n <= 0x0D
    ||| n == 0x20
    ||| n == 0x85
    ||| n == 0xA0
    ||| n == 0x1680
    ||| 0x2000 <= n <= 0x200A
    ||| n == 0x2028
    ||| n == 0x2029
    ||| n == 0x202F
    ||| n == 0x205F
    ||| n == 0x3000
}

/// Whether `c` has the Unicode property White_Space.
pub fn white_space(c: char) -> (b: bool)
    ensures
        b == is_white_space(c),
{
    let n: u32 = c as u32;
    (0x09 <= n && n <= 0x0D) || n == 0x20 || n == 0x85 || n == 0xA0 || n == 0x1680 || (0x2000
        <= n && n <= 0x200A) || n == 0x2028 || n == 0x2029 || n == 0x202F || n == 0x205F || n
        == 0x3000
}

/// Characters that the full-text engine reads as syntax.
pub open spec fn syntax_chars() -> Seq<char> {
    seq!['-', ':', '(', ')', '"']
}

/// Whether `c` forces a term into quotes.
pub open spec fn is_special(c: char) -> bool {
    is_white_space(c) || syntax_chars().contains(c)
}

/// Whether `upper` is one of the engine's reserved operators.
pub open spec fn is_reserved(upper: Seq<char>) -> bool {
    upper == "AND"@ || upper == "OR"@ || upper == "NOT"@ || upper == "NEAR"@
}

/// Whether `term`, whose upper-case form is `upper`, must be quoted.
pub open spec fn needs_quotes(term: Seq<char>, upper: Seq<char>) -> bool {
    (exists|i: int| 0 <= i < term.len() && is_special(#[trigger] term[i])) || is_reserved(upper)
}

/// `term` between double quotes, each double quote inside it doubled.
pub open spec fn quoted(term: Seq<char>) -> Seq<char> {
    seq!['"'] + replace_char(term, '"', seq!['"', '"']) + seq!['"']
}

/// `term` as it is written into a full-text query, given its upper-case form.
pub open spec fn escaped_with(term: Seq<char>, upper: Seq<char>) -> Seq<char> {
    if needs_quotes(term, upper) {
        quoted(term)
    } else {
        term
    }
}

/// `term` as it is written into a full-text query.
pub open spec fn escaped(term: Seq<char>) -> Seq<char> {
    escaped_with(term, uppercase(term))
}

fn syntax_set() -> (set: Vec<char>)
    ensures
        set@ == syntax_chars(),
{
    let mut set: Vec<char> = Vec::new();
    set.push('-');
    set.push(':');
    set.push('(');
    set.push(')');
    set.push('"');
    assert(set@ =~= syntax_chars());
    set
}

fn has_special(term: &Vec<char>) -> (b: bool)
    ensures
        b == exists|i: int| 0 <= i < term@.len() && is_special(#[trigger] term@[i]),
{
    let set = syntax_set();
    let mut i: usize = 0;
    while i < term.len()
        invariant
            i <= term.len(),
            set@ == syntax_chars(),
            forall|k: int| 0 <= k < i ==> !is_special(#[trigger] term@[k]),
        decreases term.len() - i,
    {
        if white_space(term[i]) || is_one_of(term[i], &set) {
            return true;
        }
        i = i + 1;
    }
    false
}

fn reserved(upper: &Vec<char>) -> (b: bool)
    ensures
        b == is_reserved(upper@),
{
    same_text(upper, &chars_of("AND")) || same_text(upper, &chars_of("OR")) || same_text(
        upper,
        &chars_of("NOT"),
    ) || same_text(upper, &chars_of("NEAR"))
}

fn escape_chars(term: &Vec<char>, upper: &Vec<char>) -> (out: Vec<char>)
    ensures
        out@ == escaped_with(term@, upper@),
{
    if has_special(term) || reserved(upper) {
        let mut twice: Vec<char> = Vec::new();
        twice.push('"');
        twice.push('"');
        assert(twice@ =~= seq!['"', '"']);
        let body = replace(term, '"', &twice);
        let mut out: Vec<char> = Vec::new();
        out.push('"');
        assert(out@ =~= seq!['"']);
        extend(&mut out, &body);
        out.push('"');
        assert(out@ =~= quoted(term@));
        out
    } else {
        slice_whole(term)
    }
}

fn slice_whole(v: &Vec<char>) -> (out: Vec<char>)
    ensures
        out@ == v@,
{
    let out = slice_of(v, 0, v.len());
    assert(v@.subrange(0, v@.len() as int) =~= v@);
    out
}

fn escape_vec(term: &Vec<char>) -> (out: Vec<char>)
    ensures
        out@ == escaped(term@),
{
    let s = string_of(term);
    let upper = upper_of(s.as_str());
    let u = chars_of(upper.as_str());
    escape_chars(term, &u)
}

/// Writes `term` as the full-text engine wants it, given the upper-case form of
/// `term`: in double quotes, with inner quotes doubled, if it holds white space or
/// one of `-:()"` or is a reserved operator; unchanged otherwise.
pub fn escape_with(term: &str, upper: &str) -> (out: String)
    ensures
        out@ == escaped_with(term@, upper@),
{
    let t = chars_of(term);
    let u = chars_of(upper);
    let out = escape_chars(&t, &u);
    string_of(&out)
}

/// Writes `term` as the full-text engine wants it.
pub fn escape_fts(term: &str) -> (out: String)
    ensures
        out@ == escaped(term@),
{
    let upper = upper_of(term);
    escape_with(term, upper.as_str())
}

/// The column terms for the segments of a tag path: one `tags_text:` term per
/// segment, with `AND` between neighbours.
pub open spec fn tag_terms(segments: Seq<Seq<char>>) -> Seq<Seq<char>>
    decreases segments.len(),
{
    if segments.len() == 0 {
        Seq::empty()
    } else if segments.len() == 1 {
        seq!["tags_text:"@ + escaped(segments[0])]
    } else {
        tag_terms(segments.drop_last()).push("AND"@).push(
            "tags_text:"@ + escaped(segments.last()),
        )
    }
}

/// The column terms for the text after `attr:`: key and value where there is an
/// `=`, the key alone otherwise.
pub open spec fn attr_terms(rest: Seq<char>) -> Seq<Seq<char>> {
    let eq = first_of(rest, seq!['=']);
    if eq < rest.len() {
        seq![
            "attrs_text:"@ + escaped(rest.subrange(0, eq)),
            "AND"@,
            "attrs_text:"@ + escaped(rest.subrange(eq + 1, rest.len() as int)),
        ]
    } else {
        seq!["attrs_text:"@ + escaped(rest)]
    }
}

/// Whether the token is an operator that passes through unchanged.
pub open spec fn is_operator(tok: Seq<char>) -> bool {
    tok == "AND"@ || tok == "OR"@ || tok == "NOT"@
}

/// `tok` without its first `n` characters.
pub open spec fn after(tok: Seq<char>, n: nat) -> Seq<char> {
    tok.subrange(n as int, tok.len() as int)
}

/// The terms that stand for one token of the user's query.
pub open spec fn token_terms(tok: Seq<char>) -> Seq<Seq<char>> {
    if is_operator(tok) {
        seq![tok]
    } else if has_prefix(tok, "tag:"@) {
        tag_terms(non_empty(split_on(after(tok, "tag:"@.len()), '/')))
    } else if has_prefix(tok, "attr:"@) {
        attr_terms(after(tok, "attr:"@.len()))
    } else {
        seq![escaped(tok)]
    }
}

/// The terms of all tokens, in order.
pub open spec fn all_terms(tokens: Seq<Seq<char>>) -> Seq<Seq<char>>
    decreases tokens.len(),
{
    if tokens.len() == 0 {
        Seq::empty()
    } else {
        all_terms(tokens.drop_last()) + token_terms(tokens.last())
    }
}

/// The full-text expression for a tokenised query.
pub open spec fn fts_expr(tokens: Seq<Seq<char>>) -> Seq<char> {
    join(all_terms(tokens), seq![' '])
}

/// The tokens of a raw query: its shell words, or the query itself as the only
/// token where it cannot be split.
pub open spec fn query_tokens(raw: Seq<char>, words: Option<Seq<Seq<char>>>) -> Seq<Seq<char>> {
    match words {
        Some(w) => w,
        None => seq![raw],
    }
}

fn prefixed(prefix: &str, term: &Vec<char>) -> (out: Vec<char>)
    ensures
        out@ == prefix@ + escaped(term@),
{
    let mut out = chars_of(prefix);
    let e = escape_vec(term);
    extend(&mut out, &e);
    out
}

fn push_tag_terms(out: &mut Vec<Vec<char>>, rest: &Vec<char>)
    ensures
        rows(final(out)@) == rows(old(out)@) + tag_terms(non_empty(split_on(rest@, '/'))),
{
    let ghost before = rows(out@);
    let pieces = split(rest, '/');
    let ghost all = rows(pieces@);
    let mut i: usize = 0;
    let mut seen: usize = 0;
    assert(all.subrange(0, 0) =~= Seq::<Seq<char>>::empty());
    assert(rows(out@) =~= before + tag_terms(non_empty(all.subrange(0, 0))));
    while i < pieces.len()
        invariant
            i <= pieces.len(),
            all == rows(pieces@),
            seen == non_empty(all.subrange(0, i as int)).len(),
            seen <= i,
            rows(out@) == before + tag_terms(non_empty(all.subrange(0, i as int))),
        decreases pieces.len() - i,
    {
        proof {
            let t = all.subrange(0, i + 1);
            assert(t.drop_last() =~= all.subrange(0, i as int));
            assert(t.last() == all[i as int]);
        }
        let ghost segs = non_empty(all.subrange(0, i as int));
        if pieces[i].len() > 0 {
            let ghost prev = rows(out@);
            let ghost next = segs.push(all[i as int]);
            assert(next.drop_last() =~= segs);
            if seen > 0 {
                out.push(chars_of("AND"));
                let term = prefixed("tags_text:", &pieces[i]);
                out.push(term);
                assert(rows(out@) =~= prev.push("AND"@).push(
                    "tags_text:"@ + escaped(all[i as int]),
                ));
                assert(rows(out@) =~= before + tag_terms(next));
            } else {
                let term = prefixed("tags_text:", &pieces[i]);
                out.push(term);
                assert(rows(out@) =~= prev.push("tags_text:"@ + escaped(all[i as int])));
                assert(next.len() == 1);
                assert(tag_terms(segs) =~= Seq::<Seq<char>>::empty());
                assert(rows(out@) =~= before + tag_terms(next));
            }
            seen = seen + 1;
        }
        i = i + 1;
    }
    assert(all.subrange(0, i as int) =~= all);
}

fn push_attr_terms(out: &mut Vec<Vec<char>>, rest: &Vec<char>)
    ensures
        rows(final(out)@) == rows(old(out)@) + attr_terms(rest@),
{
    let ghost before = rows(out@);
    let mut eq_set: Vec<char> = Vec::new();
    eq_set.push('=');
    assert(eq_set@ =~= seq!['=']);
    let eq = find_first_of(rest, &eq_set);
    if eq < rest.len() {
        let key = slice_of(rest, 0, eq);
        let val = slice_of(rest, eq + 1, rest.len());
        let k = prefixed("attrs_text:", &key);
        let v = prefixed("attrs_text:", &val);
        out.push(k);
        out.push(chars_of("AND"));
        out.push(v);
        assert(rows(out@) =~= before + attr_terms(rest@));
    } else {
        let k = prefixed("attrs_text:", rest);
        out.push(k);
        assert(rows(out@) =~= before + attr_terms(rest@));
    }
}

fn push_token_terms(out: &mut Vec<Vec<char>>, tok: &Vec<char>)
    ensures
        rows(final(out)@) == rows(old(out)@) + token_terms(tok@),
{
    let ghost before = rows(out@);
    let tag = chars_of("tag:");
    let attr = chars_of("attr:");
    if same_text(tok, &chars_of("AND")) || same_text(tok, &chars_of("OR")) || same_text(
        tok,
        &chars_of("NOT"),
    ) {
        out.push(slice_whole(tok));
        assert(rows(out@) =~= before + seq![tok@]);
    } else if starts_with(tok, &tag) {
        let rest = slice_of(tok, tag.len(), tok.len());
        push_tag_terms(out, &rest);
    } else if starts_with(tok, &attr) {
        let rest = slice_of(tok, attr.len(), tok.len());
        push_attr_terms(out, &rest);
    } else {
        let e = escape_vec(tok);
        out.push(e);
        assert(rows(out@) =~= before + seq![escaped(tok@)]);
    }
}

/// Builds the full-text expression for a query that is already split into tokens.
/// `AND`, `OR` and `NOT` pass through; `tag:a/b` becomes one `tags_text:` term per
/// segment joined by `AND`; `attr:k=v` becomes `attrs_text:k AND attrs_text:v`, and
/// `attr:k` becomes `attrs_text:k`; every other token is escaped. The terms are
/// joined by single spaces.
pub fn fts_from_tokens(tokens: &Vec<String>) -> (expr: String)
    ensures
        expr@ == fts_expr(texts(tokens@)),
{
    let mut parts: Vec<Vec<char>> = Vec::new();
    let ghost all = texts(tokens@);
    let mut i: usize = 0;
    assert(all.subrange(0, 0) =~= Seq::<Seq<char>>::empty());
    assert(rows(parts@) =~= all_terms(all.subrange(0, 0)));
    while i < tokens.len()
        invariant
            i <= tokens.len(),
            all == texts(tokens@),
            rows(parts@) == all_terms(all.subrange(0, i as int)),
        decreases tokens.len() - i,
    {
        proof {
            let t = all.subrange(0, i + 1);
            assert(t.drop_last() =~= all.subrange(0, i as int));
            assert(t.last() == all[i as int]);
        }
        let tok = chars_of(tokens[i].as_str());
        push_token_terms(&mut parts, &tok);
        i = i + 1;
    }
    assert(all.subrange(0, i as int) =~= all);
    let mut space: Vec<char> = Vec::new();
    space.push(' ');
    assert(space@ =~= seq![' ']);
    let joined = join_all(&parts, &space);
    string_of(&joined)
}

/// Builds the full-text expression for a user's query. The query is split into
/// shell words; one that cannot be split is taken as a single token.
pub fn build_fts_match(raw_query: &str) -> (expr: String)
    ensures
        expr@ == fts_expr(query_tokens(raw_query@, shell_words(raw_query@))),
{
    let tokens: Vec<String> = match shell_split(raw_query) {
        Some(words) => words,
        None => {
            let mut one: Vec<String> = Vec::new();
            one.push(raw_query.to_owned());
            assert(texts(one@) =~= seq![raw_query@]);
            one
        },
    };
    fts_from_tokens(&tokens)
}

/// The query `tag:P` asks for exactly the tags along the path `P`: one term for
/// each name of the path, in order, joined by `AND`.
pub proof fn lemma_tag_query(path: Seq<char>)
    ensures
        token_terms("tag:"@ + path) == tag_terms(non_empty(split_on(path, '/'))),
{
    reveal_strlit("tag:");
    reveal_strlit("AND");
    reveal_strlit("OR");
    reveal_strlit("NOT");
    let tok = "tag:"@ + path;
    assert(tok.len() >= 4);
    assert(!is_operator(tok));
    assert(tok.subrange(0, 4) =~= "tag:"@);
    assert(after(tok, 4) =~= path);
}

/// The terms for a path begin with the terms for each of its ancestors: whatever
/// matches the query for a tag path matches the query for every prefix of it.
pub proof fn lemma_tag_terms_prefix(segments: Seq<Seq<char>>, n: int)
    requires
        0 <= n <= segments.len(),
    ensures
        tag_terms(segments.subrange(0, n)).len() <= tag_terms(segments).len(),
        tag_terms(segments.subrange(0, n)) == tag_terms(segments).subrange(
            0,
            tag_terms(segments.subrange(0, n)).len() as int,
        ),
        tag_terms(segments).len() == if segments.len() == 0 {
            0
        } else {
            2 * segments.len() - 1
        },
    decreases segments.len() - n,
{
    lemma_tag_terms_len(segments);
    if n < segments.len() {
        let t = segments.drop_last();
        assert(t.subrange(0, n) =~= segments.subrange(0, n));
        lemma_tag_terms_prefix(t, n);
        lemma_tag_terms_len(t);
        let short = tag_terms(segments.subrange(0, n));
        assert(short =~= tag_terms(segments).subrange(0, short.len() as int));
    } else {
        assert(segments.subrange(0, n) =~= segments);
        assert(tag_terms(segments) =~= tag_terms(segments).subrange(
            0,
            tag_terms(segments).len() as int,
        ));
    }
}

/// A path of `n` names has `2n - 1` terms: one per name and an `AND` between
/// neighbours.
pub proof fn lemma_tag_terms_len(segments: Seq<Seq<char>>)
    ensures
        tag_terms(segments).len() == if segments.len() == 0 {
            0
        } else {
            2 * segments.len() - 1
        },
    decreases segments.len(),
{
    if segments.len() > 1 {
        lemma_tag_terms_len(segments.drop_last());
    }
}

/// Whether `path` is the path of a hit among `items`.
pub open spec fn hit_at(needle: Seq<char>, items: Seq<CandidateView>, path: Seq<char>) -> bool {
    exists|i: int|
        0 <= i < items.len() && is_hit(needle, #[trigger] items[i]) && items[i].path == path
}

/// The fallback search finds every file that is a hit, and nothing else.
pub proof fn lemma_fallback_finds(needle: Seq<char>, items: Seq<CandidateView>)
    ensures
        forall|i: int|
            0 <= i < items.len() && is_hit(needle, #[trigger] items[i]) ==> hits(
                needle,
                items,
            ).contains(items[i].path),
        forall|k: int|
            0 <= k < hits(needle, items).len() ==> hit_at(
                needle,
                items,
                #[trigger] hits(needle, items)[k],
            ),
    decreases items.len(),
{
    if items.len() > 0 {
        let t = items.drop_last();
        lemma_fallback_finds(needle, t);
        let r = hits(needle, items);
        let rt = hits(needle, t);
        assert forall|i: int|
            0 <= i < items.len() && is_hit(needle, #[trigger] items[i]) implies r.contains(
            items[i].path,
        ) by {
            if i < t.len() {
                assert(t[i] == items[i]);
                let k = choose|k: int| 0 <= k < rt.len() && rt[k] == t[i].path;
                assert(r[k] == items[i].path);
            } else {
                assert(r[r.len() - 1] == items[i].path);
            }
        }
        assert forall|k: int| 0 <= k < r.len() implies hit_at(needle, items, #[trigger] r[k]) by {
            if k < rt.len() {
                assert(r[k] == rt[k]);
                assert(hit_at(needle, t, rt[k]));
                let i = choose|i: int|
                    0 <= i < t.len() && is_hit(needle, #[trigger] t[i]) && t[i].path == rt[k];
                assert(items[i] == t[i]);
            } else {
                assert(is_hit(needle, items[items.len() - 1]));
                assert(items[items.len() - 1].path == r[k]);
            }
        }
    }
}

/// Largest file, in bytes, whose contents the fallback search reads.
pub const MAX_BODY_BYTES: u64 = 65_536;

/// Whether the substring fallback runs: the index found nothing and the query
/// names no column.
pub open spec fn wants_fallback(hits: nat, query: Seq<char>) -> bool {
    hits == 0 && !query.contains(':')
}

/// Whether the substring fallback runs for `query` after the index gave `hits`
/// rows.
pub fn needs_fallback(hits: usize, query: &str) -> (b: bool)
    ensures
        b == wants_fallback(hits as nat, query@),
{
    if hits != 0 {
        return false;
    }
    let q = chars_of(query);
    let mut colon: Vec<char> = Vec::new();
    colon.push(':');
    let found = find_first_of(&q, &colon);
    proof {
        crate::text::lemma_first_of_bounds(q@, colon@);
        if found < q@.len() {
            assert(colon@.contains(q@[found as int]));
            assert(q@[found as int] == ':');
            assert(q@.contains(':'));
        } else {
            if q@.contains(':') {
                let i = choose|i: int| 0 <= i < q@.len() && q@[i] == ':';
                assert(colon@[0] == ':');
                assert(colon@.contains(q@[i]));
            }
        }
    }
    found == q.len()
}

/// One file as the fallback search sees it: its stored path and, where the file
/// could be read and is small enough, its contents.
#[derive(Debug)]
pub struct Candidate {
    pub path: String,
    pub size: Option<u64>,
    pub body: Option<String>,
}

/// Mathematical value of a [`Candidate`].
pub ghost struct CandidateView {
    pub path: Seq<char>,
    pub size: Option<u64>,
    pub body: Option<Seq<char>>,
}

impl View for Candidate {
    type V = CandidateView;

    open spec fn view(&self) -> CandidateView {
        CandidateView {
            path: self.path@,
            size: self.size,
            body: match self.body {
                Some(b) => Some(b@),
                None => None,
            },
        }
    }
}

/// The values of a list of candidates, in order.
pub open spec fn candidate_views(items: Seq<Candidate>) -> Seq<CandidateView> {
    Seq::new(items.len(), |i: int| items[i]@)
}

/// Whether the fallback search reads the contents of a file of `size` bytes.
pub fn body_in_reach(size: u64) -> (b: bool)
    ensures
        b == (size <= MAX_BODY_BYTES),
{
    size <= MAX_BODY_BYTES
}

/// Whether a file is a hit for `needle`, which is already in lower case: its path
/// holds the needle when case is ignored, or its size is known and within reach
/// and its contents hold it.
pub open spec fn is_hit(needle: Seq<char>, c: CandidateView) -> bool {
    has_infix(lowercase(c.path), needle) || (c.size is Some && c.size->0 <= MAX_BODY_BYTES
        && c.body is Some && has_infix(lowercase(c.body->0), needle))
}

/// The paths of the hits among `items`, in order.
pub open spec fn hits(needle: Seq<char>, items: Seq<CandidateView>) -> Seq<Seq<char>>
    decreases items.len(),
{
    if items.len() == 0 {
        Seq::empty()
    } else if is_hit(needle, items.last()) {
        hits(needle, items.drop_last()).push(items.last().path)
    } else {
        hits(needle, items.drop_last())
    }
}

/// Whether a file is a hit, given its path and its contents in lower case.
pub open spec fn is_hit_with(
    needle: Seq<char>,
    lower_path: Seq<char>,
    size: Option<u64>,
    lower_body: Option<Seq<char>>,
) -> bool {
    has_infix(lower_path, needle) || (size is Some && size->0 <= MAX_BODY_BYTES && lower_body
        is Some && has_infix(lower_body->0, needle))
}

/// Whether a file is a hit for `needle`, given its path and, where they were
/// read, its contents, all in lower case.
pub fn hit_with(needle: &str, lower_path: &str, size: Option<u64>, lower_body: Option<&str>) -> (b:
    bool)
    ensures
        b == is_hit_with(needle@, lower_path@, size, crate::text::opt_str(lower_body)),
{
    let n = chars_of(needle);
    if contains_text(&chars_of(lower_path), &n) {
        return true;
    }
    match (size, lower_body) {
        (Some(bytes), Some(body)) => bytes <= MAX_BODY_BYTES && contains_text(
            &chars_of(body),
            &n,
        ),
        _ => false,
    }
}

/// Whether `c` is a hit for the lower-case `needle`.
pub fn candidate_hit(needle: &str, c: &Candidate) -> (b: bool)
    ensures
        b == is_hit(needle@, c@),
{
    let lower_path = lower_of(c.path.as_str());
    match &c.body {
        Some(body) => {
            let lower_body = lower_of(body.as_str());
            hit_with(needle, lower_path.as_str(), c.size, Some(lower_body.as_str()))
        },
        None => hit_with(needle, lower_path.as_str(), c.size, None),
    }
}

/// Case-insensitive substring search for `term` over paths and small files.
pub fn fallback_search(term: &str, items: &Vec<Candidate>) -> (out: Vec<String>)
    ensures
        texts(out@) == hits(lowercase(term@), candidate_views(items@)),
{
    let needle = lower_of(term);
    let ghost all = candidate_views(items@);
    let mut out: Vec<String> = Vec::new();
    let mut i: usize = 0;
    assert(all.subrange(0, 0) =~= Seq::<CandidateView>::empty());
    assert(texts(out@) =~= hits(needle@, all.subrange(0, 0)));
    while i < items.len()
        invariant
            i <= items.len(),
            all == candidate_views(items@),
            texts(out@) == hits(needle@, all.subrange(0, i as int)),
        decreases items.len() - i,
    {
        proof {
            let t = all.subrange(0, i + 1);
            assert(t.drop_last() =~= all.subrange(0, i as int));
            assert(t.last() == all[i as int]);
        }
        if candidate_hit(needle.as_str(), &items[i]) {
            let ghost prev = texts(out@);
            out.push(items[i].path.clone());
            assert(texts(out@) =~= prev.push(all[i as int].path));
        }
        i = i + 1;
    }
    assert(all.subrange(0, i as int) =~= all);
    out
}

} // verus!
