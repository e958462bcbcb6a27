use libmarlin::cli::view::escape;
use libmarlin::exec::{command_for, push_runnable, run_exec};
use libmarlin::query::{
    body_in_reach, build_fts_match, candidate_hit, escape_fts, escape_with, fallback_search,
    fts_from_tokens, needs_fallback, white_space, Candidate, MAX_BODY_BYTES,
};

fn words(items: &[&str]) -> Vec<String> {
    items.iter().map(|s| s.to_string()).collect()
}

#[test]
fn test_escape_fts_quotes_terms() {
    assert_eq!(escape_fts("foo"), "foo");
    assert_eq!(escape_fts("foo bar"), "\"foo bar\"");
    assert_eq!(escape_fts("AND"), "\"AND\"");
}

#[test]
fn escape_quotes_syntax_and_reserved_words() {
    assert_eq!(escape_fts("a-b"), "\"a-b\"");
    assert_eq!(escape_fts("k:v"), "\"k:v\"");
    assert_eq!(escape_fts("f(x)"), "\"f(x)\"");
    assert_eq!(escape_fts("say \"hi\""), "\"say \"\"hi\"\"\"");
    assert_eq!(escape_fts("x\"y"), "\"x\"\"y\"");
    assert_eq!(escape_fts("near"), "\"near\"");
    assert_eq!(escape_fts("Or"), "\"Or\"");
    assert_eq!(escape_fts("not"), "\"not\"");
    assert_eq!(escape_fts("nearby"), "nearby");
    assert_eq!(escape_fts("tab\there"), "\"tab\there\"");
    assert_eq!(escape_fts("wide\u{3000}gap"), "\"wide\u{3000}gap\"");
    assert_eq!(escape_fts("a/b_c.d"), "a/b_c.d");
    assert_eq!(escape_fts(""), "");
    assert_eq!(escape("foo bar"), "\"foo bar\"");
    assert_eq!(escape_with("plain", "AND"), "\"plain\"");
    assert_eq!(escape_with("and", "and"), "and");
}

#[test]
fn white_space_is_the_unicode_property() {
    for c in ['\t', '\n', '\u{0B}', '\u{0C}', '\r', ' ', '\u{85}', '\u{A0}', '\u{1680}'] {
        assert!(white_space(c));
    }
    for c in ['\u{2000}', '\u{200A}', '\u{2028}', '\u{2029}', '\u{202F}', '\u{205F}', '\u{3000}'] {
        assert!(white_space(c));
    }
    for c in ['a', '\u{08}', '\u{0E}', '\u{200B}', '\u{1F}', '_', '\u{180E}'] {
        assert!(!white_space(c));
    }
    let mut n = 0;
    for code in 0u32..0x11_0000 {
        if let Some(c) = char::from_u32(code) {
            assert_eq!(white_space(c), c.is_whitespace());
            n += 1;
        }
    }
    assert!(n > 1_000_000);
}

#[test]
fn fts_expression_for_tags_and_attributes() {
    assert_eq!(build_fts_match("tag:project/md"), "tags_text:project AND tags_text:md");
    assert_eq!(build_fts_match("tag:a/b/c"), "tags_text:a AND tags_text:b AND tags_text:c");
    assert_eq!(build_fts_match("tag:/a//b/"), "tags_text:a AND tags_text:b");
    assert_eq!(build_fts_match("tag:"), "");
    assert_eq!(build_fts_match("attr:reviewed=yes"), "attrs_text:reviewed AND attrs_text:yes");
    assert_eq!(build_fts_match("attr:color"), "attrs_text:color");
    assert_eq!(build_fts_match("attr:k=a=b"), "attrs_text:k AND attrs_text:a=b");
    assert_eq!(build_fts_match("attr:k="), "attrs_text:k AND attrs_text:");
    assert_eq!(
        build_fts_match("attr:due-date=x"),
        "attrs_text:\"due-date\" AND attrs_text:x"
    );
}

#[test]
fn fts_expression_passes_operators_and_escapes_terms() {
    assert_eq!(build_fts_match("TODO"), "TODO");
    assert_eq!(build_fts_match("foo AND bar"), "foo AND bar");
    assert_eq!(build_fts_match("foo and bar"), "foo \"and\" bar");
    assert_eq!(build_fts_match("NOT tag:x OR y"), "NOT tags_text:x OR y");
    assert_eq!(build_fts_match("NEAR"), "\"NEAR\"");
    assert_eq!(build_fts_match("'two words' one"), "\"two words\" one");
    assert_eq!(build_fts_match("  spaced   out  "), "spaced out");
    assert_eq!(build_fts_match(""), "");
}

#[test]
fn fts_expression_takes_an_unsplittable_query_whole() {
    assert_eq!(build_fts_match("it's"), "it's");
    assert_eq!(build_fts_match("\"open"), "\"\"\"open\"");
    assert_eq!(build_fts_match("tag:a 'b"), "tags_text:\"a 'b\"");
}

#[test]
fn fts_from_tokens_joins_with_single_spaces() {
    assert_eq!(fts_from_tokens(&words(&[])), "");
    assert_eq!(fts_from_tokens(&words(&["a"])), "a");
    assert_eq!(fts_from_tokens(&words(&["a", "tag:", "b"])), "a b");
    assert_eq!(
        fts_from_tokens(&words(&["tag:x/y", "OR", "attr:k=v w"])),
        "tags_text:x AND tags_text:y OR attrs_text:k AND attrs_text:\"v w\""
    );
}

#[test]
fn fallback_runs_only_without_hits_and_columns() {
    assert!(needs_fallback(0, "hello"));
    assert!(!needs_fallback(1, "hello"));
    assert!(!needs_fallback(0, "tag:x"));
    assert!(!needs_fallback(0, ":"));
    assert!(needs_fallback(0, ""));
}

fn candidate(path: &str, size: Option<u64>, body: Option<&str>) -> Candidate {
    Candidate { path: path.to_string(), size, body: body.map(|b| b.to_string()) }
}

#[test]
fn fallback_search_matches_paths_and_small_bodies() {
    assert_eq!(MAX_BODY_BYTES, 65_536);
    assert!(body_in_reach(65_536));
    assert!(!body_in_reach(65_537));
    let items = vec![
        candidate("/t/Hello.txt", Some(3), Some("abc")),
        candidate("/t/a.txt", Some(11), Some("hello FA\u{c7}T")),
        candidate("/t/big.txt", Some(65_537), Some("hello")),
        candidate("/t/edge.txt", Some(65_536), Some("say HELLO")),
        candidate("/t/unread.txt", Some(5), None),
        candidate("/t/nostat.txt", None, Some("hello")),
    ];
    assert_eq!(
        fallback_search("hello", &items),
        vec!["/t/Hello.txt", "/t/a.txt", "/t/edge.txt"]
    );
    assert_eq!(fallback_search("FA\u{c7}T", &items), vec!["/t/a.txt"]);
    assert_eq!(fallback_search("", &items).len(), 6);
    assert!(fallback_search("absent", &items).is_empty());
    assert!(candidate_hit("t/b", &candidate("/T/Big", None, None)));
    assert!(!candidate_hit("T/B", &candidate("/T/Big", None, None)));
}

#[test]
fn exec_plan_substitutes_or_appends_the_path() {
    assert_eq!(command_for("echo {}", "a.txt"), "echo a.txt");
    assert_eq!(command_for("cp {} {}.bak", "f"), "cp f f.bak");
    assert_eq!(command_for("wc -l", "f"), "wc -l f");
    assert_eq!(command_for("{{}}", "x"), "{x}");
    assert_eq!(
        run_exec(&words(&["/t/a b.txt", "/t/c"]), "sh log.sh {}"),
        vec![words(&["sh", "log.sh", "/t/a b.txt"]), words(&["sh", "log.sh", "/t/c"])]
    );
    assert_eq!(run_exec(&words(&["it's"]), "cat"), vec![words(&["cat", "it's"])]);
    assert_eq!(run_exec(&words(&[]), "echo none"), vec![words(&["echo", "none"])]);
    assert!(run_exec(&words(&[]), "echo {}").is_empty());
    assert!(run_exec(&words(&[]), "").is_empty());
    assert!(run_exec(&words(&[]), "'open").is_empty());
    assert!(run_exec(&words(&["x"]), "'open {}").is_empty());
}

#[test]
fn only_lines_with_words_become_commands() {
    let mut plan: Vec<Vec<String>> = Vec::new();
    push_runnable(&mut plan, Some(words(&["echo", "a b"])));
    push_runnable(&mut plan, Some(words(&[])));
    push_runnable(&mut plan, None);
    push_runnable(&mut plan, Some(words(&["true"])));
    assert_eq!(plan, vec![words(&["echo", "a b"]), words(&["true"])]);
}
