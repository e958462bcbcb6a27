use libmarlin::db::database::IndexOptions;
use libmarlin::db::tags::{TagForest, TagRow};
use libmarlin::db::{
    check_schema_version, direction_of, int_text, like_pattern, migration_name,
    migration_version, missing_versions, parse_version, plan_migrations, rename_directory,
    tag_segments, update_file_path, Direction, FileRow, MIGRATION_COUNT, SCHEMA_VERSION,
};

#[test]
fn test_index_options_default() {
    let options = IndexOptions::default();
    assert!(!options.dirty_only);
    assert!(options.index_contents);
    assert_eq!(options.max_size, Some(1_000_000));
}

#[test]
fn migration_names_carry_their_versions() {
    assert_eq!(MIGRATION_COUNT, 7);
    assert_eq!(SCHEMA_VERSION, 7);
    for i in 0..MIGRATION_COUNT {
        assert_eq!(parse_version(migration_name(i).unwrap()), migration_version(i));
    }
    assert_eq!(migration_name(0), Some("0001_initial_schema.sql"));
    assert_eq!(migration_name(6), Some("0007_fix_rename_trigger.sql"));
    assert_eq!(migration_name(7), None);
    assert_eq!(migration_version(6), Some(7));
    assert_eq!(migration_version(7), None);
}

#[test]
fn parse_version_reads_the_numeric_prefix() {
    assert_eq!(parse_version("0004_fix.sql"), Some(4));
    assert_eq!(parse_version("12"), Some(12));
    assert_eq!(parse_version("_x"), None);
    assert_eq!(parse_version("+4_fix.sql"), None);
    assert_eq!(parse_version("-4_fix.sql"), None);
    assert_eq!(parse_version("x1_y"), None);
    assert_eq!(parse_version("9223372036854775807_max"), Some(i64::MAX));
    assert_eq!(parse_version("9223372036854775808_over"), None);
}

#[test]
fn plan_migrations_skips_what_is_recorded() {
    assert_eq!(plan_migrations(&vec![]), vec![0, 1, 2, 3, 4, 5, 6]);
    assert_eq!(plan_migrations(&vec![1, 2, 3]), vec![3, 4, 5, 6]);
    assert_eq!(plan_migrations(&vec![7, 5, 1]), vec![1, 2, 3, 5]);
    assert!(plan_migrations(&vec![1, 2, 3, 4, 5, 6, 7]).is_empty());
    assert_eq!(missing_versions(&vec![1, 2, 4, 7]), vec![3, 5, 6]);
    assert!(missing_versions(&vec![7, 6, 5, 4, 3, 2, 1, 8]).is_empty());
}

#[test]
fn schema_version_check_is_strict() {
    assert!(check_schema_version(7).is_ok());
    assert_eq!(
        check_schema_version(6).unwrap_err().to_string(),
        "Database error: database schema version 6 does not match library version 7"
    );
    assert_eq!(
        check_schema_version(-12).unwrap_err().to_string(),
        "Database error: database schema version -12 does not match library version 7"
    );
    assert!(check_schema_version(8).is_err());
    assert!(check_schema_version(0).is_err());
}

#[test]
fn int_text_writes_decimal() {
    assert_eq!(int_text(0), "0");
    assert_eq!(int_text(907), "907");
    assert_eq!(int_text(-1), "-1");
    assert_eq!(int_text(i64::MAX), "9223372036854775807");
    assert_eq!(int_text(i64::MIN), "-9223372036854775808");
}

#[test]
fn tag_segments_drop_empty_pieces() {
    assert_eq!(tag_segments("foo/bar/baz").unwrap(), vec!["foo", "bar", "baz"]);
    assert_eq!(tag_segments("/foo//bar/").unwrap(), vec!["foo", "bar"]);
    assert_eq!(tag_segments("solo").unwrap(), vec!["solo"]);
    assert_eq!(tag_segments("").unwrap_err().to_string(), "Error: empty tag path");
    assert_eq!(tag_segments("///").unwrap_err().to_string(), "Error: empty tag path");
}

#[test]
fn like_pattern_maps_only_the_star() {
    assert_eq!(like_pattern("*bar.txt"), "%bar.txt");
    assert_eq!(like_pattern("a*b*c"), "a%b%c");
    assert_eq!(like_pattern("a?b_[c]%"), "a?b_[c]%");
    assert_eq!(like_pattern(""), "");
}

#[test]
fn direction_defaults_to_outgoing() {
    assert_eq!(direction_of(Some("in")), Direction::In);
    assert_eq!(direction_of(Some("out")), Direction::Out);
    assert_eq!(direction_of(Some("IN")), Direction::Out);
    assert_eq!(direction_of(None), Direction::Out);
    assert_eq!(Direction::Out.matched_column(), "src_file_id");
    assert_eq!(Direction::Out.listed_column(), "dst_file_id");
    assert_eq!(Direction::In.matched_column(), "dst_file_id");
    assert_eq!(Direction::In.listed_column(), "src_file_id");
}

fn rows(items: &[(i64, &str)]) -> Vec<FileRow> {
    items.iter().map(|(id, p)| FileRow { id: *id, path: p.to_string() }).collect()
}

fn pairs(items: &[FileRow]) -> Vec<(i64, String)> {
    items.iter().map(|r| (r.id, r.path.clone())).collect()
}

#[test]
fn rename_directory_moves_children_and_keeps_ids() {
    let files = rows(&[
        (1, "/t/old/one.txt"),
        (2, "/t/older/x"),
        (3, "/t/old/sub/two.txt"),
        (4, "/t/old"),
        (5, "/t/new/old/three"),
    ]);
    let moved = rename_directory(&files, "/t/old", "/t/newdir");
    assert_eq!(
        pairs(&moved),
        vec![(1, "/t/newdir/one.txt".to_string()), (3, "/t/newdir/sub/two.txt".to_string())]
    );
    let moved = rename_directory(&files, "/t/old/", "/t/newdir/");
    assert_eq!(
        pairs(&moved),
        vec![(1, "/t/newdir/one.txt".to_string()), (3, "/t/newdir/sub/two.txt".to_string())]
    );
    assert!(rename_directory(&files, "/nowhere", "/x").is_empty());
}

#[test]
fn rename_directory_replaces_only_the_leading_directory() {
    let files = rows(&[(9, "a/b/a/b/x")]);
    let moved = rename_directory(&files, "a/b", "c");
    assert_eq!(pairs(&moved), vec![(9, "c/a/b/x".to_string())]);
}

#[test]
fn update_file_path_keeps_the_id() {
    let files = rows(&[(1, "/t/a.txt"), (2, "/t/c.txt")]);
    let row = update_file_path(&files, "/t/a.txt", "/t/b.txt").unwrap();
    assert_eq!((row.id, row.path.as_str()), (1, "/t/b.txt"));
    assert_eq!(
        update_file_path(&files, "/t/zzz", "/t/b.txt").unwrap_err().to_string(),
        "Not found: file not indexed: /t/zzz"
    );
}

fn tag(id: i64, name: &str, parent_id: Option<i64>) -> TagRow {
    TagRow { id, name: name.to_string(), parent_id }
}

fn tags_of(forest: &TagForest) -> Vec<(i64, String, Option<i64>)> {
    (0..forest.len())
        .map(|i| forest.get(i).unwrap())
        .map(|r| (r.id, r.name, r.parent_id))
        .collect()
}

#[test]
fn ensure_tag_path_creates_hierarchy() {
    let mut forest = TagForest::new();
    let leaf = forest.ensure_tag_path("foo/bar/baz").unwrap();
    let foo = forest.find("foo", None).unwrap();
    let bar = forest.find("bar", Some(foo)).unwrap();
    let baz = forest.find("baz", Some(bar)).unwrap();
    assert_eq!(leaf, baz);
    assert_eq!(
        tags_of(&forest),
        vec![
            (1, "foo".to_string(), None),
            (2, "bar".to_string(), Some(1)),
            (3, "baz".to_string(), Some(2))
        ]
    );
    assert_eq!(forest.lineage(leaf), vec![3, 2, 1]);
    assert_eq!(forest.lineage(foo), vec![1]);
    assert!(forest.lineage(99).is_empty());
}

#[test]
fn ensure_tag_path_finds_what_is_there() {
    let mut forest = TagForest::new();
    let first = forest.ensure_tag_path("project/md").unwrap();
    let again = forest.ensure_tag_path("/project//md/").unwrap();
    assert_eq!(first, again);
    assert_eq!(forest.len(), 2);
    let sibling = forest.ensure_tag_path("project/rs").unwrap();
    assert_eq!(forest.len(), 3);
    assert_ne!(sibling, first);
    assert_eq!(forest.lineage(sibling), vec![sibling, forest.find("project", None).unwrap()]);
    let other_root = forest.ensure_tag_path("md").unwrap();
    assert_ne!(other_root, first);
    assert_eq!(forest.find("md", None), Some(other_root));
    assert_eq!(forest.find("md", Some(99)), None);
    assert_eq!(forest.ensure_tag_path("//").unwrap_err().to_string(), "Error: empty tag path");
    assert_eq!(forest.len(), 4);
}

#[test]
fn tag_forest_checks_its_rows() {
    let good = vec![tag(5, "a", None), tag(7, "b", Some(5)), tag(2, "b", None)];
    let mut forest = TagForest::from_rows(good).expect("a forest");
    assert_eq!(forest.lineage(7), vec![7, 5]);
    assert_eq!(forest.ensure_tag_path("a/b/c").unwrap(), 8);
    assert!(TagForest::from_rows(vec![tag(1, "a", None), tag(1, "b", None)]).is_none());
    assert!(TagForest::from_rows(vec![tag(1, "a", None), tag(2, "a", None)]).is_none());
    assert!(TagForest::from_rows(vec![tag(1, "a", Some(2)), tag(2, "b", None)]).is_none());
    assert!(TagForest::from_rows(vec![tag(1, "a", Some(1))]).is_none());
    assert!(TagForest::from_rows(vec![tag(1, "a", None), tag(2, "a", Some(1))]).is_some());
    let mut full = TagForest::from_rows(vec![tag(i64::MAX, "top", None)]).unwrap();
    assert_eq!(full.ensure_tag_path("top").unwrap(), i64::MAX);
    assert_eq!(
        full.ensure_tag_path("top/more").unwrap_err().to_string(),
        "Database error: tag ids exhausted"
    );
    assert_eq!(full.len(), 1);
}
