use libmarlin::config::{index_file_name, Config, Environment, StoreHome};
use libmarlin::error::Error;
use libmarlin::scan::{is_store_file, scan_directory, to_stored, WalkEntry};
use libmarlin::tagging::{count_changed, matching_paths, select_with, tag};
use libmarlin::db::FileRow;
use libmarlin::utils::{determine_scan_root, scan_root_from, to_db_path, to_db_path_backslash};
use std::collections::hash_map::DefaultHasher;
use std::hash::{Hash, Hasher};
use std::path::PathBuf;

#[test]
fn determine_scan_root_plain_path() {
    let root = determine_scan_root("foo/bar/baz.txt");
    assert_eq!(PathBuf::from(root), PathBuf::from("foo/bar"));
}

#[test]
fn determine_scan_root_glob() {
    let root = determine_scan_root("foo/*/baz.rs");
    assert_eq!(PathBuf::from(root), PathBuf::from("foo"));
}

#[test]
fn determine_scan_root_only_wildcards() {
    let root = determine_scan_root("**/*.txt");
    assert_eq!(PathBuf::from(root), PathBuf::from("."));
}

#[test]
fn determine_scan_root_edges() {
    assert_eq!(determine_scan_root("foo/*/baz.rs"), "foo/");
    assert_eq!(determine_scan_root("foo/ba?.txt"), "foo/ba");
    assert_eq!(determine_scan_root("a[bc]"), "a");
    assert_eq!(determine_scan_root("?"), ".");
    assert_eq!(determine_scan_root(""), ".");
    assert_eq!(determine_scan_root("/"), ".");
    assert_eq!(determine_scan_root("plain"), "");
    assert_eq!(determine_scan_root("/abs/file"), "/abs");
    assert_eq!(scan_root_from("x/y", None), ".");
    assert_eq!(scan_root_from("x/y", Some("given".to_string())), "given");
    assert_eq!(scan_root_from("x/*", Some("given".to_string())), "x/");
}

#[test]
fn db_paths_keep_their_form() {
    assert_eq!(to_db_path("/a/B\\c d"), "/a/B\\c d");
    assert_eq!(to_db_path(""), "");
    assert_eq!(to_db_path_backslash("C:\\dir\\f.txt"), "C:/dir/f.txt");
    assert_eq!(to_db_path_backslash("a/b"), "a/b");
    assert_eq!(to_db_path_backslash(&to_db_path_backslash("x\\y\\")), "x/y/");
}

fn env(over: Option<&str>, cwd: Option<&str>, home: bool, dir: Option<&str>) -> Environment {
    Environment {
        db_path_override: over.map(|s| s.to_string()),
        cwd: cwd.map(|s| s.to_string()),
        home_known: home,
        data_dir: dir.map(|s| s.to_string()),
    }
}

fn digest(path: &str) -> u64 {
    let mut h = DefaultHasher::new();
    PathBuf::from(path).hash(&mut h);
    h.finish()
}

#[test]
fn load_env_override() {
    let cfg = Config::load(&env(Some("/tmp/x/custom.db"), Some("/w"), true, Some("/data"))).unwrap();
    assert_eq!(PathBuf::from(cfg.db_path), PathBuf::from("/tmp/x/custom.db"));
    let cfg = Config::load(&env(Some("/tmp/x/custom.db"), None, false, None)).unwrap();
    assert_eq!(cfg.db_path, "/tmp/x/custom.db");
    assert_eq!(Config::home(&env(Some("x"), None, true, Some("/d"))), StoreHome::Override);
}

#[test]
fn load_xdg_or_fallback() {
    let e = env(None, Some("/work/here"), true, Some("/home/u/.local/share/marlin"));
    let cfg = Config::load(&e).unwrap();
    assert!(cfg.db_path.ends_with(".db"));
    assert_eq!(
        cfg.db_path,
        format!("/home/u/.local/share/marlin/index_{:016x}.db", digest("/work/here"))
    );
    assert_eq!(Config::home(&e), StoreHome::DataDir);
}

#[test]
fn load_fallback_current_dir() {
    let cwd = "/some/working/dir";
    let e = env(None, Some(cwd), false, Some("/data"));
    let cfg = Config::load(&e).unwrap();
    let expected_name = format!("index_{:016x}.db", digest(cwd));
    assert_eq!(PathBuf::from(&cfg.db_path), PathBuf::from(&expected_name));
    assert!(cfg.db_path.starts_with("index_"));
    assert_eq!(Config::home(&e), StoreHome::WorkingDir);
    let cfg = Config::load(&env(None, Some(cwd), true, None)).unwrap();
    assert_eq!(cfg.db_path, expected_name);
    assert_ne!(Config::load(&env(None, Some("/other"), true, None)).unwrap().db_path, expected_name);
}

#[test]
fn load_needs_a_working_directory_without_an_override() {
    let err = Config::load(&env(None, None, true, Some("/data"))).unwrap_err();
    assert_eq!(err.to_string(), "IO error: cannot determine the working directory");
    let cfg = Config::resolve(&env(None, None, true, Some("/data")), 0x1f);
    assert_eq!(cfg.db_path, "/data/index_000000000000001f.db");
}

#[test]
fn index_file_name_is_sixteen_hex_digits() {
    assert_eq!(index_file_name(0), "index_0000000000000000.db");
    assert_eq!(index_file_name(u64::MAX), "index_ffffffffffffffff.db");
    assert_eq!(index_file_name(0x1f), "index_000000000000001f.db");
    for d in [1u64, 255, 4096, 0xdead_beef, 1 << 63] {
        assert_eq!(index_file_name(d), format!("index_{:016x}.db", d));
    }
}

#[test]
fn test_error_display_and_from() {
    let io = std::io::Error::new(std::io::ErrorKind::NotFound, "test io error");
    let io_err = Error::Io(io.to_string());
    assert_eq!(io_err.to_string(), "IO error: test io error");
    assert!(io_err.has_source(), "Io error should have a source");

    let db_err = Error::Database("test db error".to_string());
    assert!(db_err.to_string().contains("Database error: test db error"));
    assert!(db_err.has_source(), "Database error should have a source");

    let watch_err = Error::Watch("test watch error".to_string());
    assert!(watch_err.to_string().contains("Watch error: test watch error"));
    assert!(watch_err.has_source(), "Watch error should have a source");

    let invalid_state_err = Error::InvalidState("bad state".to_string());
    assert_eq!(invalid_state_err.to_string(), "Invalid state: bad state");
    assert!(!invalid_state_err.has_source());

    let not_found_err = Error::NotFound("missing_file.txt".to_string());
    assert_eq!(not_found_err.to_string(), "Not found: missing_file.txt");
    assert!(!not_found_err.has_source());

    let config_err = Error::Config("bad config".to_string());
    assert_eq!(config_err.to_string(), "Configuration error: bad config");
    assert!(!config_err.has_source());

    let other_err = Error::Other("some other issue".to_string());
    assert_eq!(other_err.to_string(), "Error: some other issue");
    assert!(!other_err.has_source());
}

fn entry(path: &str, is_file: bool, size: u64, secs: u64) -> WalkEntry {
    WalkEntry {
        path: path.to_string(),
        file_name: PathBuf::from(path).file_name().map(|n| n.to_string_lossy().into_owned()),
        is_file,
        size_bytes: size,
        modified_secs: secs,
    }
}

#[test]
fn scan_directory_counts_files() {
    let entries = vec![
        entry("/t", false, 0, 0),
        entry("/t/a.txt", true, 5, 100),
        entry("/t/b.log", true, 0, 200),
        entry("/t/index.db", true, 9, 1),
        entry("/t/index.db-wal", true, 9, 1),
        entry("/t/index.db-shm", true, 9, 1),
        entry("/t/dir.db", false, 0, 0),
    ];
    let records = scan_directory(&entries);
    assert_eq!(records.len(), 2);
    assert_eq!(records[0].path, "/t/a.txt");
    assert_eq!(records[0].size, 5);
    assert_eq!(records[0].mtime, 100);
    assert_eq!(records[1].path, "/t/b.log");
    assert!(is_store_file("x.db") && is_store_file("-wal") && !is_store_file("db") );
    assert!(!is_store_file("a.dbx") && !is_store_file("wal"));
    assert_eq!(to_stored(u64::MAX), -1);
    assert_eq!(to_stored(1 << 63), i64::MIN);
    assert_eq!(to_stored(i64::MAX as u64), i64::MAX);
}

fn rows(items: &[(i64, &str)]) -> Vec<FileRow> {
    items.iter().map(|(id, p)| FileRow { id: *id, path: p.to_string() }).collect()
}

#[test]
fn tag_selects_by_name_or_by_whole_path() {
    let files = rows(&[(1, "/t/a.md"), (2, "/t/sub/b.md"), (3, "/t/c.txt"), (4, "/u/..")]);
    assert_eq!(tag("*.md", &files).unwrap(), vec![1, 2]);
    assert_eq!(tag("/t/*.md", &files).unwrap(), vec![1, 2]);
    assert_eq!(tag("/t/sub/*", &files).unwrap(), vec![2]);
    assert_eq!(tag("c.txt", &files).unwrap(), vec![3]);
    assert_eq!(tag("*", &files).unwrap(), vec![1, 2, 3]);
    assert!(tag("nothing", &files).unwrap().is_empty());
    assert_eq!(
        tag("a**b", &files).unwrap_err().to_string(),
        "Error: Invalid glob pattern `a**b`"
    );
    assert!(tag("[", &files).is_err());
    assert!(select_with("a/b", Some(true), None, None));
    assert!(!select_with("ab", Some(true), None, Some(true)));
    assert!(select_with("ab", None, Some("n".to_string()), Some(true)));
    assert!(!select_with("ab", Some(true), Some("n".to_string()), Some(false)));
}

#[test]
fn matching_paths_holds_the_whole_path_against_the_glob() {
    let paths: Vec<String> =
        ["/t/Projects/Alpha/draft1.md", "/t/Projects/Gamma/TODO.txt", "/t/Reports/Q1.pdf"]
            .iter()
            .map(|s| s.to_string())
            .collect();
    assert_eq!(
        matching_paths("/t/Projects/**/*.md", &paths).unwrap(),
        vec!["/t/Projects/Alpha/draft1.md"]
    );
    assert_eq!(matching_paths("/t/Reports/*.pdf", &paths).unwrap(), vec!["/t/Reports/Q1.pdf"]);
    assert!(matching_paths("*.pdf", &paths).unwrap().len() == 1);
    assert!(matching_paths("***", &paths).is_err());
    assert_eq!(count_changed(&vec![vec![0, 0], vec![0, 1], vec![], vec![1, 1]]), 2);
    assert_eq!(count_changed(&vec![]), 0);
}
