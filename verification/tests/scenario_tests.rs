use libmarlin::backup::{BackupManager, DirEntry, PathState, Timestamp};
use libmarlin::db::tags::TagForest;
use libmarlin::db::{like_pattern, update_file_path, FileRow};
use libmarlin::query::build_fts_match;
use libmarlin::scan::{scan_directory, WalkEntry};
use libmarlin::tagging::{matching_paths, tag};
use libmarlin::watcher::event::{FsEvent, FsEventKind, RenameMode};
use libmarlin::watcher::pipeline::InodeProbe;
use libmarlin::watcher::{store_action, FileWatcher, StoreAction, WatcherConfig, WatcherState};

fn file(path: &str) -> WalkEntry {
    WalkEntry {
        path: path.to_string(),
        file_name: path.rsplit('/').next().map(|n| n.to_string()),
        is_file: true,
        size_bytes: 1,
        modified_secs: 1,
    }
}

fn demo_tree() -> Vec<WalkEntry> {
    vec![
        file("/demo/Projects/Alpha/draft1.md"),
        file("/demo/Projects/Beta/final.md"),
        file("/demo/Projects/Gamma/TODO.txt"),
        file("/demo/Reports/Q1.pdf"),
        file("/demo/Logs/app.log"),
        file("/demo/index.db"),
        file("/demo/index.db-wal"),
    ]
}

fn rows_of(entries: Vec<WalkEntry>) -> Vec<FileRow> {
    scan_directory(&entries)
        .into_iter()
        .enumerate()
        .map(|(i, r)| FileRow { id: i as i64 + 1, path: r.path })
        .collect()
}

#[test]
fn init_and_scan_indexes_every_file_but_the_store() {
    let entries = vec![
        file("/demo/Projects/Alpha/draft1.md"),
        file("/demo/Projects/Gamma/TODO.txt"),
        file("/demo/Reports/Q1.pdf"),
        file("/demo/Logs/app.log"),
        file("/demo/index.db"),
    ];
    assert_eq!(scan_directory(&entries).len(), 4);
}

#[test]
fn hierarchical_tag_and_search() {
    let rows = rows_of(demo_tree());
    let selected = tag("/demo/Projects/**/*.md", &rows).unwrap();
    assert_eq!(selected, vec![1, 2]);
    let mut forest = TagForest::new();
    let leaf = forest.ensure_tag_path("project/md").unwrap();
    assert_eq!(forest.lineage(leaf).len(), 2);
    assert_eq!(build_fts_match("tag:project/md"), "tags_text:project AND tags_text:md");
    assert_eq!(build_fts_match("tag:project"), "tags_text:project");
}

#[test]
fn attribute_set_and_search() {
    let paths: Vec<String> = demo_tree().into_iter().map(|e| e.path).collect();
    assert_eq!(matching_paths("/demo/Reports/*.pdf", &paths).unwrap(), vec!["/demo/Reports/Q1.pdf"]);
    assert_eq!(build_fts_match("attr:reviewed=yes"), "attrs_text:reviewed AND attrs_text:yes");
}

#[test]
fn link_backlinks_pattern() {
    assert_eq!(like_pattern("*bar.txt"), "%bar.txt");
}

#[test]
fn rename_propagation() {
    let mut watcher =
        FileWatcher::new(vec!["/tmp/w".to_string()], WatcherConfig::default(), 0);
    watcher.start().unwrap();
    let event = FsEvent {
        kind: FsEventKind::Rename(RenameMode::Both),
        paths: vec!["/tmp/w/a.txt".to_string(), "/tmp/w/b.txt".to_string()],
        tracker: None,
    };
    for e in watcher.ingest(&event, InodeProbe { handle_key: None }, 10) {
        watcher.queue(e, false);
    }
    let batch = watcher.flush_if_ready(200);
    assert_eq!(batch.len(), 1);
    assert!(watcher.status().unwrap().events_processed > 0);

    let files = vec![FileRow { id: 41, path: "/tmp/w/a.txt".to_string() }];
    match store_action(&batch[0], false) {
        Some(StoreAction::UpdateFilePath { old, new }) => {
            let row = update_file_path(&files, &old, &new).unwrap();
            assert_eq!((row.id, row.path.as_str()), (41, "/tmp/w/b.txt"));
        }
        other => panic!("unexpected {:?}", other),
    }
    watcher.stop(300).unwrap();
    assert_eq!(watcher.status().unwrap().state, WatcherState::Stopped);
}

#[test]
fn backup_then_prune_then_restore() {
    let (manager, _) = BackupManager::new("/t/live.db", "/t/backups", PathState::Directory).unwrap();
    let entries: Vec<DirEntry> = (1..=4)
        .map(|day| DirEntry {
            name: format!("backup_2024-03-0{}_10-00-00_000000000.db", day),
            is_file: true,
            size_bytes: 10,
            modified: Timestamp { secs: 0, nanos: 0 },
        })
        .collect();
    let listing = manager.list_backups(&entries);
    assert_eq!(listing.len(), 4);
    let result = manager.prune(listing, 2);
    assert_eq!(result.kept.len(), 2);
    assert_eq!(result.removed.len(), 2);
    assert_eq!(result.kept[0].id, "backup_2024-03-04_10-00-00_000000000.db");
    assert_eq!(result.kept[1].id, "backup_2024-03-03_10-00-00_000000000.db");
    assert!(result.kept[0].timestamp.secs > result.kept[1].timestamp.secs);
    let (from, to) = manager.restore_from_backup(&result.kept[0].id, PathState::File).unwrap();
    assert_eq!(from, "/t/backups/backup_2024-03-04_10-00-00_000000000.db");
    assert_eq!(to, "/t/live.db");
}
