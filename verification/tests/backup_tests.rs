use libmarlin::backup::{
    backup_name, first_reading, info_for, is_backup_name, moment_of, prune_listing,
    sort_newest_first, stamp_readable, stamp_text, BackupInfo, BackupManager, DirEntry,
    LocalReading, PathState, Preparation, Timestamp,
};
use libmarlin::cli::backup::{plan, plan_with, BackupOpts, BackupPlan};
use libmarlin::error::Error;

fn ts(secs: i64, nanos: u32) -> Timestamp {
    Timestamp { secs, nanos }
}

fn info(id: &str, secs: i64, nanos: u32) -> BackupInfo {
    BackupInfo { id: id.to_string(), timestamp: ts(secs, nanos), size_bytes: 1, hash: None }
}

fn ids(items: &[BackupInfo]) -> Vec<&str> {
    items.iter().map(|b| b.id.as_str()).collect()
}

fn manager() -> BackupManager {
    BackupManager::new("/t/live.db", "/t/backups", PathState::Directory).unwrap().0
}

#[test]
fn test_backup_manager_new_creates_dir() {
    let (manager, todo) =
        BackupManager::new("/t/live_new_creates.db", "/t/my_backups", PathState::Missing).unwrap();
    assert_eq!(todo, Preparation::CreateDirectory);
    assert_eq!(manager.backups_dir(), "/t/my_backups");
    assert_eq!(manager.live_db_path(), "/t/live_new_creates.db");
}

#[test]
fn test_backup_manager_new_with_existing_dir() {
    let res = BackupManager::new("/t/live.db", "/t/existing", PathState::Directory);
    assert!(res.is_ok());
    let (manager, todo) = res.unwrap();
    assert_eq!(todo, Preparation::Nothing);
    assert_eq!(manager.backups_dir(), "/t/existing");
}

#[test]
fn test_backup_manager_new_fails_if_backup_path_is_file() {
    let res = BackupManager::new("/t/live.db", "/t/file_as_backups_dir", PathState::File);
    assert!(res.is_err());
    let text = res.unwrap_err().to_string();
    assert!(text.contains("Backups path exists but is not a directory"));
    assert_eq!(text, "Error: Backups path exists but is not a directory: /t/file_as_backups_dir");
    assert!(BackupManager::new("/t/live.db", "/dev/null", PathState::Other).is_err());
}

#[test]
fn test_create_backup_failure_non_existent_live_db() {
    let backup_result = manager().create_backup(PathState::Missing);
    assert!(backup_result.is_err());
    let err_str = backup_result.unwrap_err().to_string();
    assert!(
        err_str.contains("Cannot create backup from non-existent live DB")
            || err_str.contains("Failed to open source DB")
    );
    assert!(err_str.ends_with("Live DB path does not exist: /t/live.db"));
}

#[test]
fn create_backup_names_follow_the_format() {
    let name = manager().create_backup(PathState::File).unwrap();
    assert!(is_backup_name(&name));
    assert!(stamp_readable(&name));
    assert!(name.starts_with("backup_") && name.ends_with(".db"));
    let stamp = stamp_text(&name);
    assert_eq!(stamp.len(), "2024-01-02_03-04-05_123456789".len());
    let listed = manager().list_backups(&vec![DirEntry {
        name: name.clone(),
        is_file: true,
        size_bytes: 3,
        modified: ts(0, 0),
    }]);
    assert_eq!(listed.len(), 1);
    assert!(listed[0].timestamp.secs > 1_600_000_000);
    assert_eq!(listed[0].id, name);
    let made = BackupManager::created_info(name.clone(), ts(5, 6), 77);
    assert_eq!((made.id, made.timestamp, made.size_bytes, made.hash), (name, ts(5, 6), 77, None));
}

#[test]
fn test_restore_non_existent_backup() {
    let result = manager().restore_from_backup("non_existent_backup.db", PathState::Missing);
    assert!(result.is_err());
    let err_string = result.unwrap_err().to_string();
    assert!(err_string.contains("Backup file not found"), "Error string was: {}", err_string);
    assert_eq!(
        err_string,
        "Not found: Backup file not found or is not a file: /t/backups/non_existent_backup.db"
    );
    assert!(manager().restore_from_backup("d", PathState::Directory).is_err());
}

#[test]
fn restore_plan_copies_the_backup_over_the_store() {
    let (from, to) = manager().restore_from_backup("backup_x.db", PathState::File).unwrap();
    assert_eq!(from, "/t/backups/backup_x.db");
    assert_eq!(to, "/t/live.db");
}

#[test]
fn verify_backup_ok() {
    let ok = manager().verify_backup("backup_x.db", PathState::File, "ok").unwrap();
    assert!(ok, "expected integrity check to pass");
    assert!(!manager().verify_backup("backup_x.db", PathState::File, "row 1 missing").unwrap());
    assert!(!manager().verify_backup("backup_x.db", PathState::File, "OK").unwrap());
    let err = manager().verify_backup("nope.db", PathState::Missing, "ok").unwrap_err();
    assert!(matches!(err, Error::NotFound(_)));
}

#[test]
fn backup_names_and_stamps() {
    assert_eq!(backup_name("2024-01-02_03-04-05"), "backup_2024-01-02_03-04-05.db");
    assert!(is_backup_name("backup_.db"));
    assert!(is_backup_name("backup_badformat.db"));
    assert!(!is_backup_name("backup_malformed.db.tmp"));
    assert!(!is_backup_name("not_a_backup.txt"));
    assert!(!is_backup_name("Backup_x.db"));
    assert!(!is_backup_name("backup.db"));
    assert_eq!(stamp_text("backup_2024-01-02_03-04-05_000123.db"), "2024-01-02_03-04-05_000123");
    assert_eq!(stamp_text("backup_backup_x.db.db"), "x");
    assert_eq!(stamp_text("backup_.db"), "");
    assert_eq!(stamp_text("other"), "other");
}

#[test]
fn moments_follow_the_reading() {
    let m = ts(9, 9);
    assert_eq!(moment_of(None, m), Some(m));
    assert_eq!(moment_of(Some(LocalReading::Single(ts(1, 2))), m), Some(ts(1, 2)));
    assert_eq!(moment_of(Some(LocalReading::Ambiguous(ts(1, 0), ts(2, 0))), m), Some(ts(1, 0)));
    assert_eq!(moment_of(Some(LocalReading::Missing), m), None);
    assert_eq!(first_reading(Some((1, 2)), Some((3, 4))), Some((1, 2)));
    assert_eq!(first_reading(None, Some((3, 4))), Some((3, 4)));
    assert_eq!(first_reading(None, None), None);
    let e = DirEntry { name: "backup_x.db".to_string(), is_file: true, size_bytes: 4, modified: m };
    let got = info_for(&e, None).unwrap();
    assert_eq!((got.id.as_str(), got.timestamp, got.size_bytes, got.hash), ("backup_x.db", m, 4, None));
    assert!(info_for(&e, Some(LocalReading::Missing)).is_none());
    let d = DirEntry { name: "backup_x.db".to_string(), is_file: false, size_bytes: 4, modified: m };
    assert!(info_for(&d, None).is_none());
}

#[test]
fn list_backups_with_non_backup_files() {
    let entries = vec![
        DirEntry { name: "not_a_backup.txt".into(), is_file: true, size_bytes: 5, modified: ts(1, 0) },
        DirEntry {
            name: "backup_malformed.db.tmp".into(),
            is_file: true,
            size_bytes: 9,
            modified: ts(2, 0),
        },
        DirEntry { name: "a_subdir".into(), is_file: false, size_bytes: 0, modified: ts(3, 0) },
        DirEntry { name: "backup_dir.db".into(), is_file: false, size_bytes: 0, modified: ts(3, 0) },
        DirEntry {
            name: "backup_2024-05-06_07-08-09_000000123.db".into(),
            is_file: true,
            size_bytes: 4096,
            modified: ts(4, 0),
        },
    ];
    let listed = manager().list_backups(&entries);
    assert_eq!(listed.len(), 1, "Should only list the valid backup file");
    assert!(listed[0].id.starts_with("backup_"));
    assert!(listed[0].id.ends_with(".db"));
    assert_eq!(listed[0].size_bytes, 4096);
    assert_eq!(listed[0].timestamp.nanos, 123);
    let day = 86_400;
    let utc = 1_714_979_289i64;
    assert!((listed[0].timestamp.secs - utc).abs() <= day);
}

#[test]
fn list_backups_fallback_modification_time() {
    let entries = vec![
        DirEntry { name: "backup_badformat.db".into(), is_file: true, size_bytes: 3, modified: ts(77, 5) },
        DirEntry { name: "backup_2024-13-40_00-00-00.db".into(), is_file: true, size_bytes: 3, modified: ts(99, 0) },
        DirEntry { name: "backup_.db".into(), is_file: true, size_bytes: 0, modified: ts(88, 0) },
    ];
    let listed = manager().list_backups(&entries);
    assert_eq!(listed.len(), 3);
    assert_eq!(ids(&listed), vec!["backup_2024-13-40_00-00-00.db", "backup_.db", "backup_badformat.db"]);
    assert_eq!(listed[2].timestamp, ts(77, 5));
    assert!(manager().list_backups(&vec![]).is_empty());
}

#[test]
fn list_backups_reads_stamps_with_and_without_fraction() {
    let entries = vec![
        DirEntry { name: "backup_2024-01-01_00-00-00.db".into(), is_file: true, size_bytes: 1, modified: ts(0, 0) },
        DirEntry { name: "backup_2024-01-03_00-00-00_5.db".into(), is_file: true, size_bytes: 1, modified: ts(0, 0) },
        DirEntry { name: "backup_2024-01-02_00-00-00.db".into(), is_file: true, size_bytes: 1, modified: ts(0, 0) },
    ];
    let listed = manager().list_backups(&entries);
    assert_eq!(
        ids(&listed),
        vec![
            "backup_2024-01-03_00-00-00_5.db",
            "backup_2024-01-02_00-00-00.db",
            "backup_2024-01-01_00-00-00.db"
        ]
    );
    assert_eq!(listed[0].timestamp.nanos, 5);
    assert_eq!(listed[1].timestamp.secs - listed[2].timestamp.secs, 86_400);
}

#[test]
fn sort_is_newest_first_and_stable() {
    let sorted = sort_newest_first(vec![
        info("a", 5, 0),
        info("b", 9, 1),
        info("c", 5, 0),
        info("d", 9, 2),
        info("e", -3, 0),
    ]);
    assert_eq!(ids(&sorted), vec!["d", "b", "a", "c", "e"]);
    assert!(sort_newest_first(vec![]).is_empty());
    assert!(ts(1, 5).is_before(ts(1, 6)));
    assert!(ts(-2, 9).is_before(ts(1, 0)));
    assert!(!ts(1, 6).is_before(ts(1, 6)));
}

#[test]
fn test_create_list_prune_backups() {
    let listing = || vec![info("b5", 50, 0), info("b4", 40, 0), info("b3", 30, 0), info("b2", 20, 0), info("b1", 10, 0)];
    let result = manager().prune(listing(), 2);
    assert_eq!(result.kept.len(), 2);
    assert_eq!(result.removed.len(), 3);
    assert_eq!(ids(&result.kept), vec!["b5", "b4"]);
    assert_eq!(ids(&result.removed), vec!["b3", "b2", "b1"]);

    let result = manager().prune(listing(), 0);
    assert_eq!(result.kept.len(), 0);
    assert_eq!(result.removed.len(), 5);

    let result = manager().prune(listing(), 5);
    assert_eq!(result.kept.len(), 5);
    assert!(result.removed.is_empty());
    let result = prune_listing(listing(), 99);
    assert_eq!(ids(&result.kept), vec!["b5", "b4", "b3", "b2", "b1"]);
    assert!(result.removed.is_empty());
    let result = prune_listing(vec![], 0);
    assert!(result.kept.is_empty() && result.removed.is_empty());
}

fn opts(verify: bool, prune: Option<usize>, file: Option<&str>) -> BackupOpts {
    BackupOpts { dir: None, prune, verify, file: file.map(|s| s.to_string()) }
}

#[test]
fn backup_command_plans() {
    assert!(matches!(plan(&opts(false, None, None)), Ok(BackupPlan::Create)));
    assert!(matches!(plan(&opts(false, Some(3), None)), Ok(BackupPlan::Prune(3))));
    assert!(matches!(plan(&opts(false, Some(0), Some("x"))), Ok(BackupPlan::Prune(0))));
    match plan(&opts(true, Some(3), Some("/t/backups/backup_x.db"))) {
        Ok(BackupPlan::Verify(name)) => assert_eq!(name, "backup_x.db"),
        other => panic!("unexpected {:?}", other),
    }
    assert_eq!(
        plan(&opts(true, None, None)).unwrap_err().to_string(),
        "Error: --file required with --verify"
    );
    assert_eq!(
        plan(&opts(true, None, Some("/t/.."))).unwrap_err().to_string(),
        "Error: invalid backup file name"
    );
    assert!(matches!(
        plan_with(&opts(true, None, Some("a")), Some("given".to_string())),
        Ok(BackupPlan::Verify(_))
    ));
}

#[test]
fn test_restore_backup() {
    let (manager, _) = BackupManager::new(
        "/t/live_for_restore_test.db",
        "/t/backups_for_restore_test_dir",
        PathState::Directory,
    )
    .unwrap();
    let id = manager.create_backup(PathState::File).unwrap();
    let (from, to) = manager.restore_from_backup(&id, PathState::File).unwrap();
    assert_eq!(from, format!("/t/backups_for_restore_test_dir/{}", id));
    assert_eq!(to, "/t/live_for_restore_test.db");
}

#[test]
fn stamps_that_read_and_stamps_that_do_not() {
    assert!(stamp_readable("backup_2024-05-06_07-08-09_000000123.db"));
    assert!(stamp_readable("backup_2024-05-06_07-08-09.db"));
    assert!(!stamp_readable("backup_badformat.db"));
    assert!(!stamp_readable("backup_2024-13-40_00-00-00.db"));
    assert!(!stamp_readable("backup_.db"));
    let listed = manager().list_backups(&vec![DirEntry {
        name: "backup_2024-05-06_07-08-09_000000123.db".into(),
        is_file: true,
        size_bytes: 1,
        modified: ts(0, 0),
    }]);
    let civil = 1_714_979_289i64;
    assert!(listed.iter().all(|b| (b.timestamp.secs - civil).abs() < 86_400));
    assert!(listed.iter().all(|b| b.timestamp.nanos == 123));
}
