use libmarlin::watcher::debouncer::EventDebouncer;
use libmarlin::watcher::event::{EventPriority, FsEvent, FsEventKind, ProcessedEvent, RenameMode};
use libmarlin::watcher::pipeline::{InodeProbe, RenameReconstructor};
use libmarlin::watcher::tracker::{RemoveTracker, RenameCache};
use libmarlin::watcher::{
    store_action, DrainStep, FileWatcher, StoreAction, WatcherConfig, WatcherState, WorkerAction,
};

fn plain(path: &str, kind: FsEventKind, priority: EventPriority, at: u64) -> ProcessedEvent {
    ProcessedEvent {
        path: path.to_string(),
        old_path: None,
        new_path: None,
        kind,
        priority,
        timestamp: at,
    }
}

#[test]
fn test_watcher_default_config() {
    let cfg = WatcherConfig::default();
    assert_eq!(cfg.debounce_ms, 100);
    assert_eq!(cfg.batch_size, 1_000);
    assert_eq!(cfg.max_queue_size, 100_000);
    assert_eq!(cfg.drain_timeout_ms, 5_000);
}

#[test]
fn debouncer_add_and_flush() {
    let mut debouncer = EventDebouncer::new(100, 0);
    assert!(debouncer.is_ready_to_flush(110));
    assert_eq!(debouncer.len(), 0);

    debouncer.add_event(
        plain("file1.txt", FsEventKind::Create, EventPriority::Create, 110),
        false,
    );
    assert_eq!(debouncer.len(), 1);

    debouncer.set_last_flush(110);
    assert!(!debouncer.is_ready_to_flush(110));
    assert!(debouncer.is_ready_to_flush(220));

    let flushed = debouncer.flush(220);
    assert_eq!(flushed.len(), 1);
    assert_eq!(flushed[0].path, "file1.txt");
    assert_eq!(debouncer.len(), 0);
    assert!(!debouncer.is_ready_to_flush(220));
}

#[test]
fn debouncer_window_is_inclusive() {
    let debouncer = EventDebouncer::new(100, 1_000);
    assert!(!debouncer.is_ready_to_flush(1_099));
    assert!(debouncer.is_ready_to_flush(1_100));
    assert!(!debouncer.is_ready_to_flush(5));
}

#[test]
fn debouncer_coalesce_events() {
    let mut debouncer = EventDebouncer::new(100, 0);
    debouncer.add_event(
        plain("file1.txt", FsEventKind::Create, EventPriority::Create, 1),
        false,
    );
    debouncer.add_event(
        plain("file1.txt", FsEventKind::Modify, EventPriority::Modify, 11),
        false,
    );
    assert_eq!(debouncer.len(), 1);

    let flushed = debouncer.flush(121);
    assert_eq!(flushed.len(), 1);
    assert_eq!(flushed[0].path, "file1.txt");
    assert_eq!(flushed[0].priority, EventPriority::Create);
    assert_eq!(flushed[0].kind, FsEventKind::Modify);
    assert_eq!(flushed[0].timestamp, 11);
}

#[test]
fn debouncer_merge_keeps_rename_bookkeeping() {
    let mut debouncer = EventDebouncer::new(100, 0);
    debouncer.add_event(
        ProcessedEvent {
            path: "a".to_string(),
            old_path: Some("a".to_string()),
            new_path: Some("b".to_string()),
            kind: FsEventKind::Rename(RenameMode::Both),
            priority: EventPriority::Modify,
            timestamp: 1,
        },
        false,
    );
    debouncer.add_event(plain("a", FsEventKind::Access, EventPriority::Access, 2), false);
    let got = debouncer.get(0).unwrap();
    assert_eq!(got.old_path, Some("a".to_string()));
    assert_eq!(got.new_path, Some("b".to_string()));
    assert_eq!(got.kind, FsEventKind::Access);
    assert_eq!(got.priority, EventPriority::Modify);
    assert_eq!(got.timestamp, 2);
    assert!(debouncer.get(1).is_none());
}

#[test]
fn debouncer_hierarchical() {
    let mut debouncer = EventDebouncer::new(100, 0);
    debouncer.add_event(
        plain("/tmp/d/file.txt", FsEventKind::Create, EventPriority::Create, 1),
        false,
    );
    assert_eq!(debouncer.len(), 1);
    debouncer.add_event(plain("/tmp/d", FsEventKind::Remove, EventPriority::Delete, 2), true);
    assert_eq!(debouncer.len(), 1);
    let flushed = debouncer.flush(120);
    assert_eq!(flushed.len(), 1);
    assert_eq!(flushed[0].path, "/tmp/d");
}

#[test]
fn debouncer_directory_keeps_itself_and_siblings() {
    let mut debouncer = EventDebouncer::new(100, 0);
    debouncer.add_event(plain("/tmp/d", FsEventKind::Create, EventPriority::Create, 1), false);
    debouncer.add_event(plain("/tmp/dx/f", FsEventKind::Create, EventPriority::Create, 1), false);
    debouncer.add_event(plain("/tmp/d/a/b", FsEventKind::Create, EventPriority::Create, 1), false);
    debouncer.add_event(plain("/tmp/d", FsEventKind::Modify, EventPriority::Modify, 9), true);
    assert_eq!(debouncer.len(), 2);
    assert_eq!(debouncer.get(0).unwrap().path, "/tmp/d");
    assert_eq!(debouncer.get(0).unwrap().priority, EventPriority::Create);
    assert_eq!(debouncer.get(0).unwrap().timestamp, 9);
    assert_eq!(debouncer.get(1).unwrap().path, "/tmp/dx/f");
}

#[test]
fn debouncer_different_files() {
    let mut debouncer = EventDebouncer::new(100, 0);
    debouncer.add_event(plain("file1.txt", FsEventKind::Create, EventPriority::Create, 1), false);
    debouncer.add_event(plain("file2.txt", FsEventKind::Create, EventPriority::Create, 1), false);
    assert_eq!(debouncer.len(), 2);
    let flushed = debouncer.flush(111);
    assert_eq!(flushed.len(), 2);
}

#[test]
fn debouncer_priority_sorting_on_flush() {
    let mut debouncer = EventDebouncer::new(100, 0);
    debouncer.add_event(
        plain("file1.txt", FsEventKind::Rename(RenameMode::To), EventPriority::Modify, 1),
        false,
    );
    debouncer.add_event(plain("file2.txt", FsEventKind::Create, EventPriority::Create, 1), false);
    debouncer.add_event(plain("file3.txt", FsEventKind::Remove, EventPriority::Delete, 1), false);

    let flushed = debouncer.flush(111);
    assert_eq!(flushed.len(), 3);
    assert_eq!(flushed[0].priority, EventPriority::Create);
    assert_eq!(flushed[1].priority, EventPriority::Delete);
    assert_eq!(flushed[2].priority, EventPriority::Modify);
}

#[test]
fn debouncer_flush_is_stable_within_a_priority() {
    let mut debouncer = EventDebouncer::new(100, 0);
    debouncer.add_event(plain("z", FsEventKind::Access, EventPriority::Access, 1), false);
    debouncer.add_event(plain("b", FsEventKind::Create, EventPriority::Create, 1), false);
    debouncer.add_event(plain("a", FsEventKind::Create, EventPriority::Create, 1), false);
    let flushed = debouncer.flush(111);
    let paths: Vec<&str> = flushed.iter().map(|e| e.path.as_str()).collect();
    assert_eq!(paths, vec!["b", "a", "z"]);
}

#[test]
fn debouncer_no_events_flush_empty() {
    let mut debouncer = EventDebouncer::new(100, 0);
    let flushed = debouncer.flush(110);
    assert!(flushed.is_empty());
    assert_eq!(debouncer.len(), 0);
}

#[test]
fn debouncer_dir_then_file_hierarchical() {
    let mut debouncer = EventDebouncer::new(100, 0);
    debouncer.add_event(plain("/tmp/d", FsEventKind::Create, EventPriority::Create, 1), true);
    debouncer.add_event(
        plain("/tmp/d/child.txt", FsEventKind::Create, EventPriority::Create, 1),
        false,
    );
    assert_eq!(debouncer.len(), 2);
    let flushed = debouncer.flush(111);
    assert_eq!(flushed.len(), 2);
    assert!(flushed.iter().any(|e| e.path == "/tmp/d"));
}

#[test]
fn remove_create_same_inode_produces_rename() {
    let mut debouncer = EventDebouncer::new(100, 0);
    let mut tracker = RemoveTracker::new();

    tracker.record(Some(42), 7, "/tmp/old.txt".to_string(), 10);

    if let Some(orig) = tracker.match_create(Some(42), 8, 20, 500) {
        debouncer.add_event(
            ProcessedEvent {
                path: orig.clone(),
                old_path: Some(orig),
                new_path: Some("/tmp/new.txt".to_string()),
                kind: FsEventKind::Rename(RenameMode::Both),
                priority: EventPriority::Modify,
                timestamp: 20,
            },
            false,
        );
    }

    for e in tracker.flush_expired(20, 500) {
        debouncer.add_event(e, false);
    }
    let flushed = debouncer.flush(200);
    assert_eq!(flushed.len(), 1);
    assert_eq!(flushed[0].kind, FsEventKind::Rename(RenameMode::Both));
    assert_eq!(flushed[0].old_path.as_ref().unwrap(), "/tmp/old.txt");
    assert_eq!(flushed[0].new_path.as_ref().unwrap(), "/tmp/new.txt");
}

#[test]
fn tracker_match_outside_window_consumes_without_rename() {
    let mut tracker = RemoveTracker::new();
    tracker.record(Some(1), 0, "a".to_string(), 0);
    assert_eq!(tracker.match_create(Some(1), 0, 501, 500), None);
    assert_eq!(tracker.len(), 0);
    tracker.record(Some(1), 0, "a".to_string(), 0);
    assert_eq!(tracker.match_create(Some(1), 0, 500, 500), Some("a".to_string()));
}

#[test]
fn tracker_falls_back_to_path_key() {
    let mut tracker = RemoveTracker::new();
    tracker.record(None, 99, "gone".to_string(), 5);
    assert_eq!(tracker.match_create(Some(3), 99, 6, 500), Some("gone".to_string()));
    assert_eq!(tracker.match_create(Some(3), 99, 6, 500), None);
    tracker.record(None, 99, "gone".to_string(), 5);
    assert_eq!(tracker.match_create(None, 98, 6, 500), None);
    assert_eq!(tracker.len(), 1);
}

#[test]
fn tracker_record_replaces_same_key() {
    let mut tracker = RemoveTracker::new();
    tracker.record(Some(1), 0, "first".to_string(), 0);
    tracker.record(Some(1), 0, "second".to_string(), 3);
    assert_eq!(tracker.len(), 1);
    assert_eq!(tracker.match_create(Some(1), 0, 4, 500), Some("second".to_string()));
}

#[test]
fn tracker_flush_expired_turns_orphans_into_deletes() {
    let mut tracker = RemoveTracker::new();
    tracker.record(Some(1), 0, "old".to_string(), 0);
    tracker.record(Some(2), 0, "young".to_string(), 400);
    let out = tracker.flush_expired(501, 500);
    assert_eq!(out.len(), 1);
    assert_eq!(out[0].path, "old");
    assert_eq!(out[0].kind, FsEventKind::Remove);
    assert_eq!(out[0].priority, EventPriority::Delete);
    assert_eq!(out[0].timestamp, 0);
    assert_eq!(out[0].old_path, None);
    assert_eq!(tracker.len(), 1);
    assert!(tracker.flush_expired(900, 500).is_empty());
    assert_eq!(tracker.flush_expired(901, 500).len(), 1);
}

#[test]
fn rename_cache_insert_and_remove() {
    let mut cache = RenameCache::new();
    cache.insert(5, "src".to_string());
    cache.insert(5, "src2".to_string());
    assert_eq!(cache.len(), 1);
    assert_eq!(cache.remove(6), None);
    assert_eq!(cache.remove(5), Some("src2".to_string()));
    assert_eq!(cache.remove(5), None);
}

fn probe(handle: Option<u64>) -> InodeProbe {
    InodeProbe { handle_key: handle }
}

fn event(kind: FsEventKind, paths: &[&str], tracker: Option<usize>) -> FsEvent {
    FsEvent { kind, paths: paths.iter().map(|p| p.to_string()).collect(), tracker }
}

#[test]
fn resolve_remove_then_create_is_one_rename() {
    let mut r = RenameReconstructor::new();
    let out = r.resolve(&event(FsEventKind::Remove, &["a"], None), probe(Some(9)), 10, 500);
    assert!(out.is_empty());
    assert_eq!(r.pending_removes(), 1);
    let out = r.resolve(&event(FsEventKind::Create, &["b"], None), probe(Some(9)), 20, 500);
    assert_eq!(out.len(), 1);
    assert_eq!(out[0].path, "a");
    assert_eq!(out[0].old_path, Some("a".to_string()));
    assert_eq!(out[0].new_path, Some("b".to_string()));
    assert_eq!(out[0].kind, FsEventKind::Rename(RenameMode::Both));
    assert_eq!(out[0].priority, EventPriority::Create);
    assert_eq!(out[0].timestamp, 20);
    assert_eq!(r.pending_removes(), 0);
}

#[test]
fn resolve_create_without_remove_is_plain() {
    let mut r = RenameReconstructor::new();
    let out = r.resolve(&event(FsEventKind::Create, &["b"], None), probe(Some(9)), 20, 500);
    assert_eq!(out.len(), 1);
    assert_eq!(out[0].path, "b");
    assert_eq!(out[0].old_path, None);
    assert_eq!(out[0].kind, FsEventKind::Create);
    assert_eq!(out[0].priority, EventPriority::Create);
}

#[test]
fn resolve_native_rename_variants() {
    let mut r = RenameReconstructor::new();
    let both = FsEventKind::Rename(RenameMode::Both);
    let out = r.resolve(&event(both, &["a", "b"], None), probe(None), 1, 500);
    assert_eq!(out.len(), 1);
    assert_eq!(out[0].old_path, Some("a".to_string()));
    assert_eq!(out[0].new_path, Some("b".to_string()));
    assert_eq!(out[0].priority, EventPriority::Modify);
    let any = FsEventKind::Rename(RenameMode::Any);
    assert!(r.resolve(&event(any, &["a"], None), probe(None), 1, 500).is_empty());
    assert_eq!(r.resolve(&event(any, &["a", "b", "c"], None), probe(None), 1, 500).len(), 1);

    let from = FsEventKind::Rename(RenameMode::From);
    let out = r.resolve(&event(from, &["x"], Some(3)), probe(None), 2, 500);
    assert_eq!(out.len(), 1);
    assert_eq!(out[0].kind, from);
    assert_eq!(out[0].old_path, None);

    let to = FsEventKind::Rename(RenameMode::To);
    let out = r.resolve(&event(to, &["y"], Some(4)), probe(None), 3, 500);
    assert_eq!(out.len(), 1);
    assert_eq!(out[0].kind, to);
    assert_eq!(out[0].path, "y");
    let out = r.resolve(&event(to, &["y"], Some(3)), probe(None), 3, 500);
    assert_eq!(out.len(), 1);
    assert_eq!(out[0].kind, both);
    assert_eq!(out[0].path, "x");
    assert_eq!(out[0].new_path, Some("y".to_string()));
    let out = r.resolve(&event(to, &["y"], Some(3)), probe(None), 3, 500);
    assert_eq!(out[0].kind, to);

    let other = FsEventKind::Rename(RenameMode::Other);
    let out = r.resolve(&event(other, &["p", "q"], None), probe(None), 4, 500);
    assert_eq!(out.len(), 2);
    assert_eq!(out[1].path, "q");
    assert_eq!(out[1].priority, EventPriority::Modify);
}

#[test]
fn priorities_by_kind() {
    assert_eq!(FsEventKind::Create.priority(), EventPriority::Create);
    assert_eq!(FsEventKind::Remove.priority(), EventPriority::Delete);
    assert_eq!(FsEventKind::Modify.priority(), EventPriority::Modify);
    assert_eq!(FsEventKind::Access.priority(), EventPriority::Access);
    assert_eq!(FsEventKind::Any.priority(), EventPriority::Modify);
    assert_eq!(FsEventKind::Other.priority(), EventPriority::Modify);
    assert_eq!(FsEventKind::Rename(RenameMode::Both).priority(), EventPriority::Modify);
    assert_eq!(EventPriority::Create.rank(), 0);
    assert_eq!(EventPriority::Delete.rank(), 1);
    assert_eq!(EventPriority::Modify.rank(), 2);
    assert_eq!(EventPriority::Access.rank(), 3);
    assert_eq!(EventPriority::Modify.min(EventPriority::Delete), EventPriority::Delete);
}

fn watcher() -> FileWatcher {
    FileWatcher::new(vec!["/tmp/w".to_string()], WatcherConfig::default(), 1_000)
}

#[test]
fn test_watcher_pause_resume_stop() {
    let mut watcher = watcher();
    assert_eq!(watcher.status().unwrap().state, WatcherState::Initializing);

    watcher.start().expect("Start failed");
    assert_eq!(watcher.status().unwrap().state, WatcherState::Watching);

    watcher.pause().expect("Pause failed");
    assert_eq!(watcher.status().unwrap().state, WatcherState::Paused);

    watcher.pause().expect("Second pause failed");
    assert_eq!(watcher.status().unwrap().state, WatcherState::Paused);

    watcher.resume().expect("Resume failed");
    assert_eq!(watcher.status().unwrap().state, WatcherState::Watching);

    watcher.resume().expect("Second resume failed");
    assert_eq!(watcher.status().unwrap().state, WatcherState::Watching);

    watcher.stop(2_000).expect("Stop failed");
    assert_eq!(watcher.status().unwrap().state, WatcherState::Stopped);

    watcher.stop(3_000).expect("Second stop failed");
    assert_eq!(watcher.status().unwrap().state, WatcherState::Stopped);
}

#[test]
fn test_watcher_start_errors() {
    let mut w = watcher();
    w.start().unwrap();
    assert!(w.start().is_ok());
    assert_eq!(w.status().unwrap().state, WatcherState::Watching);

    assert!(w.begin_stop());
    assert_eq!(w.status().unwrap().state, WatcherState::ShuttingDown);
    let err = w.start().unwrap_err();
    assert_eq!(err.to_string(), "Invalid state: cannot start from ShuttingDown");
    assert!(!w.begin_stop());
}

#[test]
fn watcher_refuses_illegal_transitions() {
    let mut w = watcher();
    assert_eq!(
        w.pause().unwrap_err().to_string(),
        "Invalid state: cannot pause from Initializing"
    );
    assert_eq!(
        w.resume().unwrap_err().to_string(),
        "Invalid state: cannot resume from Initializing"
    );
    w.stop(1).unwrap();
    assert_eq!(w.start().unwrap_err().to_string(), "Invalid state: cannot start from Stopped");
    assert_eq!(w.pause().unwrap_err().to_string(), "Invalid state: cannot pause from Stopped");
    assert_eq!(w.resume().unwrap_err().to_string(), "Invalid state: cannot resume from Stopped");
}

#[test]
fn watcher_worker_actions_follow_state() {
    let mut w = watcher();
    assert_eq!(w.worker_action(), WorkerAction::Idle);
    w.start().unwrap();
    assert_eq!(w.worker_action(), WorkerAction::Run);
    w.pause().unwrap();
    assert_eq!(w.worker_action(), WorkerAction::Idle);
    w.begin_stop();
    assert_eq!(w.worker_action(), WorkerAction::Exit);
    assert!(!w.batch_full(999));
    assert!(w.batch_full(1_000));
}

#[test]
fn watcher_pipeline_counts_and_drains() {
    let mut w = watcher();
    w.start().unwrap();
    let evs = w.ingest(&event(FsEventKind::Create, &["/tmp/w/a"], None), probe(Some(1)), 1_010);
    for e in evs {
        w.queue(e, false);
    }
    let evs = w.ingest(&event(FsEventKind::Modify, &["/tmp/w/a"], None), probe(Some(1)), 1_020);
    for e in evs {
        w.queue(e, false);
    }
    assert_eq!(w.status().unwrap().queue_size, 1);
    assert!(w.flush_if_ready(1_050).is_empty());
    assert_eq!(w.status().unwrap().events_processed, 0);
    let batch = w.flush_if_ready(1_100);
    assert_eq!(batch.len(), 1);
    assert_eq!(batch[0].priority, EventPriority::Create);
    assert_eq!(w.status().unwrap().events_processed, 1);
    assert_eq!(w.status().unwrap().queue_size, 0);
    assert!(w.flush_if_ready(5_000).is_empty());

    w.ingest(&event(FsEventKind::Remove, &["/tmp/w/a"], None), probe(Some(1)), 5_000);
    assert!(w.expire(5_500).is_empty());
    let orphans = w.expire(5_501);
    assert_eq!(orphans.len(), 1);
    for e in orphans {
        w.queue(e, false);
    }
    w.stop(5_502).unwrap();
    let st = w.status().unwrap();
    assert_eq!(st.state, WatcherState::Stopped);
    assert_eq!(st.events_processed, 2);
    assert_eq!(st.queue_size, 0);
    assert_eq!(st.start_time, Some(1_000));
    assert_eq!(st.watched_paths, vec!["/tmp/w".to_string()]);
}

#[test]
fn store_actions_for_flushed_events() {
    let rename = ProcessedEvent {
        path: "a".to_string(),
        old_path: Some("a".to_string()),
        new_path: Some("b".to_string()),
        kind: FsEventKind::Rename(RenameMode::Both),
        priority: EventPriority::Modify,
        timestamp: 0,
    };
    match store_action(&rename, false) {
        Some(StoreAction::UpdateFilePath { old, new }) => {
            assert_eq!(old, "a");
            assert_eq!(new, "b");
        }
        other => panic!("unexpected {:?}", other),
    }
    assert!(matches!(store_action(&rename, true), Some(StoreAction::RenameDirectory { .. })));
    let half = plain("a", FsEventKind::Rename(RenameMode::From), EventPriority::Modify, 0);
    assert!(store_action(&half, false).is_none());
    let create = ProcessedEvent { kind: FsEventKind::Create, ..rename };
    assert!(store_action(&create, false).is_none());
}

#[test]
fn stop_hands_back_what_the_drain_flushed() {
    let mut w = watcher();
    w.start().unwrap();
    let rename = event(FsEventKind::Rename(RenameMode::Both), &["/tmp/w/a", "/tmp/w/b"], None);
    for e in w.ingest(&rename, probe(None), 1_010) {
        w.queue(e, false);
    }
    w.queue(plain("/tmp/w/c", FsEventKind::Create, EventPriority::Create, 1_011), false);
    let drained = w.stop(1_020).unwrap();
    assert_eq!(drained.len(), 2);
    assert_eq!(drained[0].path, "/tmp/w/c");
    assert_eq!(drained[1].old_path, Some("/tmp/w/a".to_string()));
    assert!(matches!(store_action(&drained[1], false), Some(StoreAction::UpdateFilePath { .. })));
    assert_eq!(w.status().unwrap().events_processed, 2);
    assert!(w.stop(1_030).unwrap().is_empty());
    assert_eq!(w.status().unwrap().events_processed, 2);

    let mut shutting = watcher();
    shutting.queue(plain("/tmp/w/x", FsEventKind::Create, EventPriority::Create, 1), false);
    assert!(shutting.begin_stop());
    assert!(shutting.stop(5).unwrap().is_empty());
    assert_eq!(shutting.status().unwrap().state, WatcherState::ShuttingDown);
    assert_eq!(shutting.finish_stop(6).len(), 1);
    assert_eq!(shutting.status().unwrap().state, WatcherState::Stopped);
}

#[test]
fn stop_waits_for_the_drain_up_to_the_timeout() {
    let w = watcher();
    assert_eq!(w.drain_step(true, 0), DrainStep::Done);
    assert_eq!(w.drain_step(true, 9_000), DrainStep::Done);
    assert_eq!(w.drain_step(false, 0), DrainStep::Wait);
    assert_eq!(w.drain_step(false, 4_999), DrainStep::Wait);
    assert_eq!(w.drain_step(false, 5_000), DrainStep::GiveUp);
    let quick = FileWatcher::new(
        vec![],
        WatcherConfig { drain_timeout_ms: 0, ..WatcherConfig::default() },
        0,
    );
    assert_eq!(quick.drain_step(false, 0), DrainStep::GiveUp);
}

#[test]
fn resolve_pairs_by_path_digest_without_a_handle() {
    let mut r = RenameReconstructor::new();
    assert!(r
        .resolve(&event(FsEventKind::Remove, &["/t/same"], None), probe(None), 10, 500)
        .is_empty());
    let out = r.resolve(&event(FsEventKind::Create, &["/t/other"], None), probe(None), 20, 500);
    assert_eq!(out[0].kind, FsEventKind::Create);
    assert_eq!(r.pending_removes(), 1);
    let out = r.resolve(&event(FsEventKind::Create, &["/t/same"], None), probe(None), 30, 500);
    assert_eq!(out[0].kind, FsEventKind::Rename(RenameMode::Both));
    assert_eq!(out[0].old_path, Some("/t/same".to_string()));
    assert_eq!(r.pending_removes(), 0);
}
