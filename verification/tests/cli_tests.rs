use libmarlin::cli::coll::{created_line, missing_collection};
use libmarlin::cli::link::{backlink_json, link_json, link_text};
use libmarlin::cli::view::{listed_line, saved_line};
use libmarlin::cli::watch::{
    choose_port, classify_request, control_path, last_watcher_state, port_for_digest,
    start_action, status_to_dto, stop_step, DaemonRecord, Request, StartAction, StopStep,
};
use std::collections::hash_map::DefaultHasher;
use std::hash::{Hash, Hasher};
use std::path::Path;
use libmarlin::watcher::{WatcherState, WatcherStatus};

#[test]
fn control_port_lies_in_its_window() {
    assert_eq!(port_for_digest(0), 31000);
    assert_eq!(port_for_digest(999), 31999);
    assert_eq!(port_for_digest(1000), 31000);
    assert_eq!(port_for_digest(123_456_789), 31789);
    assert_eq!(port_for_digest(u64::MAX), 31000 + (u64::MAX % 1000) as u16);
}

#[test]
fn control_port_is_fixed_by_the_store_path() {
    let mut h = DefaultHasher::new();
    Path::new("/t/index.db").hash(&mut h);
    let expected = 31000 + (h.finish() % 1000) as u16;
    assert_eq!(choose_port("/t/index.db"), expected);
    assert_eq!(choose_port("/t/index.db"), choose_port("/t/index.db"));
    let ports: Vec<u16> = (0..50).map(|i| choose_port(&format!("/t/{}/index.db", i))).collect();
    assert!(ports.iter().all(|p| (31000..32000).contains(p)));
    assert!(ports.iter().any(|p| *p != ports[0]));
}

#[test]
fn control_file_sits_beside_the_store() {
    assert_eq!(control_path("/t/index.db"), "/t/index.watch.json");
    assert_eq!(control_path("/t/index"), "/t/index.watch.json");
    assert_eq!(control_path("index.tar.db"), "index.tar.watch.json");
}

#[test]
fn status_report_for_the_control_socket() {
    let st = WatcherStatus {
        state: WatcherState::Watching,
        events_processed: 12,
        queue_size: 3,
        start_time: Some(1_000),
        watched_paths: vec!["/t".to_string()],
    };
    let dto = status_to_dto(&st, 4_999);
    assert_eq!(dto.state, "Watching");
    assert_eq!(dto.events_processed, 12);
    assert_eq!(dto.queue_size, 3);
    assert_eq!(dto.uptime_secs, 3);
    assert_eq!(status_to_dto(&st, 5_000).uptime_secs, 4);
    assert_eq!(status_to_dto(&st, 10).uptime_secs, 0);
    let none = WatcherStatus { start_time: None, state: WatcherState::ShuttingDown, ..st };
    let dto = status_to_dto(&none, 9_000);
    assert_eq!(dto.uptime_secs, 0);
    assert_eq!(dto.state, "ShuttingDown");
    assert_eq!(WatcherState::Initializing.name(), "Initializing");
    assert_eq!(WatcherState::Paused.name(), "Paused");
    assert_eq!(WatcherState::Stopped.name(), "Stopped");
}

#[test]
fn requests_are_told_apart_by_their_word() {
    assert_eq!(classify_request("status"), Request::Status);
    assert_eq!(classify_request("stop"), Request::Stop);
    assert_eq!(classify_request("please stop now\n"), Request::Stop);
    assert_eq!(classify_request("stop status"), Request::Status);
    assert_eq!(classify_request("STOP"), Request::Unknown);
    assert_eq!(classify_request(""), Request::Unknown);
}

#[test]
fn daemon_start_and_stop_decisions() {
    assert_eq!(start_action(None), StartAction::Spawn);
    assert_eq!(start_action(Some(true)), StartAction::AlreadyRunning);
    assert_eq!(start_action(Some(false)), StartAction::RemoveStaleAndSpawn);
    assert_eq!(stop_step(false, 0), StopStep::Done);
    assert_eq!(stop_step(true, 4_999), StopStep::Wait);
    assert_eq!(stop_step(true, 5_000), StopStep::Terminate);
    assert_eq!(stop_step(false, 9_000), StopStep::Done);
    let mut record = DaemonRecord::new();
    assert_eq!(last_watcher_state(&record), None);
    record.finished(WatcherState::Stopped);
    assert_eq!(last_watcher_state(&record), Some(WatcherState::Stopped));
}

#[test]
fn command_output_lines() {
    assert_eq!(created_line("Set"), "Created collection 'Set'");
    assert_eq!(missing_collection("nope"), "collection not found: nope");
    assert_eq!(saved_line("tasks", "TODO"), "Saved view 'tasks' = TODO");
    assert_eq!(listed_line("tasks", "milk"), "tasks: milk");
    assert_eq!(link_text("foo.txt", "bar.txt", None), "foo.txt \u{2192} bar.txt");
    assert_eq!(
        link_text("foo.txt", "bar.txt", Some("ref")),
        "foo.txt \u{2192} bar.txt [type='ref']"
    );
    assert_eq!(
        link_json("a", "b", Some("ref")),
        "{\"from\":\"a\",\"to\":\"b\",\"type\":\"ref\"}"
    );
    assert_eq!(link_json("a", "b", None), "{\"from\":\"a\",\"to\":\"b\",\"type\":null}");
    assert_eq!(backlink_json("a", None), "{\"from\":\"a\",\"type\":null}");
    assert_eq!(backlink_json("a", Some("t")), "{\"from\":\"a\",\"type\":\"t\"}");
}
