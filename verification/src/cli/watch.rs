use vstd::prelude::*;
use crate::text::{chars_of, contains_text, has_infix};
use crate::utils::{
    digest_of, path_digest, path_with_extension, plain_extension, with_extension_of,
};
use crate::watcher::{WatcherState, WatcherStatus};

verus! {

/// Watcher subcommands.
#[derive(Debug)]
pub enum WatchCmd {
    Start { path: String, debounce_ms: u64 },
    Status,
    Stop,
    /// The long-running process behind `Start`; not for users.
    Daemon { path: String, debounce_ms: u64, port: u16, control: String },
}

/// Contents of the control file of a running daemon.
#[derive(Debug, Clone, Copy, PartialEq, Eq, Structural)]
pub struct ControlInfo {
    pub pid: u32,
    pub port: u16,
}

/// The status of a watcher as it goes over the control socket.
#[derive(Debug)]
pub struct StatusDto {
    pub state: String,
    pub events_processed: usize,
    pub queue_size: usize,
    pub uptime_secs: u64,
}

/// Remembers the state in which the last daemon of this process ended.
#[derive(Debug, Clone, Copy)]
pub struct DaemonRecord {
    pub last: Option<WatcherState>,
}

impl DaemonRecord {
    /// A record in which no daemon has ended yet.
    pub fn new() -> (r: DaemonRecord)
        ensures
            r.last is None,
    {
        DaemonRecord { last: None }
    }

    /// Records that a daemon has ended in `state`.
    pub fn finished(&mut self, state: WatcherState)
        ensures
            final(self).last == Some(state),
    {
        self.last = Some(state);
    }
}

/// The state in which the last daemon ended, if one has run.
pub fn last_watcher_state(record: &DaemonRecord) -> (s: Option<WatcherState>)
    ensures
        s == record.last,
{
    record.last
}

/// Lowest port of the window from which a store's control port is drawn.
pub const PORT_BASE: u16 = 31000;

/// Number of ports in that window.
pub const PORT_WINDOW: u64 = 1000;

/// The port for a store whose path has the 64-bit digest `digest`: the digest
/// mapped into the window.
pub fn port_for_digest(digest: u64) -> (port: u16)
    ensures
        port == PORT_BASE + digest % PORT_WINDOW,
        PORT_BASE <= port < PORT_BASE + PORT_WINDOW,
{
    let offset: u64 = digest % PORT_WINDOW;
    PORT_BASE + (offset as u16)
}

/// The control port of the store at `db_path`: the same port for the same path.
pub fn choose_port(db_path: &str) -> (port: u16)
    ensures
        port == PORT_BASE + path_digest(db_path@) % PORT_WINDOW,
        PORT_BASE <= port < PORT_BASE + PORT_WINDOW,
{
    port_for_digest(digest_of(db_path))
}

/// The control file of a store: the store's path with the extension `watch.json`.
pub fn control_path(db_path: &str) -> (path: String)
    ensures
        path@ == path_with_extension(db_path@, "watch.json"@),
{
    proof {
        reveal_strlit("watch.json");
        assert(plain_extension("watch.json"@)) by {
            let ext = "watch.json"@;
            assert(ext.len() == 10);
            assert(ext[0] == 'w' && ext[1] == 'a' && ext[2] == 't' && ext[3] == 'c' && ext[4]
                == 'h');
            assert(ext[5] == '.' && ext[6] == 'j' && ext[7] == 's' && ext[8] == 'o' && ext[9]
                == 'n');
        }
    }
    with_extension_of(db_path, "watch.json")
}

/// Whole seconds from `start` to `now`, both in milliseconds on one clock.
pub open spec fn uptime_secs(start: Option<u64>, now: u64) -> u64 {
    match start {
        Some(t) => if now >= t {
            ((now - t) / 1000) as u64
        } else {
            0
        },
        None => 0,
    }
}

/// The status report for the control socket.
pub fn status_to_dto(st: &WatcherStatus, now: u64) -> (dto: StatusDto)
    ensures
        dto.state@ == st.state.name_spec(),
        dto.events_processed == st.events_processed,
        dto.queue_size == st.queue_size,
        dto.uptime_secs == uptime_secs(st.start_time, now),
{
    let up: u64 = match st.start_time {
        Some(t) => if now >= t {
            (now - t) / 1000
        } else {
            0
        },
        None => 0,
    };
    StatusDto {
        state: st.state.name().to_owned(),
        events_processed: st.events_processed,
        queue_size: st.queue_size,
        uptime_secs: up,
    }
}

/// What a request on the control socket asks for.
#[derive(Debug, Clone, Copy, PartialEq, Eq, Structural)]
pub enum Request {
    Status,
    Stop,
    Unknown,
}

/// A request asks for the status if it holds the word `status`; else to stop if it
/// holds `stop`; else for nothing.
pub open spec fn request_spec(text: Seq<char>) -> Request {
    if has_infix(text, "status"@) {
        Request::Status
    } else if has_infix(text, "stop"@) {
        Request::Stop
    } else {
        Request::Unknown
    }
}

/// What the request `text` asks for.
pub fn classify_request(text: &str) -> (r: Request)
    ensures
        r == request_spec(text@),
{
    let t = chars_of(text);
    if contains_text(&t, &chars_of("status")) {
        Request::Status
    } else if contains_text(&t, &chars_of("stop")) {
        Request::Stop
    } else {
        Request::Unknown
    }
}

/// What `start` does about a control file that may be there.
#[derive(Debug, Clone, Copy, PartialEq, Eq, Structural)]
pub enum StartAction {
    /// A live daemon owns the store: nothing to do.
    AlreadyRunning,
    /// The control file is stale: remove it, then spawn.
    RemoveStaleAndSpawn,
    /// No control file: spawn.
    Spawn,
}

/// `control_alive` is `None` where there is no control file, and otherwise says
/// whether the process it names is alive.
pub fn start_action(control_alive: Option<bool>) -> (a: StartAction)
    ensures
        a == match control_alive {
            Some(true) => StartAction::AlreadyRunning,
            Some(false) => StartAction::RemoveStaleAndSpawn,
            None => StartAction::Spawn,
        },
{
    match control_alive {
        Some(true) => StartAction::AlreadyRunning,
        Some(false) => StartAction::RemoveStaleAndSpawn,
        None => StartAction::Spawn,
    }
}

/// Longest wait, in milliseconds, for a daemon to exit after a stop request.
pub const STOP_WAIT_MS: u64 = 5000;

/// What `stop` does next while it waits for the daemon to exit.
#[derive(Debug, Clone, Copy, PartialEq, Eq, Structural)]
pub enum StopStep {
    /// The process is gone: remove the control file.
    Done,
    /// Still alive within the wait: look again shortly.
    Wait,
    /// Still alive after the wait: terminate it, then remove the control file.
    Terminate,
}

/// The next step of a stop, given whether the daemon is alive and how long the
/// stop has waited.
pub fn stop_step(alive: bool, waited_ms: u64) -> (s: StopStep)
    ensures
        s == if !alive {
            StopStep::Done
        } else if waited_ms < STOP_WAIT_MS {
            StopStep::Wait
        } else {
            StopStep::Terminate
        },
{
    if !alive {
        StopStep::Done
    } else if waited_ms < STOP_WAIT_MS {
        StopStep::Wait
    } else {
        StopStep::Terminate
    }
}

} // verus!
