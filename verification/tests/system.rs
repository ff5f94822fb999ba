//! Files, processes and sockets, by the conversations about them.
use std::collections::BTreeMap;

use cxa::app_server::{next_message, response_deadline, stop_server};
use cxa::boost::monitor;
use cxa::config::Config;
use cxa::effects::{FileId, FileKind, Halt, ProbeOutcome, Reply, Request};
use cxa::error::Error;
use cxa::fs::{
    atomic_copy, atomic_copy_if_absent, atomic_write, link_if_absent, private_dir,
    remove_file_if_exists,
};
use cxa::json::Json;
use cxa::process::{
    codex_process_name, codex_writer_status, holds_argument, mark_service_starting,
    pgrep_status, proc_writer_status, regex_escape, start_marker_active, writers_running, System,
    WriterStatus,
};
use cxa::socket_helper::{
    cgroups, listener_belongs_to_service, prepare, publish, recover_owner, require_root,
};

fn drive<T>(
    mut perform: impl FnMut(Request) -> Reply,
    mut step: impl FnMut(&Vec<Reply>, &mut usize) -> Result<T, Halt>,
) -> Result<T, Error> {
    let mut log = Vec::new();
    loop {
        let mut at = 0;
        match step(&log, &mut at) {
            Ok(value) => return Ok(value),
            Err(Halt::Fail(error)) => return Err(error),
            Err(Halt::Ask(request)) => log.push(perform(request)),
        }
    }
}

fn config() -> Config {
    Config {
        codex_home: "/codex".to_owned(),
        codex_binary: None,
        active_auth: "/store/auth.json".to_owned(),
        account_store: "/store".to_owned(),
        active_profile: "/store/active-profile".to_owned(),
        switch_lock: "/store/switch.lock".to_owned(),
        server_start_marker: "/store/starting".to_owned(),
        app_server_socket: "/store/app-server.sock".to_owned(),
        session_auth: "/codex/auth.json".to_owned(),
        usage_ttl_seconds: 120,
        skip_usage_refresh: true,
    }
}

// ---------------------------------------------------------------- files

#[test]
fn private_dir_is_private_when_created() {
    let mut modes = Vec::new();
    let result = drive(
        |request| match request {
            Request::Kind(_) => Reply::Kind(FileKind::Missing),
            Request::SetMode { path, mode } => {
                modes.push((path, mode));
                Reply::Done
            }
            Request::CreateDirs(path) => {
                assert_eq!(path, "/root/store/profile-1");
                Reply::Done
            }
            Request::SyncDir(path) => {
                assert_eq!(path, "/root/store");
                Reply::Done
            }
            _ => panic!("unexpected request"),
        },
        |log, at| private_dir("/root/store/profile-1", log, at),
    );

    assert!(result.is_ok());
    assert_eq!(modes, vec![("/root/store/profile-1".to_owned(), 0o700)]);
    let taken = drive(
        |_| Reply::Kind(FileKind::Other),
        |log, at| private_dir("/root/file", log, at),
    );
    assert!(taken.err().unwrap().text().contains("is not a directory"));
}

#[derive(Default)]
struct Disk {
    entries: BTreeMap<String, Vec<u8>>,
    links: BTreeMap<String, String>,
    temporary: Option<(Vec<u8>, bool)>,
}

impl Disk {
    fn perform(&mut self, request: Request) -> Reply {
        match request {
            Request::Kind(_) => Reply::Kind(FileKind::Directory),
            Request::CreateTemp { directory, prefix, mode } => {
                assert_eq!((directory.as_str(), prefix.as_str()), ("/root", ".cxa-atomic-"));
                assert_eq!(mode, 0o600);
                self.temporary = Some((Vec::new(), false));
                Reply::Done
            }
            Request::WriteTemp(bytes) => {
                self.temporary = Some((bytes, false));
                Reply::Done
            }
            Request::SyncTemp => {
                self.temporary.as_mut().unwrap().1 = true;
                Reply::Done
            }
            Request::PersistTemp(path) => {
                let (bytes, durable) = self.temporary.take().unwrap();
                assert!(durable);
                self.links.remove(&path);
                self.entries.insert(path, bytes);
                Reply::Done
            }
            Request::SyncDir(_) => Reply::Done,
            Request::ReadBytes(path) => Reply::Bytes(self.entries[&path].clone()),
            Request::Unlink(path) => match self.entries.remove(&path) {
                Some(_) => Reply::Done,
                None => Reply::Missing,
            },
            _ => panic!("unexpected request"),
        }
    }
}

#[test]
fn a_missing_source_is_an_error_about_its_path() {
    let missing = |result: Result<(), Error>| {
        matches!(result, Err(Error::Io { path, detail })
            if path == "/root/a" && detail == "No such file or directory (os error 2)")
    };
    assert!(missing(drive(
        |_| Reply::Missing,
        |log, at| atomic_copy("/root/a", "/root/b", 0o600, log, at),
    )));
    assert!(missing(drive(
        |_| Reply::Missing,
        |log, at| atomic_copy_if_absent("/root/a", "/root/b", 0o600, log, at).map(|_| ()),
    )));
}

#[test]
fn a_copy_never_replaces_what_is_there() {
    let copied = |free: bool| {
        let mut steps = Vec::new();
        let result = drive(
            |request| match request {
                Request::ReadBytes(path) if path == "/root/a" => Reply::Bytes(b"new".to_vec()),
                Request::Kind(_) => Reply::Kind(FileKind::Directory),
                Request::CreateTemp { directory, prefix, mode } => {
                    steps.push(format!("create {directory} {prefix} {mode:o}"));
                    Reply::Done
                }
                Request::WriteTemp(bytes) => {
                    assert_eq!(bytes, b"new".to_vec());
                    steps.push("write".to_owned());
                    Reply::Done
                }
                Request::SyncTemp => {
                    steps.push("sync".to_owned());
                    Reply::Done
                }
                Request::PersistTempIfAbsent(path) => {
                    steps.push(format!("move {path}"));
                    Reply::Flag(free)
                }
                Request::SyncDir(path) => {
                    steps.push(format!("sync {path}"));
                    Reply::Done
                }
                _ => panic!("unexpected request"),
            },
            |log, at| atomic_copy_if_absent("/root/a", "/root/b", 0o600, log, at),
        );
        (result.ok(), steps)
    };

    let (put, steps) = copied(true);
    assert_eq!(put, Some(true));
    assert_eq!(
        steps,
        ["create /root .cxa-atomic- 600", "write", "sync", "move /root/b", "sync /root"]
    );
    let (put, steps) = copied(false);
    assert_eq!(put, Some(false));
    assert_eq!(steps.len(), 4);
}

#[test]
fn a_second_name_is_given_only_where_nothing_has_it() {
    let linked = |free: bool| {
        let mut synced = false;
        let result = drive(
            |request| match request {
                Request::HardLink { from, to } if from == "/root/a" && to == "/root/b" => {
                    Reply::Flag(free)
                }
                Request::SyncDir(path) if path == "/root" => {
                    synced = true;
                    Reply::Done
                }
                _ => panic!("unexpected request"),
            },
            |log, at| link_if_absent("/root/a", "/root/b", log, at),
        );
        (result.ok(), synced)
    };
    assert_eq!(linked(true), (Some(true), true));
    assert_eq!(linked(false), (Some(false), false));
}

#[test]
fn atomic_write_replaces_a_symlink_entry() {
    let mut disk = Disk::default();
    disk.entries.insert("/root/target".to_owned(), b"old".to_vec());
    disk.links.insert("/root/auth.json".to_owned(), "/root/target".to_owned());

    let bytes = b"new".to_vec();
    let result = drive(
        |request| disk.perform(request),
        |log, at| atomic_write("/root/auth.json", &bytes, 0o600, log, at),
    );

    assert!(result.is_ok());
    assert_eq!(disk.entries["/root/auth.json"], b"new");
    assert_eq!(disk.entries["/root/target"], b"old");
    assert!(disk.links.is_empty());
}

#[test]
fn copies_and_removals_are_carried_out() {
    let mut disk = Disk::default();
    disk.entries.insert("/root/a".to_owned(), b"a".to_vec());
    assert!(drive(
        |request| disk.perform(request),
        |log, at| atomic_copy("/root/a", "/root/b", 0o600, log, at),
    )
    .is_ok());
    assert_eq!(disk.entries["/root/b"], b"a");
    for _ in 0..2 {
        assert!(drive(
            |request| disk.perform(request),
            |log, at| remove_file_if_exists("/root/a", log, at),
        )
        .is_ok());
    }
    assert!(!disk.entries.contains_key("/root/a"));
    assert!(drive(
        |request| disk.perform(request),
        |log, at| atomic_write("/", &vec![], 0o600, log, at),
    )
    .is_err());
}

// ---------------------------------------------------------------- processes

/// A process table with one process.
struct Table {
    comm: &'static str,
    cmdline: &'static [u8],
    exe: Option<FileId>,
    program: Option<FileId>,
}

impl Table {
    fn perform(&self, request: Request) -> Reply {
        match request {
            Request::Listing(_) => {
                Reply::Listing(vec![Some("self".to_owned()), Some("424241".to_owned())])
            }
            Request::OwnerOf(_) => Reply::Number(1000),
            Request::ReadText(path) => {
                assert_eq!(path, "/proc/424241/comm");
                Reply::Text(self.comm.to_owned())
            }
            Request::ReadBytes(path) => {
                assert_eq!(path, "/proc/424241/cmdline");
                Reply::Bytes(self.cmdline.to_vec())
            }
            Request::FileId(path) => {
                let id = if path == "/proc/424241/exe" { self.exe } else { self.program };
                match id {
                    Some(id) => Reply::Id(id),
                    None => Reply::Missing,
                }
            }
            _ => panic!("unexpected request"),
        }
    }

    fn status(&self, configured: Option<&str>) -> WriterStatus {
        let configured = configured.map(|path| path.to_owned());
        drive(
            |request| self.perform(request),
            |log, at| proc_writer_status("/proc", 1000, 1, configured.as_ref(), log, at),
        )
        .ok()
        .unwrap()
    }
}

#[test]
fn proc_scanner_finds_named_and_configured_codex_processes() {
    let mut table =
        Table { comm: "codex-linux\n", cmdline: b"codex-linux\0", exe: None, program: None };
    assert_eq!(table.status(None), WriterStatus::Running);

    table.comm = "bash\n";
    table.cmdline = b"/usr/bin/bash\0/opt/custom/codex-wrapper\0";
    assert_eq!(table.status(Some("/opt/custom/codex-wrapper")), WriterStatus::Running);
    assert_eq!(table.status(Some("relative-codex")), WriterStatus::Unknown);

    table.comm = "assistant\n";
    table.cmdline = b"assistant\0app-server\0";
    let id = FileId { device: 1, inode: 2 };
    table.exe = Some(id);
    table.program = Some(id);
    assert_eq!(table.status(Some("/root/custom-assistant")), WriterStatus::Running);
    table.exe = Some(FileId { device: 1, inode: 3 });
    assert_eq!(table.status(Some("/root/custom-assistant")), WriterStatus::Stopped);
    assert_eq!(table.status(None), WriterStatus::Stopped);
}

#[test]
fn what_cannot_be_looked_at_is_never_taken_for_stopped() {
    let system = System { user: 1000, own_process: 1, lists_processes: true, macos: false };
    let status = drive(
        |request| match request {
            Request::Listing(_) => Reply::Listing(vec![None]),
            Request::Pgrep(_) => Reply::Program { code: Some(1), output: String::new() },
            _ => panic!("unexpected request"),
        },
        |log, at| codex_writer_status(&config(), system, log, at),
    );
    assert_ne!(status.ok().unwrap(), WriterStatus::Stopped);
}

#[test]
fn doubt_about_a_later_entry_counts_too() {
    let status = |entries: Vec<Option<String>>| {
        drive(
            |request| match request {
                Request::Listing(_) => Reply::Listing(entries.clone()),
                Request::OwnerOf(_) => Reply::Number(1000),
                Request::ReadText(_) => Reply::Text("bash\n".to_owned()),
                Request::ReadBytes(_) => Reply::Bytes(b"/usr/bin/bash\0".to_vec()),
                Request::FileId(_) => Reply::Missing,
                _ => panic!("unexpected request"),
            },
            |log, at| proc_writer_status("/proc", 1000, 1, None, log, at),
        )
        .ok()
        .unwrap()
    };
    let known = |id: &str| Some(id.to_owned());
    assert_eq!(status(vec![known("11"), known("12")]), WriterStatus::Stopped);
    assert_eq!(status(vec![known("11"), None]), WriterStatus::Unknown);
    assert_eq!(status(vec![known("11"), None, known("12")]), WriterStatus::Unknown);
}

#[test]
fn programs_are_looked_for_by_pgrep() {
    let mut asked = Vec::new();
    for (code, expected) in [
        (Some(0), WriterStatus::Running),
        (Some(1), WriterStatus::Stopped),
        (Some(2), WriterStatus::Unknown),
        (None, WriterStatus::Unknown),
    ] {
        let status = drive(
            |request| match request {
                Request::Pgrep(arguments) => {
                    asked = arguments;
                    Reply::Program { code, output: String::new() }
                }
                _ => panic!("unexpected request"),
            },
            |log, at| pgrep_status(1000, "codex", true, log, at),
        );
        assert_eq!(status.ok().unwrap(), expected);
    }
    assert_eq!(asked[..2], ["-u".to_owned(), "1000".to_owned()]);
    assert!(asked.contains(&"codex".to_owned()));
}

#[test]
fn names_and_patterns_are_matched() {
    assert!(codex_process_name("codex"));
    assert!(codex_process_name("codex-linux"));
    assert!(!codex_process_name("bash"));
    assert_eq!(regex_escape("/opt/c++ (x)"), r"/opt/c\+\+ \(x\)");
    assert!(holds_argument(&b"a\0bc\0".to_vec(), &b"bc".to_vec()));
    assert!(!holds_argument(&b"a\0bc\0".to_vec(), &b"b".to_vec()));
}

#[test]
fn a_start_marker_holds_for_its_time() {
    let mut written = None;
    assert!(drive(
        |request| match request {
            Request::Now => Reply::Time(1_000),
            Request::Write { path, bytes } => {
                written = Some((path, bytes));
                Reply::Done
            }
            _ => panic!("unexpected request"),
        },
        |log, at| mark_service_starting(&config(), log, at),
    )
    .is_ok());
    assert_eq!(written, Some(("/store/starting".to_owned(), b"1000\n".to_vec())));

    for (now, expected) in [(1_119, true), (1_120, false), (999, false)] {
        let active = drive(
            |request| match request {
                Request::ReadText(_) => Reply::Text("1000\n".to_owned()),
                Request::Nanos => Reply::Time(now * 1_000_000_000),
                _ => panic!("unexpected request"),
            },
            |log, at| start_marker_active(&config(), log, at),
        );
        assert_eq!(active.ok(), Some(expected));
    }
}

#[test]
fn a_service_that_is_about_to_start_counts_as_a_writer() {
    let system = System { user: 1000, own_process: 1, lists_processes: true, macos: false };
    let running = drive(
        |request| match request {
            Request::Listing(_) => Reply::Listing(vec![]),
            Request::Pgrep(_) => Reply::Program { code: Some(1), output: String::new() },
            Request::ReadText(_) => Reply::Text("7\n".to_owned()),
            Request::Nanos => Reply::Time(8_000_000_000),
            _ => panic!("unexpected request"),
        },
        |log, at| writers_running(&config(), system, log, at),
    );
    assert_eq!(running.ok(), Some(true));
}

// ---------------------------------------------------------------- sockets

#[test]
fn accepts_native_child_in_the_service_cgroup() {
    let belongs = drive(
        |request| match request {
            Request::ReadText(path) => {
                assert!(path == "/root/100/cgroup" || path == "/root/101/cgroup");
                let group = "0::/system.slice/codex-shared-app-server@test.service\n";
                Reply::Text(group.to_owned())
            }
            _ => panic!("unexpected request"),
        },
        |log, at| listener_belongs_to_service("/root", 101, 100, log, at),
    );
    assert_eq!(belongs.ok(), Some(true));
}

#[test]
fn rejects_same_user_listener_outside_the_service_cgroup() {
    let belongs = drive(
        |request| match request {
            Request::ReadText(path) => Reply::Text(
                if path == "/root/100/cgroup" {
                    "0::/user.slice/codex.service\n"
                } else {
                    "0::/user.slice/other.service\n"
                }
                .to_owned(),
            ),
            _ => panic!("unexpected request"),
        },
        |log, at| listener_belongs_to_service("/root", 200, 100, log, at),
    );
    assert_eq!(belongs.ok(), Some(false));
    assert_eq!(cgroups("0::/a\n\n1:x:/b\n").len(), 2);
}

/// The directory of the socket, and whom it belongs to.
struct Directory {
    mode: u32,
    user: u32,
    group: u32,
    socket: Option<FileId>,
    probe: ProbeOutcome,
    removed: bool,
    modes: Vec<(String, u32)>,
}

impl Directory {
    fn perform(&mut self, request: Request) -> Reply {
        match request {
            Request::UserId(_) => Reply::Number(1000),
            Request::GroupId(name) => {
                assert_eq!(name, "openclaw");
                Reply::Number(50)
            }
            Request::OpenDirectory(path) => {
                assert_eq!(path, "/var/lib/codex-auth");
                Reply::Done
            }
            Request::Owners(_) => Reply::Owners { user: self.user, group: self.group },
            Request::DirectoryMode(mode) => {
                self.mode = mode;
                Reply::Done
            }
            Request::DirectoryOwner { user, group } => {
                self.user = user;
                self.group = group;
                Reply::Done
            }
            Request::SocketEntry(_) => match self.socket {
                Some(id) => Reply::Id(id),
                None => Reply::Missing,
            },
            Request::Probe(_) => Reply::Probe(self.probe),
            Request::Unlink(_) => {
                self.removed = true;
                self.socket = None;
                Reply::Done
            }
            Request::Instant => Reply::Number(0),
            Request::PeerCredentials => Reply::Peer { process: 77, user: 1000 },
            Request::VerifyWebSocket | Request::CloseWebSocket => Reply::Done,
            Request::SetMode { path, mode } => {
                self.modes.push((path, mode));
                Reply::Done
            }
            _ => panic!("unexpected request"),
        }
    }
}

fn directory() -> Directory {
    Directory {
        mode: 0o700,
        user: 1000,
        group: 50,
        socket: Some(FileId { device: 1, inode: 9 }),
        probe: ProbeOutcome::Refused,
        removed: false,
        modes: Vec::new(),
    }
}

#[test]
fn a_dead_socket_is_cleared_away_and_the_directory_given_back() {
    let mut place = directory();
    let result = drive(|request| place.perform(request), |log, at| prepare("one", log, at));
    assert!(result.is_ok());
    assert!(place.removed);
    assert_eq!((place.mode, place.user, place.group), (0o700, 1000, 50));
}

#[test]
fn a_live_socket_is_left_alone_and_the_directory_given_back() {
    let mut place = directory();
    place.probe = ProbeOutcome::Connected;
    let result = drive(|request| place.perform(request), |log, at| prepare("one", log, at));
    assert!(result.is_err());
    assert!(!place.removed);
    assert_eq!((place.mode, place.user, place.group), (0o700, 1000, 50));
}

#[test]
fn the_owner_gets_the_directory_back() {
    let mut place = directory();
    place.mode = 0o2500;
    place.user = 0;
    let result = drive(|request| place.perform(request), |log, at| recover_owner("one", log, at));
    assert!(result.is_ok());
    assert_eq!((place.mode, place.user, place.group), (0o700, 1000, 50));
}

#[test]
fn a_directory_that_cannot_be_closed_is_not_given_back() {
    for (probe, stuck) in [(ProbeOutcome::Refused, true), (ProbeOutcome::Connected, false)] {
        let mut place = directory();
        place.probe = probe;
        let result = drive(
            |request| match request {
                Request::DirectoryMode(0o700) => Reply::Failed(Error::message("stuck")),
                request => place.perform(request),
            },
            |log, at| prepare("one", log, at),
        );
        assert_eq!(result.err().unwrap().text() == "stuck", stuck);
        assert_eq!((place.mode, place.user, place.group), (0o2500, 0, 50));
    }
}

#[test]
fn a_directory_is_closed_before_its_owner_gets_it_back() {
    let mut place = directory();
    let mut asked = Vec::new();
    let result = drive(
        |request| {
            match &request {
                Request::DirectoryMode(mode) => asked.push(format!("mode {mode:o}")),
                Request::DirectoryOwner { user, group } => asked.push(format!("{user}:{group}")),
                _ => {}
            }
            place.perform(request)
        },
        |log, at| prepare("one", log, at),
    );
    assert!(result.is_ok());
    assert_eq!(asked, ["mode 2500", "0:50", "mode 700", "1000:50"]);
}

#[test]
fn a_socket_is_published_once_its_listener_is_known() {
    let mut place = directory();
    place.probe = ProbeOutcome::Connected;
    let result = drive(|request| place.perform(request), |log, at| publish("one", 77, log, at));
    assert!(result.is_ok());
    assert!(!place.modes.is_empty());
}

#[test]
fn only_the_superuser_may_do_this() {
    assert!(require_root(0).is_ok());
    assert_eq!(require_root(1000).err().unwrap().text(), "codex-shared-socket must run as root");
}

const MILLISECOND: u64 = 1_000_000;

/// An app server that is waited for, and a clock that only goes on with the waiting.
struct Waiting {
    now: u64,
    cancelled_at: u64,
    /// When the server says or does something, and what.
    due: u64,
    reply: fn() -> Reply,
    waits: Vec<u64>,
    asked: Vec<&'static str>,
}

impl Waiting {
    fn new(due: u64, reply: fn() -> Reply) -> Waiting {
        Waiting {
            now: 5 * MILLISECOND,
            cancelled_at: u64::MAX,
            due,
            reply,
            waits: Vec::new(),
            asked: Vec::new(),
        }
    }

    fn perform(&mut self, request: Request) -> Reply {
        match request {
            Request::Cancelled => Reply::Flag(self.now >= self.cancelled_at),
            Request::Instant => Reply::Number(self.now),
            Request::WaitMessage(time) => {
                self.waits.push(time);
                if self.due <= self.now + time {
                    (self.reply)()
                } else {
                    self.now += time;
                    Reply::Missing
                }
            }
            Request::Sleep(time) => {
                self.waits.push(time);
                self.now += time;
                Reply::Done
            }
            Request::SignalServer { force } => {
                self.asked.push(if force { "kill" } else { "end" });
                Reply::Done
            }
            Request::ServerExited => Reply::Flag(self.due <= self.now),
            Request::AwaitServer => {
                self.asked.push("wait");
                Reply::Done
            }
            Request::OfferQuotas => {
                self.asked.push("offer");
                (self.reply)()
            }
            _ => panic!("unexpected request"),
        }
    }

    fn receive(&mut self, deadline: u64) -> Result<Json, Error> {
        drive(|request| self.perform(request), |log, at| next_message(deadline, log, at))
    }
}

#[test]
fn a_message_is_waited_for_until_its_deadline() {
    let hello = || Reply::Message(Json::Text("hello".to_owned()));
    let mut server = Waiting::new(100 * MILLISECOND, hello);
    let message = server.receive(response_deadline(0)).ok().unwrap();
    assert!(matches!(message, Json::Text(text) if text == "hello"));
    assert_eq!(server.waits, [80 * MILLISECOND, 80 * MILLISECOND]);

    let mut silent = Waiting::new(u64::MAX, hello);
    let result = silent.receive(100 * MILLISECOND);
    assert!(matches!(result, Err(Error::Timeout)));
    assert_eq!(silent.waits, [80 * MILLISECOND, 15 * MILLISECOND]);
    assert_eq!(silent.now, 100 * MILLISECOND);
}

#[test]
fn waiting_for_a_message_can_be_called_off_or_fail() {
    let mut server = Waiting::new(u64::MAX, || Reply::Missing);
    server.cancelled_at = 90 * MILLISECOND;
    assert!(matches!(server.receive(response_deadline(0)), Err(Error::Cancelled)));
    assert_eq!(server.now, 165 * MILLISECOND);

    let mut server = Waiting::new(0, || Reply::Closed);
    let error = server.receive(response_deadline(0)).err().unwrap();
    assert!(matches!(error, Error::Protocol(text) if text == "app server closed its output"));

    let mut server = Waiting::new(0, || Reply::Failed(Error::protocol("no JSON")));
    let error = server.receive(response_deadline(0)).err().unwrap();
    assert!(matches!(error, Error::Protocol(text) if text == "no JSON"));
}

#[test]
fn a_response_has_twenty_seconds() {
    assert_eq!(response_deadline(7), 20_000_000_007);
    assert_eq!(response_deadline(u64::MAX - 1), u64::MAX);
}

#[test]
fn an_app_server_that_does_not_end_in_time_is_made_to() {
    let mut server = Waiting::new(24 * MILLISECOND, || Reply::Done);
    assert!(drive(|request| server.perform(request), stop_server).is_ok());
    assert_eq!(server.asked, ["end"]);
    assert_eq!(server.waits, [10 * MILLISECOND, 10 * MILLISECOND]);

    let mut server = Waiting::new(u64::MAX, || Reply::Done);
    assert!(drive(|request| server.perform(request), stop_server).is_ok());
    assert_eq!(server.asked, ["end", "kill", "wait"]);
    assert_eq!(server.waits.len(), 100);
    assert_eq!(server.now, 1_005 * MILLISECOND);
}

#[test]
fn quotas_are_read_again_after_a_pause() {
    let mut worker = Waiting::new(0, || Reply::Flag(true));
    assert_eq!(drive(|request| worker.perform(request), monitor).ok(), Some(true));
    assert_eq!(worker.asked, ["offer"]);
    assert_eq!(worker.now, 15_005 * MILLISECOND);
    assert!(worker.waits.iter().all(|time| *time == 100 * MILLISECOND));

    let mut worker = Waiting::new(0, || Reply::Flag(true));
    worker.cancelled_at = 250 * MILLISECOND;
    assert_eq!(drive(|request| worker.perform(request), monitor).ok(), Some(true));
    assert_eq!(worker.now, 305 * MILLISECOND);
    assert_eq!(drive(|request| worker.perform(request), monitor).ok(), Some(false));
    assert_eq!(worker.asked, ["offer"]);
}

#[test]
fn quotas_that_nobody_takes_any_more_are_not_read_again() {
    let mut worker = Waiting::new(0, || Reply::Flag(false));
    assert_eq!(drive(|request| worker.perform(request), monitor).ok(), Some(false));
    assert!(worker.waits.is_empty());
}
