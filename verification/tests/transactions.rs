//! Credential transactions, in a world of files that only exist in memory.
use std::collections::BTreeMap;

use base64::engine::general_purpose::URL_SAFE_NO_PAD;
use base64::Engine as _;
use cxa::account_store::{
    now_epoch, profile_slot, restore_copy_if_absent, Credentials, Store, StoreEntry,
    TransactionMode, TransactionState,
};
use cxa::auth::AuthDocument;
use cxa::barrier::AuthBarrier;
use cxa::config::Config;
use cxa::effects::{EntryKind, Halt, Reply, Request};
use cxa::error::Error;
use cxa::usage::UsageRecord;

const STORE: &str = "/store";
const ACTIVE: &str = "/shared/auth.json";
const SESSION: &str = "/codex/auth.json";

fn credentials(token: &str, account: &str, user: &str, second: u32) -> Vec<u8> {
    let claims = format!(r#"{{"https://api.openai.com/auth": {{"chatgpt_user_id": "{user}"}}}}"#);
    let id_token = format!("header.{}.signature", URL_SAFE_NO_PAD.encode(claims));
    format!(
        r#"{{"tokens": {{"id_token": "{id_token}", "access_token": "{token}",
            "refresh_token": "refresh-{token}", "account_id": "{account}"}},
            "last_refresh": "2026-01-01T00:00:{second:02}Z"}}"#
    )
    .into_bytes()
}

fn one(token: &str, second: u32) -> Vec<u8> {
    credentials(token, "account-one", "user-one", second)
}

fn two(token: &str, second: u32) -> Vec<u8> {
    credentials(token, "account-two", "user-two", second)
}

fn config() -> Config {
    Config {
        codex_home: "/codex".to_owned(),
        codex_binary: None,
        active_auth: ACTIVE.to_owned(),
        account_store: STORE.to_owned(),
        active_profile: format!("{STORE}/active-profile"),
        switch_lock: format!("{STORE}/switch.lock"),
        server_start_marker: format!("{STORE}/starting"),
        app_server_socket: format!("{STORE}/app-server.sock"),
        session_auth: SESSION.to_owned(),
        usage_ttl_seconds: 120,
        skip_usage_refresh: true,
    }
}

#[derive(Clone, PartialEq)]
enum Entry {
    File(Vec<u8>),
    Link(String),
}

#[derive(Clone)]
struct World {
    files: BTreeMap<String, Entry>,
    record: Option<TransactionState>,
    writers: bool,
    /// Written to the active credentials as soon as they are claimed.
    late_writer: Option<Vec<u8>>,
    /// After so many requests the program is gone.
    left: usize,
    asked: usize,
}

enum Gone {
    Interrupted,
    Failed(Error),
}

impl World {
    fn new() -> World {
        World {
            files: BTreeMap::new(),
            record: None,
            writers: false,
            late_writer: None,
            left: usize::MAX,
            asked: 0,
        }
    }

    fn with_two_accounts() -> World {
        let mut world = World::new();
        world.put(&format!("{STORE}/profile-1/auth.json"), one("token-one", 1));
        world.put(&format!("{STORE}/profile-2/auth.json"), two("token-two", 1));
        world.put(&format!("{STORE}/active-profile"), b"1\n".to_vec());
        world.put(ACTIVE, one("token-one", 1));
        world
    }

    fn put(&mut self, path: &str, bytes: Vec<u8>) {
        self.files.insert(path.to_owned(), Entry::File(bytes));
    }

    fn bytes(&self, path: &str) -> Option<&Vec<u8>> {
        match self.files.get(path)? {
            Entry::File(bytes) => Some(bytes),
            Entry::Link(target) => self.bytes(target),
        }
    }

    fn read(&self, path: &str) -> Result<AuthDocument, Error> {
        match self.bytes(path) {
            Some(bytes) => AuthDocument::read(path, bytes.clone()),
            None => Err(Error::Io { path: path.to_owned(), detail: "not found".to_owned() }),
        }
    }

    fn token(&self, path: &str) -> String {
        let document = self.read(path).ok().unwrap();
        document.raw.get("tokens").unwrap().text_at("access_token").unwrap().clone()
    }

    fn names(&self, path: &str) -> Vec<String> {
        let inside = format!("{path}/");
        let mut names: Vec<String> = self
            .files
            .keys()
            .filter_map(|name| name.strip_prefix(&inside))
            .map(|rest| rest.split('/').next().unwrap().to_owned())
            .collect();
        names.dedup();
        names
    }

    fn profiles(&self) -> Reply {
        let entries = self
            .names(STORE)
            .into_iter()
            .map(|name| {
                let path = format!("{STORE}/{name}/auth.json");
                let auth = match self.bytes(&path) {
                    None => Credentials::Missing,
                    Some(_) => match self.read(&path) {
                        Ok(document) => Credentials::Valid(document),
                        Err(error) => Credentials::Broken(error),
                    },
                };
                StoreEntry { name, auth }
            })
            .collect();
        match Store::profiles(entries) {
            Ok(profiles) => Reply::Profiles(profiles),
            Err(error) => Reply::Failed(error),
        }
    }

    fn perform(&mut self, request: Request) -> Reply {
        let transaction = format!("{STORE}/transaction.json");
        match request {
            Request::Exists(path) if path == transaction => Reply::Flag(self.record.is_some()),
            Request::Exists(path) | Request::IsFile(path) => {
                Reply::Flag(self.bytes(&path).is_some())
            }
            Request::IsDir(path) => Reply::Flag(!self.names(&path).is_empty()),
            Request::Entry(path) => Reply::Entry(match self.files.get(&path) {
                None => EntryKind::Missing,
                Some(Entry::Link(_)) => EntryKind::Link,
                Some(Entry::File(_)) => EntryKind::Other,
            }),
            Request::ReadText(path) => match self.bytes(&path) {
                Some(bytes) => Reply::Text(String::from_utf8(bytes.clone()).unwrap()),
                None => Reply::Missing,
            },
            Request::ReadAuth(path) => match self.read(&path) {
                Ok(document) => Reply::Auth(document),
                Err(error) => Reply::Failed(error),
            },
            Request::ReadState(_) => Reply::State(self.record.clone().unwrap()),
            Request::WriteState { state, .. } => {
                self.record = Some(state);
                Reply::Done
            }
            Request::Write { path, bytes } => {
                self.put(&path, bytes);
                Reply::Done
            }
            Request::Copy { from, to } => {
                let bytes = self.bytes(&from).unwrap().clone();
                self.put(&to, bytes);
                Reply::Done
            }
            Request::CopyIfAbsent { from, to } => {
                let absent = !self.files.contains_key(&to);
                if absent {
                    let bytes = self.bytes(&from).unwrap().clone();
                    self.put(&to, bytes);
                }
                Reply::Flag(absent)
            }
            Request::LinkIfAbsent { from, to } => {
                let absent = !self.files.contains_key(&to);
                if absent {
                    let entry = self.files[&from].clone();
                    self.files.insert(to, entry);
                }
                Reply::Flag(absent)
            }
            Request::Rename { from, to } => {
                let entry = self.files.remove(&from).unwrap();
                self.files.insert(to, entry);
                Reply::Done
            }
            Request::Claim { from, to } => match self.files.remove(&from) {
                Some(entry) => {
                    self.files.insert(to, entry);
                    if let Some(bytes) = self.late_writer.take() {
                        self.put(&from, bytes);
                    }
                    Reply::Flag(true)
                }
                None => Reply::Flag(false),
            },
            Request::Symlink { target, link } => {
                self.files.insert(link, Entry::Link(target));
                Reply::Done
            }
            Request::Remove(path) if path == transaction => {
                self.record = None;
                Reply::Done
            }
            Request::Remove(path) => {
                self.files.remove(&path);
                Reply::Done
            }
            Request::RemoveTree(path) => {
                let inside = format!("{path}/");
                self.files.retain(|name, _| !name.starts_with(&inside));
                Reply::Done
            }
            Request::SyncParent(_) | Request::PrivateDir(_) => Reply::Done,
            Request::Names(path) => Reply::Names(self.names(&path)),
            Request::Profiles => self.profiles(),
            Request::WritersRunning => Reply::Flag(self.writers),
            Request::LockHeld(_) => Reply::Flag(false),
            Request::Usage(1) => Reply::Usage(UsageRecord {
                observed_at: 1_000,
                plan_type: Some("plus".to_owned()),
                ..UsageRecord::default()
            }),
            Request::Usage(_) => Reply::Missing,
            Request::Numbers(usage) => Reply::Numbers(usage.shown(&vec![])),
            Request::Now => Reply::Time(1_010),
            Request::SessionLinked => Reply::Flag(matches!(
                self.files.get(SESSION),
                Some(Entry::Link(target)) if target == ACTIVE
            )),
            Request::SameEntry { a, b } | Request::SameFile { a, b } => Reply::Flag(a == b),
            _ => panic!("unexpected request"),
        }
    }

    fn drive<T>(
        &mut self,
        mut step: impl FnMut(&Vec<Reply>, &mut usize) -> Result<T, Halt>,
    ) -> Result<T, Gone> {
        let mut log = Vec::new();
        loop {
            let mut at = 0;
            match step(&log, &mut at) {
                Ok(value) => return Ok(value),
                Err(Halt::Fail(error)) => return Err(Gone::Failed(error)),
                Err(Halt::Ask(request)) => {
                    if self.left == 0 {
                        return Err(Gone::Interrupted);
                    }
                    self.left -= 1;
                    self.asked += 1;
                    log.push(self.perform(request));
                }
            }
        }
    }

    fn begin(&mut self) -> Result<AuthBarrier, Gone> {
        let store = Store::new(config());
        self.drive(|log, at| store.begin_barrier(log, at))
    }

    fn switch(&mut self, slot: u32, link: bool) -> Result<(), Gone> {
        let mut barrier = self.begin()?;
        self.drive(|log, at| {
            let mut current = copy(&barrier);
            let result = current.commit_switch(slot, link, log, at);
            barrier = current;
            result
        })
    }

    fn recover(&mut self) -> Result<(), Gone> {
        let store = Store::new(config());
        self.drive(|log, at| store.recover(log, at))
    }
}

fn copy(barrier: &AuthBarrier) -> AuthBarrier {
    AuthBarrier {
        config: barrier.config.clone(),
        finished: barrier.finished,
        irreversible: barrier.irreversible,
        hold_active: barrier.hold_active,
    }
}

fn deferred<T>(result: Result<T, Gone>) -> bool {
    matches!(result, Err(Gone::Failed(Error::RecoveryDeferred)))
}

#[test]
fn preserving_a_claimed_credential_never_removes_a_later_writer() {
    let mut world = World::new();
    world.put(&format!("{STORE}/profile-1/auth.json"), one("old", 1));
    world.put(ACTIVE, one("old", 1));
    world.late_writer = Some(one("new", 2));

    let store = Store::new(config());
    let result = world.drive(|log, at| store.preserve_reappeared_active(&None, log, at));

    assert!(deferred(result));
    assert_eq!(world.token(ACTIVE), "new");
}

#[test]
fn rollback_restore_never_replaces_a_late_writer() {
    let mut world = World::new();
    let hold = "/shared/auth.json.cxa-hold";
    world.put(hold, one("held", 1));
    world.put(ACTIVE, one("newer", 2));

    let result = world.drive(|log, at| restore_copy_if_absent(log, at, hold, ACTIVE));

    assert!(deferred(result));
    assert_eq!(world.token(ACTIVE), "newer");
    assert!(world.files.contains_key(hold));
}

#[test]
fn a_switch_makes_another_account_active() {
    let mut world = World::with_two_accounts();
    assert!(world.switch(2, false).is_ok());

    assert_eq!(world.token(ACTIVE), "token-two");
    assert!(world.record.is_none());
    assert!(!world.files.contains_key("/shared/auth.json.cxa-hold"));
    assert_eq!(world.bytes(&format!("{STORE}/active-profile")).unwrap(), b"2\n");
    assert_eq!(world.token(&format!("{STORE}/profile-1/auth.json")), "token-one");
}

#[test]
fn a_switch_links_the_session_where_that_is_asked_for() {
    let mut world = World::with_two_accounts();
    world.put(SESSION, one("token-one", 1));
    assert!(world.switch(2, true).is_ok());

    assert!(matches!(world.files.get(SESSION), Some(Entry::Link(target)) if target == ACTIVE));
    assert_eq!(world.token(SESSION), "token-two");
}

#[test]
fn a_switch_saves_what_a_session_refreshed() {
    let mut world = World::with_two_accounts();
    world.put(ACTIVE, one("refreshed", 9));
    assert!(world.switch(2, false).is_ok());

    assert_eq!(world.token(&format!("{STORE}/profile-1/auth.json")), "refreshed");
    assert_eq!(world.token(ACTIVE), "token-two");
}

#[test]
fn a_running_writer_is_left_alone() {
    let mut world = World::with_two_accounts();
    world.writers = true;

    assert!(matches!(world.begin(), Err(Gone::Failed(Error::WriterRunning))));
    assert_eq!(world.asked, 2);
    assert_eq!(world.token(ACTIVE), "token-one");
    assert!(world.record.is_none());
}

#[test]
fn a_rollback_puts_the_credentials_back() {
    let mut world = World::with_two_accounts();
    let mut barrier = world.begin().ok().unwrap();
    assert!(!world.files.contains_key(ACTIVE));
    let result = world.drive(|log, at| {
        let mut current = copy(&barrier);
        let result = current.rollback(log, at);
        barrier = current;
        result
    });

    assert!(result.is_ok());
    assert!(barrier.finished);
    assert_eq!(world.token(ACTIVE), "token-one");
    assert!(world.record.is_none());
}

#[test]
fn an_abandoned_barrier_puts_the_credentials_back() {
    let mut world = World::with_two_accounts();
    let barrier = world.begin().ok().unwrap();
    assert!(world.drive(|log, at| barrier.abandon(log, at)).is_ok());

    assert_eq!(world.token(ACTIVE), "token-one");
    assert!(world.record.is_none());
}

#[test]
fn an_interrupted_switch_is_recovered_at_every_point() {
    let mut complete = World::with_two_accounts();
    complete.put(SESSION, one("token-one", 1));
    assert!(complete.clone().switch(2, true).is_ok());
    let mut reached = false;
    let mut step = 0;
    while !reached {
        let mut world = complete.clone();
        world.left = step;
        reached = !matches!(world.switch(2, true), Err(Gone::Interrupted));
        world.left = usize::MAX;
        assert!(world.recover().is_ok(), "recovery failed after {step} requests");

        assert!(world.record.is_none());
        let token = world.token(ACTIVE);
        assert!(token == "token-one" || token == "token-two", "{token} after {step} requests");
        assert_eq!(world.token(&format!("{STORE}/profile-1/auth.json")), "token-one");
        assert_eq!(world.token(&format!("{STORE}/profile-2/auth.json")), "token-two");
        assert!(world.read(SESSION).is_ok());
        if token == "token-two" {
            let link = world.files.get(SESSION);
            assert!(matches!(link, Some(Entry::Link(target)) if target == ACTIVE));
            assert!(!world.files.contains_key("/codex/auth.json.cxa-hold"));
        }
        step += 1;
    }
    assert!(step > 20);
}

#[test]
fn an_interrupted_hold_is_undone_at_every_point() {
    let start = World::with_two_accounts();
    let mut reached = false;
    let mut step = 0;
    while !reached {
        let mut world = start.clone();
        world.left = step;
        reached = !matches!(world.begin(), Err(Gone::Interrupted));

        let mut stopped = true;
        let mut again = 0;
        while stopped {
            let mut later = world.clone();
            later.left = again;
            stopped = matches!(later.recover(), Err(Gone::Interrupted));
            later.left = usize::MAX;
            assert!(later.recover().is_ok(), "recovery failed after {step} and {again} requests");

            assert!(later.record.is_none());
            assert_eq!(later.token(ACTIVE), "token-one");
            assert_eq!(later.files.len(), start.files.len());
            assert_eq!(later.token(&format!("{STORE}/profile-1/auth.json")), "token-one");
            assert_eq!(later.token(&format!("{STORE}/profile-2/auth.json")), "token-two");
            again += 1;
        }
        step += 1;
    }
    assert!(step > 7);
}

#[test]
fn recovery_waits_for_writers() {
    let mut world = World::with_two_accounts();
    assert!(world.begin().is_ok());
    world.writers = true;

    assert!(deferred(world.recover()));
    assert!(world.record.is_some());
    assert!(world.files.contains_key("/shared/auth.json.cxa-hold"));

    world.writers = false;
    assert!(world.recover().is_ok());
    assert_eq!(world.token(ACTIVE), "token-one");
}

/// A record of each kind, in a world where it was left behind.
fn left_behind() -> Vec<World> {
    let mut held = World::with_two_accounts();
    assert!(held.begin().is_ok());

    let mut steps = 0;
    let mut switching = World::with_two_accounts();
    while !matches!(&switching.record, Some(state) if state.mode == TransactionMode::Commit) {
        steps += 1;
        switching = World::with_two_accounts();
        switching.left = steps;
        let _ = switching.switch(2, false);
        switching.left = usize::MAX;
    }

    let mut refreshing = World::with_two_accounts();
    let source = format!("{STORE}/.quota-x/auth.json");
    refreshing.put(&format!("{STORE}/.quota-x/.cxa-temporary"), vec![]);
    refreshing.put(&source, one("rotated", 7));
    refreshing.record = Some(TransactionState {
        mode: TransactionMode::Refreshing,
        slot: Some(1),
        activate: false,
        select: false,
        link_session: false,
        hold_active: false,
        profile_pending: None,
        recovery_source: Some(source),
    });
    vec![held, switching, refreshing]
}

#[test]
fn recovery_leaves_no_record_and_a_second_one_changes_nothing() {
    for mut world in left_behind() {
        assert!(world.record.is_some());
        assert!(world.recover().is_ok());
        assert!(world.record.is_none());

        let files = world.files.clone();
        world.asked = 0;
        assert!(world.recover().is_ok());
        assert_eq!(world.asked, 1);
        assert!(world.record.is_none());
        assert!(world.files == files);
    }
}

#[test]
fn a_recovery_that_waits_changes_nothing() {
    for mut world in left_behind() {
        if world.record.as_ref().unwrap().hold_active {
            world.writers = true;
            let files = world.files.clone();
            assert!(deferred(world.recover()));
            assert!(world.record.is_some());
            assert!(world.files == files);
        }
    }
}

#[test]
fn a_rollback_gives_back_what_was_saved_later() {
    let mut world = World::with_two_accounts();
    let barrier = world.begin().ok().unwrap();
    world.put(&format!("{STORE}/profile-1/auth.json"), one("later", 9));
    assert!(world.drive(|log, at| copy(&barrier).rollback(log, at)).is_ok());

    assert_eq!(world.token(ACTIVE), "later");
    assert!(world.record.is_none());
    assert!(!world.files.contains_key("/shared/auth.json.cxa-hold"));
    assert!(!world.files.contains_key("/shared/auth.json.cxa-pending"));
}

fn roll_back(world: &mut World, barrier: &AuthBarrier) {
    assert!(world.drive(|log, at| copy(barrier).rollback(log, at)).is_ok());
    assert!(world.record.is_none());
    for left in ["hold", "pending", "reappeared"] {
        assert!(!world.files.contains_key(&format!("/shared/auth.json.cxa-{left}")));
    }
}

#[test]
fn a_rollback_takes_up_credentials_that_reappeared() {
    let mut world = World::with_two_accounts();
    let barrier = world.begin().ok().unwrap();
    world.put(ACTIVE, one("reappeared", 9));
    roll_back(&mut world, &barrier);

    assert_eq!(world.token(ACTIVE), "reappeared");
    assert_eq!(world.token(&format!("{STORE}/profile-1/auth.json")), "reappeared");
}

#[test]
fn a_rollback_goes_before_credentials_that_reappeared_and_are_older() {
    let mut world = World::with_two_accounts();
    let barrier = world.begin().ok().unwrap();
    world.put(ACTIVE, one("stale", 0));
    roll_back(&mut world, &barrier);

    assert_eq!(world.token(ACTIVE), "token-one");
    assert_eq!(world.token(&format!("{STORE}/profile-1/auth.json")), "token-one");
}

#[test]
fn a_rollback_takes_up_credentials_that_were_moved_aside() {
    let mut world = World::with_two_accounts();
    let barrier = world.begin().ok().unwrap();
    world.put("/shared/auth.json.cxa-reappeared", two("aside", 9));
    roll_back(&mut world, &barrier);

    assert_eq!(world.token(ACTIVE), "token-one");
    assert_eq!(world.token(&format!("{STORE}/profile-2/auth.json")), "aside");
}

#[test]
fn a_barrier_that_is_not_used_changes_nothing() {
    let mut world = World::with_two_accounts();
    let before = world.bytes(ACTIVE).unwrap().clone();
    let barrier = world.begin().ok().unwrap();
    assert!(!world.files.contains_key(ACTIVE));
    assert_eq!(world.bytes("/shared/auth.json.cxa-hold"), Some(&before));
    roll_back(&mut world, &barrier);

    assert_eq!(world.bytes(ACTIVE), Some(&before));
}

/// Commits new credentials of the second account, and stops after so many requests.
fn save_second(world: &mut World, hold: bool, activate: bool, left: usize) -> bool {
    let source = "/import.json".to_owned();
    world.put(&source, two("fresh", 5));
    let expected = world.read(&source).ok().unwrap();
    let store = Store::new(config());
    world.left = left;
    let begun = if hold {
        world.begin()
    } else {
        world.drive(|log, at| store.begin_profile_commit(log, at))
    };
    let stopped = match begun {
        Ok(barrier) => {
            let result = world.drive(|log, at| {
                copy(&barrier)
                    .commit_profile(2, &source, &expected, activate, activate, false, log, at)
            });
            matches!(result, Err(Gone::Interrupted))
        }
        Err(_) => true,
    };
    world.left = usize::MAX;
    stopped
}

#[test]
fn an_interrupted_change_of_an_account_is_recovered_at_every_point() {
    let saved = format!("{STORE}/profile-2/auth.json");
    for (hold, activate) in [(false, false), (true, false), (true, true)] {
        let mut stopped = true;
        let mut step = 0;
        let mut finished = false;
        while stopped {
            let mut world = World::with_two_accounts();
            stopped = save_second(&mut world, hold, activate, step);
            let recorded =
                matches!(&world.record, Some(state) if state.mode == TransactionMode::Commit);
            let staged = world.bytes(&saved) != Some(&two("token-two", 1));
            finished = finished || recorded || staged;

            let mut cut = true;
            let mut again = 0;
            while cut {
                let mut later = world.clone();
                later.left = again;
                cut = matches!(later.recover(), Err(Gone::Interrupted));
                later.left = usize::MAX;
                assert!(later.recover().is_ok(), "{step} and {again} requests");

                assert!(later.record.is_none());
                let token = if finished { "fresh" } else { "token-two" };
                assert_eq!(later.token(&saved), token, "{step} and {again} requests");
                let active = if finished && activate { "fresh" } else { "token-one" };
                assert_eq!(later.token(ACTIVE), active, "{step} and {again} requests");
                assert!(!later.files.contains_key("/shared/auth.json.cxa-hold"));
                assert_eq!(later.token(&format!("{STORE}/profile-1/auth.json")), "token-one");
                again += 1;
            }
            step += 1;
        }
        assert!(finished);
    }
}

#[test]
fn refreshed_credentials_are_saved_by_recovery() {
    let mut world = World::with_two_accounts();
    let source = format!("{STORE}/.quota-x/auth.json");
    world.put(&format!("{STORE}/.quota-x/.cxa-temporary"), vec![]);
    world.put(&source, one("rotated", 7));
    world.record = Some(TransactionState {
        mode: TransactionMode::Refreshing,
        slot: Some(1),
        activate: false,
        select: false,
        link_session: false,
        hold_active: false,
        profile_pending: None,
        recovery_source: Some(source.clone()),
    });

    assert!(world.recover().is_ok());

    assert_eq!(world.token(&format!("{STORE}/profile-1/auth.json")), "rotated");
    assert!(!world.files.contains_key(&source));
    assert!(world.record.is_none());
}

#[test]
fn refreshed_credentials_are_saved_wherever_recovery_stops() {
    let start = left_behind().pop().unwrap();
    let saved = format!("{STORE}/profile-1/auth.json");
    let mut stopped = true;
    let mut step = 0;
    while stopped {
        let mut world = start.clone();
        world.left = step;
        stopped = matches!(world.recover(), Err(Gone::Interrupted));
        world.left = usize::MAX;
        assert!(world.recover().is_ok(), "recovery failed after {step} requests");

        assert!(world.record.is_none());
        assert_eq!(world.token(&saved), "rotated");
        assert_eq!(world.token(ACTIVE), "token-one");
        assert_eq!(world.token(&format!("{STORE}/profile-2/auth.json")), "token-two");
        step += 1;
    }
    assert!(step > 10);
}

#[test]
fn the_account_that_was_selected_last_is_the_selected_one() {
    let store = Store::new(config());
    for slot in [1, 2, 9, 10, 4_294_967_295] {
        let mut world = World::new();
        world.put(&format!("{STORE}/profile-{slot}/auth.json"), one("token", 1));
        world.put(&format!("{STORE}/active-profile"), format!("{slot}\n").into_bytes());
        assert!(matches!(
            world.drive(|log, at| store.selected(log, at)),
            Ok(Some(found)) if found == slot
        ));
    }
    let mut world = World::with_two_accounts();
    assert!(world.switch(2, false).is_ok());
    assert!(matches!(world.drive(|log, at| store.selected(log, at)), Ok(Some(2))));
}

#[test]
fn a_new_account_is_committed_in_one_transaction() {
    let mut world = World::with_two_accounts();
    let source = "/import.json".to_owned();
    world.put(&source, credentials("three", "account-three", "user-three", 1));
    let store = Store::new(config());
    let expected = world.read(&source).ok().unwrap();
    let mut barrier = world
        .drive(|log, at| store.begin_enrollment(source.clone(), log, at))
        .ok()
        .unwrap();
    let slot = world.drive(|log, at| store.next_slot(log, at)).ok().unwrap();
    assert_eq!(slot, 3);
    let result = world.drive(|log, at| {
        let mut current = copy(&barrier);
        let result =
            current.commit_profile(slot, &source, &expected, false, false, false, log, at);
        barrier = current;
        result
    });

    assert!(result.is_ok());
    assert_eq!(world.token(&format!("{STORE}/profile-3/auth.json")), "three");
    assert_eq!(world.token(ACTIVE), "token-one");
    assert!(world.record.is_none());
}

#[test]
fn credentials_that_change_while_being_staged_are_refused() {
    let mut world = World::with_two_accounts();
    let source = "/import.json".to_owned();
    world.put(&source, one("first", 3));
    let expected = world.read(&source).ok().unwrap();
    world.put(&source, one("second", 4));
    let store = Store::new(config());
    let barrier = world.drive(|log, at| store.begin_profile_commit(log, at)).ok().unwrap();
    let result = world.drive(|log, at| {
        copy(&barrier).commit_profile(1, &source, &expected, false, false, false, log, at)
    });

    assert!(matches!(result, Err(Gone::Failed(Error::Message(text)))
        if text.contains("nothing was committed")));
    assert_eq!(world.token(&format!("{STORE}/profile-1/auth.json")), "token-one");
}

#[test]
fn credentials_may_be_marked_as_refreshing() {
    let mut world = World::with_two_accounts();
    let store = Store::new(config());
    let mut barrier = world.drive(|log, at| store.begin_profile_commit(log, at)).ok().unwrap();
    let result = world.drive(|log, at| {
        let mut current = copy(&barrier);
        let source = "/source".to_owned();
        let result = current.mark_refreshing(Some(1), source, false, false, false, log, at);
        barrier = current;
        result
    });

    assert!(result.is_ok());
    assert!(barrier.irreversible);
    assert!(matches!(world.record, Some(TransactionState { mode: TransactionMode::Refreshing, .. })));
    assert!(world.drive(|log, at| barrier.abandon(log, at)).is_ok());
    assert!(world.record.is_some());
}

#[test]
fn active_and_saved_credentials_are_brought_to_the_same_state() {
    let mut world = World::with_two_accounts();
    world.put(ACTIVE, one("refreshed", 9));
    let store = Store::new(config());
    assert!(world.drive(|log, at| store.reconcile_if_idle(log, at)).is_ok());

    assert_eq!(world.token(&format!("{STORE}/profile-1/auth.json")), "refreshed");
    assert_eq!(world.token(ACTIVE), "refreshed");
}

#[test]
fn the_status_tells_what_is_wrong() {
    let mut world = World::with_two_accounts();
    world.files.insert(SESSION.to_owned(), Entry::Link(ACTIVE.to_owned()));
    let store = Store::new(config());
    assert!(matches!(world.drive(|log, at| store.status_issue(log, at)), Ok(None)));

    world.put(ACTIVE, two("token-two", 1));
    assert!(matches!(world.drive(|log, at| store.status_issue(log, at)), Ok(Some(text))
        if text == "Active credentials do not match the selected account."));
    world.files.remove(SESSION);
    assert!(matches!(world.drive(|log, at| store.status_issue(log, at)), Ok(Some(text))
        if text == "Shared session credentials are not linked; run cxa relink."));
}

#[test]
fn the_status_is_told_in_lines() {
    let mut world = World::with_two_accounts();
    world.files.insert(SESSION.to_owned(), Entry::Link(ACTIVE.to_owned()));
    let store = Store::new(config());
    let label = world.read(ACTIVE).ok().unwrap().identity.label().clone();
    let lines = world.drive(|log, at| store.status_lines(log, at)).ok().unwrap();
    assert_eq!(
        lines,
        [
            format!("Default Codex account: 1  {label}"),
            "Quota: plus, seen just now".to_owned(),
            format!("Shared session home: {}", config().codex_home),
            format!("Session credentials: linked to {ACTIVE}"),
        ]
    );

    world.put(&format!("{STORE}/active-profile"), b"2\n".to_vec());
    world.put(SESSION, one("token-one", 1));
    let lines = world.drive(|log, at| store.status_lines(log, at)).ok().unwrap();
    assert_eq!(lines[1], "Quota: usage unknown");
    assert_eq!(
        lines[2],
        format!("Active credentials: account 1 ({label}; does not match the selected account)")
    );
    assert_eq!(
        lines[4],
        format!("Session credentials: DETACHED ({SESSION} is a real file). Run cxa relink.")
    );

    world.put(SESSION, two("token-two", 1));
    world.writers = true;
    let lines = world.drive(|log, at| store.status_lines(log, at)).ok().unwrap();
    assert!(lines[4].starts_with("Session credentials: live account matches the selection;"));

    world.files.remove(SESSION);
    let lines = world.drive(|log, at| store.status_lines(log, at)).ok().unwrap();
    assert_eq!(
        lines[4],
        format!("Session credentials: MISSING ({SESSION}). Run cxa relink.")
    );
}

#[test]
fn a_session_of_its_own_selects_its_account() {
    let mut world = World::with_two_accounts();
    world.files.remove(&format!("{STORE}/active-profile"));
    world.put(SESSION, two("token-two", 1));
    let store = Store::new(config());
    assert!(world.drive(|log, at| store.adopt_detached_session_selection(log, at)).is_ok());

    assert!(matches!(world.drive(|log, at| store.selected(log, at)), Ok(Some(2))));
}

#[test]
fn quota_is_fresh_for_its_time() {
    let store = Store::new(config());
    let second = 1_000_000_000;
    assert!(store.usage_fresh(Some(0), None, 119 * second));
    assert!(!store.usage_fresh(Some(0), None, 120 * second));
    assert!(store.usage_fresh(Some(0), Some(100 * second), 200 * second));
    assert!(!store.usage_fresh(Some(500 * second), None, 100 * second));
    assert!(!store.usage_fresh(None, None, 0));
    assert!(!store.usage_fresh(Some(i128::MIN), None, i128::MAX));
}

#[test]
fn names_of_accounts_have_a_number() {
    assert_eq!(profile_slot("profile-12"), Some(12));
    assert_eq!(profile_slot("profile-"), None);
    assert_eq!(profile_slot("profile-x"), None);
    assert_eq!(profile_slot(".profile-1.pending"), None);
    assert_eq!(now_epoch(Some(7)), 7);
    assert_eq!(now_epoch(None), 0);
}

// ---------------------------------------------------------------- credential files

#[test]
fn reads_namespaced_profile_email_and_identity() {
    let claims = r#"{
        "https://api.openai.com/profile": {"email": "one@example.com"},
        "https://api.openai.com/auth": {"chatgpt_user_id": "user-one"}
    }"#;
    let token = format!("header.{}.signature", URL_SAFE_NO_PAD.encode(claims));
    let bytes = format!(
        r#"{{"tokens": {{"id_token": "{token}", "access_token": "access",
            "refresh_token": "refresh", "account_id": "account-one"}},
            "last_refresh": "2026-01-01T00:00:00Z"}}"#
    );

    let auth = AuthDocument::read("/auth.json", bytes.into_bytes()).ok().unwrap();
    assert_eq!(auth.identity.email.as_deref(), Some("one@example.com"));
    assert_eq!(auth.identity.account_id.as_deref(), Some("account-one"));
    assert_eq!(auth.identity.user_id, "user-one");
    assert_eq!(auth.refresh_ns, Some(1_767_225_600_000_000_000));
}

#[test]
fn accepts_missing_timestamp_and_uses_claimed_workspace_identity() {
    let claims = r#"{"https://api.openai.com/auth": {
        "chatgpt_user_id": "user-one", "chatgpt_account_id": "account-one"
    }}"#;
    let token = format!("header.{}.signature", URL_SAFE_NO_PAD.encode(claims));
    let bytes = format!(
        r#"{{"tokens": {{"id_token": "{token}", "access_token": "access",
            "refresh_token": "refresh"}}}}"#
    );

    let auth = AuthDocument::read("/auth.json", bytes.into_bytes()).ok().unwrap();
    assert_eq!(auth.identity.email, None);
    assert_eq!(auth.identity.account_id.as_deref(), Some("account-one"));
    assert_eq!(auth.identity.user_id, "user-one");
    assert_eq!(auth.identity.label(), "account-one");
}

#[test]
fn claims_with_padding_are_read_too() {
    let claims = r#"{"https://api.openai.com/auth": {"chatgpt_user_id": "user-x"}}  "#;
    let token = format!(
        "header.{}.signature",
        base64::engine::general_purpose::URL_SAFE.encode(claims)
    );
    assert!(token.contains('='));
    let bytes = format!(
        r#"{{"tokens": {{"id_token": "{token}", "access_token": "a", "refresh_token": "r",
            "account_id": "account-one"}}}}"#
    );
    let auth = AuthDocument::read("/auth.json", bytes.into_bytes()).ok().unwrap();
    assert_eq!(auth.identity.user_id, "user-x");
}

#[test]
fn writes_the_snapshot_that_was_validated() {
    let mut world = World::new();
    world.put("/source.json", one("first", 1));
    let auth = world.read("/source.json").ok().unwrap();
    world.put("/source.json", one("second", 1));

    assert!(world.drive(|log, at| auth.write_to("/destination.json", log, at)).is_ok());

    assert_eq!(world.token("/destination.json"), "first");
}

#[test]
fn files_that_hold_no_credentials_are_refused() {
    assert!(matches!(
        AuthDocument::read("/auth.json", b"not json".to_vec()),
        Err(Error::Json { .. })
    ));
    assert!(matches!(
        AuthDocument::read("/auth.json", b"{}".to_vec()),
        Err(Error::InvalidAuth(_))
    ));
}

#[test]
fn credentials_are_not_copied_to_another_account() {
    let mut world = World::with_two_accounts();
    world.put("/fresh.json", one("fresh", 5));
    let fresh = world.read("/fresh.json").ok().unwrap();
    let own = format!("{STORE}/profile-1/auth.json");
    let other = format!("{STORE}/profile-2/auth.json");

    assert!(matches!(
        world.drive(|log, at| fresh.copy_to_same_account(&own, log, at)),
        Ok(true)
    ));
    assert!(matches!(
        world.drive(|log, at| fresh.copy_to_same_account(&own, log, at)),
        Ok(false)
    ));
    assert!(world.drive(|log, at| fresh.copy_to_same_account(&other, log, at)).is_err());
    assert_eq!(world.token(&other), "token-two");
}

#[test]
fn newer_credentials_are_told_from_older_ones() {
    let read = |bytes: Vec<u8>| AuthDocument::read("/auth.json", bytes).ok().unwrap();
    let old = read(one("old", 1));
    let new = read(one("new", 2));
    assert!(new.newer(&old));
    assert!(!old.newer(&new));
    assert!(old.as_old_as(&read(one("other", 1))));
    assert!(!old.same_credentials(&new));
    assert!(old.identity.same_account(&new.identity));
}
