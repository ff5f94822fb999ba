//! The program as a whole, in a world of files that only exist in memory.
use std::collections::BTreeMap;

use base64::engine::general_purpose::URL_SAFE_NO_PAD;
use base64::Engine as _;
use cxa::account_store::{Credentials, Store, StoreEntry};
use cxa::app_server::{query_profile, query_profile_inner, read_line, usage_of};
use cxa::auth::AuthDocument;
use cxa::cli::{
    await_lock, countdown, mark_ready, plan_list, profile_line_count, profile_list, refresh_usage, run,
    unplanned, watch_round, Cli, CliCommand, ListAction, ListEvent, Listing, ProfileUsage,
};
use cxa::config::Config;
use cxa::effects::{Halt, Key, Reply, Request, TerminalEvent};
use cxa::error::Error;
use cxa::json::Json;
use cxa::terminal::watch_exit_requested;
use cxa::usage::UsageRecord;

const HOME: &str = "/home/one/.codex";
const STORE: &str = "/home/one/.codex-auth";
const NOW: i64 = 1_789_200_000;

fn json(text: &str) -> Json {
    match read_line(&text.as_bytes().to_vec()) {
        Ok(value) => value,
        Err(complaint) => panic!("{complaint}"),
    }
}

fn auth_at(email: &str, user: &str, account: &str, token: &str, refreshed: &str) -> Vec<u8> {
    let claims = format!(
        r#"{{"https://api.openai.com/profile": {{"email": "{email}"}},
            "https://api.openai.com/auth": {{"chatgpt_user_id": "{user}"}}}}"#
    );
    let id_token = format!("header.{}.signature", URL_SAFE_NO_PAD.encode(claims));
    format!(
        r#"{{"tokens": {{"id_token": "{id_token}", "access_token": "{token}",
            "refresh_token": "refresh-{token}", "account_id": "{account}"}},
            "last_refresh": "{refreshed}"}}"#
    )
    .into_bytes()
}

fn auth(email: &str, user: &str, account: &str, token: &str) -> Vec<u8> {
    auth_at(email, user, account, token, "2026-08-28T00:00:00Z")
}

/// Files by their paths, and what else the program finds.
struct World {
    files: BTreeMap<String, Vec<u8>>,
    links: BTreeMap<String, String>,
    queue: Vec<Json>,
    /// The home of the app server that is running.
    home: String,
    /// How the app server answers a request for the limits.
    limits: Option<fn(&mut World) -> String>,
    store: &'static str,
    login: Option<Vec<u8>>,
    arguments: Vec<Option<String>>,
    interactive: bool,
    answer: &'static str,
    usage: BTreeMap<u32, UsageRecord>,
    reading: Option<(UsageRecord, bool)>,
    output: String,
    changes: usize,
}

impl World {
    fn new() -> World {
        World {
            files: BTreeMap::new(),
            links: BTreeMap::new(),
            queue: Vec::new(),
            home: String::new(),
            limits: None,
            store: "file",
            login: None,
            arguments: Vec::new(),
            interactive: false,
            answer: "",
            usage: BTreeMap::new(),
            reading: None,
            output: String::new(),
            changes: 0,
        }
    }

    fn seeded() -> World {
        let mut world = World::new();
        world.put(
            &format!("{HOME}/auth.json"),
            auth("one@example.com", "user-one", "account-one", "token-one"),
        );
        assert!(world.run(command(CliCommand::Init { yes: true })).is_ok());
        world.output.clear();
        world
    }

    fn put(&mut self, path: &str, bytes: Vec<u8>) {
        self.files.insert(path.to_owned(), bytes);
    }

    fn bytes(&self, path: &str) -> Option<&Vec<u8>> {
        match self.links.get(path) {
            Some(target) => self.files.get(target),
            None => self.files.get(path),
        }
    }

    fn token(&self, path: &str) -> String {
        let document = AuthDocument::read(path, self.bytes(path).unwrap().clone()).ok().unwrap();
        document.raw.get("tokens").unwrap().text_at("access_token").unwrap().clone()
    }

    fn import(&mut self, email: &str, user: &str, account: &str, token: &str) -> Result<(), Error> {
        self.put("/home/one/imported.json", auth(email, user, account, token));
        self.run(command(CliCommand::Import { auth_file: "/home/one/imported.json".to_owned() }))
    }

    fn read(&self, path: &str) -> Result<AuthDocument, Error> {
        match self.bytes(path) {
            Some(bytes) => AuthDocument::read(path, bytes.clone()),
            None => Err(Error::Io { path: path.to_owned(), detail: "not found".to_owned() }),
        }
    }

    fn is_dir(&self, path: &str) -> bool {
        let inside = format!("{path}/");
        self.files.keys().any(|name| name.starts_with(&inside))
    }

    fn names(&self, path: &str) -> Vec<String> {
        let inside = format!("{path}/");
        let mut names: Vec<String> = self
            .files
            .keys()
            .filter_map(|name| name.strip_prefix(&inside))
            .map(|rest| rest.split('/').next().unwrap().to_owned())
            .collect();
        names.dedup();
        names
    }

    fn profiles(&self) -> Reply {
        let entries = self
            .names(STORE)
            .into_iter()
            .map(|name| {
                let path = format!("{STORE}/{name}/auth.json");
                let auth = match self.files.get(&path) {
                    None => Credentials::Missing,
                    Some(bytes) => match AuthDocument::read(&path, bytes.clone()) {
                        Ok(document) => Credentials::Valid(document),
                        Err(error) => Credentials::Broken(error),
                    },
                };
                StoreEntry { name, auth }
            })
            .collect();
        match Store::profiles(entries) {
            Ok(profiles) => Reply::Profiles(profiles),
            Err(error) => Reply::Failed(error),
        }
    }

    fn answer_to(&mut self, message: &Json) -> Option<Json> {
        let id = message.integer_at("id")?;
        if message.text_at_is("method", "account/rateLimits/read") {
            let limits = self.limits.unwrap();
            let answer = limits(self);
            return Some(json(&answer));
        }
        if message.text_at_is("method", "config/read") {
            let store = self.store;
            return Some(json(&format!(
                r#"{{"id": {id}, "result": {{"config": {{"cli_auth_credentials_store": "{store}"}}}}}}"#
            )));
        }
        Some(json(&format!(r#"{{"id": {id}, "result": {{}}}}"#)))
    }

    /// Reads the quota of an account with an app server of its own.
    fn query(&mut self, slot: u32) -> Reply {
        let config = self.config();
        let source = config.profile_auth(slot);
        let result = self.drive(|log, at| query_profile_inner(&config, &source, log, at));
        let (usage, changed) =
            query_profile(result.map(|(answer, changed)| (usage_of(answer, NOW), changed)), NOW);
        Reply::Reading { usage, changed }
    }

    /// Shows the list and reads one account after the other.
    fn refresh_list(&mut self, force: bool) -> Result<bool, Error> {
        let config = self.config();
        let mut log = Vec::new();
        loop {
            match plan_list(&config, force, &log, &mut 0) {
                Ok(_) => break,
                Err(Halt::Fail(error)) => return Err(error),
                Err(Halt::Ask(request)) => {
                    let reply = self.perform(request);
                    log.push(reply);
                }
            }
        }
        let plan = plan_list(&config, force, &log, &mut 0).ok().unwrap();
        let mut states: Vec<ProfileUsage> = plan
            .accounts
            .iter()
            .zip(&plan.stale)
            .map(|(account, stale)| match stale {
                true => ProfileUsage::Loading,
                false => {
                    ProfileUsage::Ready(self.usage.get(&account.slot).map(UsageRecord::copy))
                }
            })
            .collect();
        let mut stale: Vec<u32> = plan
            .accounts
            .iter()
            .zip(&plan.stale)
            .filter(|(_, stale)| **stale)
            .map(|(account, _)| account.slot)
            .collect();
        let (mut list, mut action) = Listing::new(false, false, stale.len());
        loop {
            let event = match action {
                ListAction::Draw => {
                    let turn = list.turn;
                    let text = profile_list(plan.accounts, plan.selected, &states, NOW, turn);
                    self.output.push_str(&text);
                    ListEvent::Drawn
                }
                ListAction::Wait(_) => {
                    // The last account is the first to answer.
                    let slot = stale.pop().unwrap();
                    let result =
                        self.drive(|log, at| refresh_usage(&config, slot, force, log, at));
                    let usage = self.usage.get(&slot).map(UsageRecord::copy);
                    mark_ready(plan.accounts, &mut states, slot, usage);
                    ListEvent::Received(result)
                }
                ListAction::LookForExit => ListEvent::ExitAsked(false),
                ListAction::Join => ListEvent::Joined(true),
                ListAction::Finish => return list.outcome(),
                ListAction::Exit => panic!("nobody asks for the end"),
            };
            action = list.advance(event);
        }
    }

    fn perform(&mut self, request: Request) -> Reply {
        match request {
            Request::StartServer { home, .. } => {
                self.home = home;
                Reply::Done
            }
            Request::StopServer | Request::Lock(_) => Reply::Done,
            Request::Send(message) => {
                let answer = self.answer_to(&message);
                self.queue.extend(answer);
                Reply::Done
            }
            Request::Receive => Reply::Message(self.queue.remove(0)),
            Request::ReadAuth(path) => match self.read(&path) {
                Ok(document) => Reply::Auth(document),
                Err(error) => Reply::Failed(error),
            },
            Request::Profiles => self.profiles(),
            Request::ReadText(path) => match self.files.get(&path) {
                Some(bytes) => Reply::Text(String::from_utf8(bytes.clone()).unwrap()),
                None => Reply::Missing,
            },
            Request::IsDir(path) => Reply::Flag(self.is_dir(&path)),
            Request::IsFile(path) => Reply::Flag(self.files.contains_key(&path)),
            Request::Names(path) => Reply::Names(self.names(&path)),
            Request::PrivateDir(_) | Request::StartSpinner(_) | Request::StopSpinner => Reply::Done,
            Request::Write { path, bytes } => {
                self.changes += 1;
                self.links.remove(&path);
                self.files.insert(path, bytes);
                Reply::Done
            }
            Request::Copy { from, to } => {
                let bytes = self.files[&from].clone();
                self.files.insert(to, bytes);
                Reply::Done
            }
            Request::Remove(path) => {
                self.files.remove(&path);
                Reply::Done
            }
            Request::TempDir { directory, prefix } => Reply::Text(format!("{directory}/{prefix}x")),
            Request::Login { arguments, home } => {
                self.arguments = arguments;
                if let Some(bytes) = self.login.clone() {
                    self.files.insert(format!("{home}/auth.json"), bytes);
                }
                Reply::Flag(self.login.is_some())
            }
            Request::Interactive => Reply::Flag(self.interactive),
            Request::Prompt(question) => {
                self.output.push_str(&question);
                Reply::Text(self.answer.to_owned())
            }
            Request::Print(line) | Request::Warn(line) => {
                self.output.push_str(&line);
                self.output.push('\n');
                Reply::Done
            }
            Request::Show(text) => {
                self.output.push_str(&text);
                Reply::Done
            }
            Request::Usage(slot) => match self.usage.get(&slot) {
                Some(usage) => Reply::Usage(usage.copy()),
                None => Reply::Missing,
            },
            Request::UsageFresh(slot) => Reply::Flag(self.usage.contains_key(&slot)),
            Request::QueryUsage(slot) if self.limits.is_some() => self.query(slot),
            Request::QueryUsage(_) => match &self.reading {
                Some((usage, changed)) => Reply::Reading { usage: usage.copy(), changed: *changed },
                None => Reply::Failed(Error::Timeout),
            },
            Request::RecordUsage { slot, usage } => {
                self.usage.insert(slot, usage);
                Reply::Done
            }
            Request::Now => Reply::Time(NOW),
            Request::RefreshList { force, .. } if self.limits.is_some() => {
                match self.refresh_list(force) {
                    Ok(changed) => Reply::Flag(changed),
                    Err(error) => Reply::Failed(error),
                }
            }
            Request::RefreshList { .. } => Reply::Flag(true),
            _ => panic!("unexpected request"),
        }
    }

    fn config(&self) -> Config {
        Config { skip_usage_refresh: self.limits.is_none(), ..config() }
    }

    fn drive<T>(
        &mut self,
        mut step: impl FnMut(&Vec<Reply>, &mut usize) -> Result<T, Halt>,
    ) -> Result<T, Error> {
        let mut log = Vec::new();
        loop {
            let mut at = 0;
            match step(&log, &mut at) {
                Ok(value) => return Ok(value),
                Err(Halt::Fail(error)) => return Err(error),
                Err(Halt::Ask(request)) => {
                    let reply = self.perform(request);
                    log.push(reply);
                }
            }
        }
    }

    fn run_with(&mut self, cli: Cli, token: Option<String>) -> Result<(), Error> {
        let config = self.config();
        self.queue.clear();
        self.drive(|log, at| run(&cli, &config, &token, log, at)).map(|_| ())
    }

    fn run(&mut self, cli: Cli) -> Result<(), Error> {
        self.run_with(cli, None)
    }
}

fn config() -> Config {
    Config {
        codex_home: HOME.to_owned(),
        codex_binary: None,
        active_auth: format!("{STORE}/auth.json"),
        account_store: STORE.to_owned(),
        active_profile: format!("{STORE}/active-profile"),
        switch_lock: format!("{STORE}/switch.lock"),
        server_start_marker: format!("{STORE}/starting"),
        app_server_socket: format!("{STORE}/app-server.sock"),
        session_auth: format!("{HOME}/auth.json"),
        usage_ttl_seconds: 120,
        skip_usage_refresh: true,
    }
}

fn command(command: CliCommand) -> Cli {
    Cli { command: Some(command), account: None }
}

fn switch_to(account: &str) -> Cli {
    Cli { command: None, account: Some(account.to_owned()) }
}

fn session() -> String {
    format!("{HOME}/auth.json")
}

#[test]
fn bare_command_recommends_init_for_the_current_login() {
    let mut world = World::new();
    world.put(&session(), auth("current@example.com", "user-current", "account-current", "x"));

    assert!(world.run(Cli { command: None, account: None }).is_ok());

    assert!(world.output.contains("Found the current Codex login: current@example.com"));
    assert!(world.output.contains("cxa is not initialized. Run: cxa init"));
}

#[test]
fn redirected_init_requires_yes_without_creating_a_profile() {
    let mut world = World::new();
    world.put(&session(), auth("current@example.com", "user-current", "account-current", "x"));

    let error = world.run(command(CliCommand::Init { yes: false })).err().unwrap();

    assert!(error.text().contains("cxa init --yes"));
    assert!(!world.files.contains_key(&format!("{STORE}/profile-1/auth.json")));
}

#[test]
fn init_can_be_declined_at_the_terminal() {
    let mut world = World::new();
    world.interactive = true;
    world.answer = " No \n";
    world.put(&session(), auth("current@example.com", "user-current", "account-current", "x"));

    let error = world.run(command(CliCommand::Init { yes: false })).err().unwrap();
    assert_eq!(error.text(), "Initialization cancelled.");
    assert!(world.output.contains("Import it as account"));
    assert_eq!(world.changes, 0);

    world.answer = "\n";
    assert!(world.run(command(CliCommand::Init { yes: false })).is_ok());
    assert_eq!(world.token(&format!("{STORE}/profile-1/auth.json")), "x");
}

#[test]
fn init_imports_and_selects_the_current_login() {
    let mut world = World::seeded();

    assert_eq!(world.token(&format!("{STORE}/profile-1/auth.json")), "token-one");
    assert_eq!(world.files[&format!("{STORE}/active-profile")], b"1\n");
    assert!(world.run(command(CliCommand::Init { yes: true })).is_ok());
    assert!(world.output.contains("cxa is already initialized with account"));
}

#[test]
fn init_without_a_login_says_what_to_do() {
    let error = World::new().run(command(CliCommand::Init { yes: true })).err().unwrap();
    assert!(error.text().contains("No current Codex login was found."));
}

#[test]
fn switch_works_while_codex_is_running_and_prints_restart_guidance() {
    let mut world = World::seeded();
    assert!(world.import("two@example.com", "user-two", "account-two", "token-two").is_ok());

    assert!(world.run(command(CliCommand::Use { account: "2".to_owned() })).is_ok());

    assert_eq!(world.token(&session()), "token-two");
    assert!(world.output.contains(
        "Restart Codex or ChatGPT before expecting an existing session to use this account."
    ));
}

#[test]
fn switching_by_a_part_of_the_address_works() {
    let mut world = World::seeded();
    assert!(world.import("two@example.com", "user-two", "account-two", "token-two").is_ok());

    assert!(world.run(switch_to("two@")).is_ok());
    assert_eq!(world.token(&session()), "token-two");
    assert!(world.run(switch_to("@example.com")).is_err());
    assert!(world.run(switch_to("3")).is_err());
    assert!(world.run(switch_to("1")).is_ok());
    assert!(world.run(switch_to("TWO@Example")).is_ok());
    assert_eq!(world.token(&session()), "token-two");
}

#[test]
fn switching_preserves_live_credentials_when_timestamps_tie() {
    let mut world = World::seeded();
    assert!(world.import("two@example.com", "user-two", "account-two", "two").is_ok());
    world.put(&session(), auth("one@example.com", "user-one", "account-one", "refreshed-one"));

    assert!(world.run(switch_to("2")).is_ok());
    assert!(world.run(switch_to("1")).is_ok());

    assert_eq!(world.token(&session()), "refreshed-one");
}

#[test]
fn older_live_credentials_do_not_replace_newer_saved_ones() {
    let mut world = World::seeded();
    let old = auth_at("one@example.com", "user-one", "account-one", "old", "2020-01-01T00:00:00Z");
    world.put(&session(), old);

    assert!(world.run(switch_to("1")).is_ok());

    assert_eq!(world.token(&format!("{STORE}/profile-1/auth.json")), "token-one");
    assert_eq!(world.token(&session()), "token-one");
}

#[test]
fn switching_replaces_the_session_symlink_without_touching_its_old_target() {
    let mut world = World::seeded();
    assert!(world.import("two@example.com", "user-two", "account-two", "token-two").is_ok());
    let old_target = "/home/one/old-active.json";
    let old = world.files.remove(&session()).unwrap();
    world.put(old_target, old);
    world.links.insert(session(), old_target.to_owned());

    assert!(world.run(switch_to("2")).is_ok());

    assert_eq!(world.token(&session()), "token-two");
    assert_eq!(world.token(old_target), "token-one");
    assert!(!world.links.contains_key(&session()));
}

#[test]
fn import_rejects_duplicate_account_identity() {
    let mut world = World::seeded();

    let error = world
        .import("renamed@example.com", "user-one", "account-one", "new-token")
        .err()
        .unwrap();

    assert!(error.text().contains("already enrolled as account 1"));
    assert_eq!(world.token(&format!("{STORE}/profile-1/auth.json")), "token-one");
}

#[test]
fn same_email_in_different_workspaces_remains_distinct() {
    let mut world = World::new();
    world.put(&session(), auth("same@example.com", "same-user", "workspace-one", "one"));
    assert!(world.run(command(CliCommand::Init { yes: true })).is_ok());

    assert!(world.import("same@example.com", "same-user", "workspace-two", "second").is_ok());

    assert!(world.files.contains_key(&format!("{STORE}/profile-2/auth.json")));
}

#[test]
fn add_runs_login_in_an_isolated_home() {
    let mut world = World::seeded();
    world.login = Some(auth("two@example.com", "user-two", "account-two", "token-two"));

    let add = CliCommand::Add { device_auth: false, options: vec![] };
    assert!(world.run(command(add)).is_ok());

    assert_eq!(world.token(&format!("{STORE}/profile-2/auth.json")), "token-two");
    assert_eq!(world.token(&session()), "token-one");
    assert!(!world.arguments.contains(&Some("--device-auth".to_owned())));
}

#[test]
fn add_forwards_device_auth_to_codex_login() {
    let mut world = World::seeded();
    world.login = Some(auth("two@example.com", "user-two", "account-two", "token-two"));

    let add = CliCommand::Add { device_auth: true, options: vec![None] };
    assert!(world.run(command(add)).is_ok());

    let expected = vec![
        Some("login".to_owned()),
        None,
        Some("--device-auth".to_owned()),
        Some("-c".to_owned()),
        Some("cli_auth_credentials_store=\"file\"".to_owned()),
    ];
    assert_eq!(world.arguments, expected);
}

#[test]
fn a_failed_login_changes_nothing() {
    let mut world = World::seeded();
    let changes = world.changes;
    let add = CliCommand::Add { device_auth: false, options: vec![] };
    let error = world.run(command(add)).err().unwrap();

    assert_eq!(error.text(), "Codex login failed; nothing was changed.");
    assert_eq!(world.changes, changes);
}

#[test]
fn foreign_credentials_are_refused() {
    let mut world = World::seeded();
    for option in ["--with-api-key", "--with-access-token=x"] {
        let add = CliCommand::Add { device_auth: false, options: vec![Some(option.to_owned())] };
        let error = world.run(command(add)).err().unwrap();
        assert!(error.text().starts_with("cxa requires ChatGPT OAuth credentials; --with-a"));
        assert!(error.text().ends_with(" is not supported."));
    }
    assert!(world.arguments.is_empty());
}

#[test]
fn relogin_rejects_a_different_account() {
    let mut world = World::seeded();
    world.login = Some(auth("wrong@example.com", "wrong-user", "wrong-account", "wrong"));

    let relogin = CliCommand::Relogin { account: "1".to_owned(), options: vec![] };
    assert!(world.run(command(relogin)).is_err());

    assert_eq!(world.token(&format!("{STORE}/profile-1/auth.json")), "token-one");
}

#[test]
fn selected_relogin_updates_the_session_and_prints_restart_guidance() {
    let mut world = World::seeded();
    world.login = Some(auth("one@example.com", "user-one", "account-one", "replacement"));

    let relogin = CliCommand::Relogin { account: "1".to_owned(), options: vec![] };
    assert!(world.run(command(relogin)).is_ok());

    assert_eq!(world.token(&session()), "replacement");
    assert!(world.output.contains("Restart Codex or ChatGPT"));
    assert!(world.output.contains("Re-authenticated"));
}

/// A text without its colours.
fn bare(text: &str) -> String {
    let mut out = String::new();
    let mut escape = false;
    for character in text.chars() {
        match character {
            '\x1b' => escape = true,
            'm' if escape => escape = false,
            _ if escape => {}
            _ => out.push(character),
        }
    }
    out
}

#[test]
fn list_preserves_rotation_and_restart_guidance_when_quota_fails() {
    let mut world = World::seeded();
    world.limits = Some(|world: &mut World| {
        assert!(world.home.starts_with(&format!("{STORE}/.quota-")));
        let refreshed = auth_at(
            "one@example.com",
            "user-one",
            "account-one",
            "refreshed-one",
            "2026-08-28T00:00:00Z",
        );
        let path = format!("{}/auth.json", world.home);
        world.put(&path, refreshed);
        r#"{"id":2,"error":{"code":-32000,"message":"quota failed"}}"#.to_owned()
    });

    assert!(world.run(command(CliCommand::List { watch: false, interval: 60 })).is_ok());

    let output = bare(&world.output);
    assert!(output.contains("quota unavailable (Protocol)"));
    assert!(output.contains("Restart Codex or ChatGPT"));
    assert_eq!(world.token(&format!("{STORE}/profile-1/auth.json")), "refreshed-one");
    assert_eq!(world.token(&session()), "refreshed-one");
}

#[test]
fn list_attributes_quota_to_each_saved_profile() {
    let mut world = World::seeded();
    assert!(world.import("two@example.com", "user-two", "account-two", "token-two").is_ok());
    world.output.clear();
    world.limits = Some(|world: &mut World| {
        let (used, spark) = match world.token(&format!("{}/auth.json", world.home)).as_str() {
            "token-one" => (11, 0),
            _ => (77, 100),
        };
        format!(
            r#"{{"id":2,"result":{{"rateLimitsByLimitId":{{"codex":{{"limitId":"codex","planType":"pro","primary":{{"usedPercent":{used},"windowDurationMins":10080}}}},"codex_bengalfox":{{"limitId":"codex_bengalfox","limitName":"GPT-5.3-Codex-Spark","planType":"pro","primary":{{"usedPercent":0,"windowDurationMins":300}},"secondary":{{"usedPercent":{spark},"windowDurationMins":10080}}}}}}}}}}"#
        )
    });

    assert!(world.run(command(CliCommand::List { watch: false, interval: 60 })).is_ok());

    let output = bare(&world.output);
    let account_two = output.find("two@example.com").unwrap();
    let account_one_output = &output[..account_two];
    let account_two_output = &output[account_two..];
    assert!(account_one_output.contains("one@example.com  Pro 20x · updated just now"));
    assert!(account_one_output.contains("11% used"));
    assert!(!account_one_output.contains("77% used"));
    assert!(account_two_output.contains("77% used"));
    assert!(account_two_output.contains("Codex Spark  EXHAUSTED"));
    assert!(account_two_output.contains("[████████████████] 100% used"));
    assert!(!output.contains("codex primary"));
    assert!(output.lines().all(|line| line.chars().count() <= 80));
    assert!(!output.contains("Fetching usage"));
}

#[test]
fn status_infers_selection_when_codex_changes_to_an_enrolled_account() {
    let mut world = World::seeded();
    assert!(world.import("two@example.com", "user-two", "account-two", "two").is_ok());
    world.put(&session(), auth("two@example.com", "user-two", "account-two", "two"));

    assert!(world.run(command(CliCommand::Status)).is_ok());

    assert!(bare(&world.output).contains("* 2  two@example.com"));
    assert!(world.output.contains("matches the saved account"));
}

#[test]
fn status_reads_the_quota_where_it_is_not_fresh() {
    let mut world = World::seeded();
    world.reading = Some((
        UsageRecord {
            observed_at: 1_789_200_000,
            error: Some("quota unavailable (Protocol)".to_owned()),
            ..UsageRecord::default()
        },
        true,
    ));
    let mut config = config();
    config.skip_usage_refresh = false;
    let cli = command(CliCommand::Status);
    let mut log = Vec::new();
    loop {
        let mut at = 0;
        match run(&cli, &config, &None, &log, &mut at) {
            Ok(_) => break,
            Err(Halt::Fail(error)) => panic!("{}", error.text()),
            Err(Halt::Ask(request)) => {
                let reply = world.perform(request);
                log.push(reply);
            }
        }
    }

    assert!(world.output.contains("quota unavailable (Protocol)"));
    assert!(world.output.contains("Restart Codex or ChatGPT"));
    assert!(!world.usage[&1].succeeded());
}

#[test]
fn switching_to_an_exhausted_account_is_warned_about() {
    let mut world = World::seeded();
    world.usage.insert(
        1,
        UsageRecord {
            reached: true,
            reached_type: Some("workspace_owner_credits_depleted".to_owned()),
            ..UsageRecord::default()
        },
    );

    assert!(world.run(switch_to("1")).is_ok());
    assert!(world.output.contains("was last seen exhausted"));
}

#[test]
fn watch_requires_an_interactive_terminal() {
    let mut world = World::seeded();
    for arguments in [
        CliCommand::Watch { interval: 60 },
        CliCommand::List { watch: true, interval: 60 },
    ] {
        let error = world.run(command(arguments)).err().unwrap();
        assert!(error.text().contains("Watch mode requires an interactive terminal"));
    }
}

#[test]
fn a_list_plans_which_accounts_are_read() {
    let mut world = World::seeded();
    assert!(world.import("two@example.com", "user-two", "account-two", "two").is_ok());
    world.usage.insert(2, UsageRecord::default());
    let mut config = config();
    config.skip_usage_refresh = false;
    let mut log = Vec::new();
    loop {
        let mut at = 0;
        let request = match plan_list(&config, false, &log, &mut at) {
            Ok(plan) => {
                assert!(plan.guidance.is_none());
                assert_eq!(plan.accounts.len(), 2);
                assert_eq!(plan.selected, Some(1));
                assert_eq!(plan.stale, vec![true, false]);
                let mut states = vec![ProfileUsage::Loading, ProfileUsage::Ready(None)];
                let text = profile_list(plan.accounts, plan.selected, &states, 1_000, 3);
                assert!(text.contains("⠸"));
                assert!(text.contains("loading"));
                mark_ready(plan.accounts, &mut states, 1, None);
                assert!(matches!(states[0], ProfileUsage::Ready(None)));
                assert_eq!(profile_line_count(None), 2);
                break;
            }
            Err(Halt::Fail(error)) => panic!("{}", error.text()),
            Err(Halt::Ask(request)) => request,
        };
        log.push(world.perform(request));
    }
}

#[test]
fn a_list_that_changed_the_session_asks_for_a_restart() {
    let mut world = World::seeded();
    assert!(world.run(command(CliCommand::List { watch: false, interval: 60 })).is_ok());
    assert!(world.output.contains("Restart Codex or ChatGPT"));
}

#[test]
fn non_file_codex_credentials_are_rejected_before_switching() {
    let mut world = World::seeded();
    world.store = "keyring";
    let error = world.run(switch_to("1")).err().unwrap();
    assert!(error.text().contains("cxa requires Codex's file credential store"));
}

#[test]
fn malformed_enrolled_profile_is_reported() {
    let mut world = World::seeded();
    world.put(&format!("{STORE}/profile-2/auth.json"), b"not json".to_vec());

    let config = config();
    let mut log = Vec::new();
    let error = loop {
        let mut at = 0;
        let request = match plan_list(&config, false, &log, &mut at) {
            Ok(_) => panic!("the list was planned"),
            Err(Halt::Fail(error)) => break error,
            Err(Halt::Ask(request)) => request,
        };
        log.push(world.perform(request));
    };

    assert!(error.text().contains("profile-2/auth.json"));
    assert!(error.text().contains("invalid JSON"));
}

#[test]
fn credential_environment_overrides_are_rejected_before_switching() {
    let mut world = World::seeded();
    let error = world
        .run_with(switch_to("1"), Some("external-token".to_owned()))
        .err()
        .unwrap();
    assert!(error.text().contains("Unset CODEX_ACCESS_TOKEN"));
}

// ---------------------------------------------------------------- watching

/// A terminal on which keys are pressed at given moments, in nanoseconds.
struct Screen {
    now: u64,
    end: u64,
    keys: Vec<(u64, char)>,
    lines: Vec<String>,
}

impl Screen {
    fn perform(&mut self, request: Request) -> Reply {
        match request {
            Request::WriteStatus(line) => {
                self.lines.push(line);
                Reply::Done
            }
            Request::RefreshList { .. } => Reply::Flag(false),
            Request::StartTimer(span) => {
                self.end = self.now + span;
                Reply::Done
            }
            Request::Signalled => Reply::Flag(false),
            Request::Remaining => Reply::Number(self.end - self.now),
            Request::PollEvent(span) => match self.keys.first() {
                Some((moment, _)) if *moment <= self.now + span => {
                    self.now = u64::max(self.now, *moment);
                    Reply::Flag(true)
                }
                _ => {
                    self.now += span;
                    Reply::Flag(false)
                }
            },
            Request::ReadEvent => {
                let (_, key) = self.keys.remove(0);
                Reply::Event(TerminalEvent::Key {
                    key: Key::Char(key),
                    control: false,
                    release: false,
                })
            }
            _ => panic!("unexpected request"),
        }
    }

    fn drive<T>(&mut self, step: impl Fn(&Vec<Reply>, &mut usize) -> Result<T, Halt>) -> T {
        let mut log = Vec::new();
        loop {
            let mut at = 0;
            match step(&log, &mut at) {
                Ok(value) => return value,
                Err(Halt::Fail(error)) => panic!("{}", error.text()),
                Err(Halt::Ask(request)) => log.push(self.perform(request)),
            }
        }
    }
}

#[test]
fn unrelated_keys_do_not_consume_the_watch_interval() {
    let second = 1_000_000_000;
    let mut screen = Screen {
        now: 0,
        end: 0,
        keys: (0..10).map(|n| (n * 1_000, 'a')).collect(),
        lines: Vec::new(),
    };
    screen.keys.push((2 * second + 5, 'q'));

    assert!(screen.drive(|log, at| countdown(5, false, log, at)));

    assert_eq!(screen.now, 2 * second + 5);
    assert_eq!(screen.lines.len(), 3);
    assert!(screen.lines[0].contains("refresh in 5s"));
    assert!(screen.lines[2].contains("refresh in 3s"));
}

#[test]
fn a_watch_goes_on_until_someone_ends_it() {
    let mut screen = Screen { now: 0, end: 0, keys: Vec::new(), lines: Vec::new() };
    assert_eq!(screen.drive(|log, at| watch_round(true, 5, log, at)), Some(true));
    assert_eq!(screen.lines.len(), 5);
    assert!(!screen.drive(|log, at| watch_exit_requested(0, log, at)));
    screen.keys.push((screen.now, 'Q'));
    assert_eq!(screen.drive(|log, at| watch_round(false, 5, log, at)), None);
}

#[test]
fn a_list_waits_for_every_reading() {
    let (mut list, mut action) = Listing::new(true, false, 2);
    assert_eq!(action, ListAction::Draw);
    action = list.advance(ListEvent::Drawn);
    assert!(matches!(action, ListAction::Wait(Some(_))));
    action = list.advance(ListEvent::Received(Err(Error::Timeout)));
    assert_eq!(action, ListAction::Draw);
    action = list.advance(ListEvent::Drawn);
    assert!(matches!(action, ListAction::Wait(Some(_))));
    action = list.advance(ListEvent::Received(Ok(true)));
    assert_eq!(action, ListAction::Draw);
    action = list.advance(ListEvent::Drawn);
    assert_eq!(action, ListAction::Join);
    action = list.advance(ListEvent::Joined(false));
    assert_eq!(action, ListAction::Draw);
    action = list.advance(ListEvent::Drawn);
    assert_eq!(action, ListAction::Finish);
    assert!(list.session_changed);
    assert!(matches!(list.outcome(), Err(Error::Timeout)));
}

#[test]
fn profiles_that_hold_no_credentials_are_passed_over() {
    let mut world = World::seeded();
    world.put(&format!("{STORE}/profile-2/auth.json"), b"{\"tokens\": {}}".to_vec());
    assert!(world.import("two@example.com", "user-two", "account-two", "two").is_ok());

    assert!(world.run(command(CliCommand::Status)).is_ok());

    assert!(bare(&world.output).contains("one@example.com"));
}

#[test]
fn a_watch_that_waits_for_the_lock_can_be_ended() {
    let locked = |exit_after: usize, free_after: usize| {
        let mut log = Vec::new();
        let (mut tries, mut sleeps) = (0, 0);
        loop {
            let mut at = 0;
            match await_lock("/store/switch.lock", &log, &mut at) {
                Ok(()) => return Ok(sleeps),
                Err(Halt::Fail(error)) => return Err((error, sleeps)),
                Err(Halt::Ask(request)) => log.push(match request {
                    Request::TryLock(path) => {
                        assert_eq!(path, "/store/switch.lock");
                        tries += 1;
                        Reply::Flag(tries > free_after)
                    }
                    Request::Signalled => Reply::Flag(sleeps >= exit_after),
                    Request::StartTimer(0) => Reply::Done,
                    Request::Remaining => Reply::Number(0),
                    Request::PollEvent(0) => Reply::Flag(false),
                    Request::Sleep(time) => {
                        assert_eq!(time, 80_000_000);
                        sleeps += 1;
                        Reply::Done
                    }
                    _ => panic!("unexpected request"),
                }),
            }
        }
    };

    assert!(matches!(locked(9, 0), Ok(0)));
    assert!(matches!(locked(9, 3), Ok(3)));
    assert!(matches!(locked(2, 9), Err((Error::Cancelled, 2))));

    assert!(unplanned(Error::Cancelled, true).is_none());
    assert!(matches!(unplanned(Error::Cancelled, false), Some(Error::Cancelled)));
    assert!(matches!(unplanned(Error::Timeout, true), Some(Error::Timeout)));
}
