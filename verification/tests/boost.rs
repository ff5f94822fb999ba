//! Boosts, against app servers that only exist in memory and a clock that goes by itself.
use std::collections::BTreeMap;

use base64::engine::general_purpose::URL_SAFE_NO_PAD;
use base64::Engine as _;
use cxa::account_store::Profile;
use cxa::app_server::read_line;
use cxa::auth::AuthDocument;
use cxa::boost::{
    begin, collect_quotas, describe, finish, reset_account, round, run, take_control, Begun,
    BoostCommand, Job, Round,
};
use cxa::boost_state::{insert_task, remove_task, sockets, Observation, Phase, State, Task};
use cxa::boost_tasks::settings_match;
use cxa::config::Config;
use cxa::effects::{Halt, Reply, Request};
use cxa::error::Error;
use cxa::json::Json;
use cxa::percent::Percent;
use cxa::usage::{UsageBucket, UsageRecord, UsageWindow};

const SOCKET: &str = "/home/one/app-server-control.sock";
const START: i64 = 1_789_200_000;
const SECOND: u64 = 1_000_000_000;

fn json(text: &str) -> Json {
    match read_line(&text.as_bytes().to_vec()) {
        Ok(value) => value,
        Err(complaint) => panic!("{complaint}"),
    }
}

fn config() -> Config {
    Config {
        codex_home: "/home/one/.codex".to_owned(),
        codex_binary: None,
        active_auth: "/store/auth.json".to_owned(),
        account_store: "/store".to_owned(),
        active_profile: "/store/active-profile".to_owned(),
        switch_lock: "/store/switch.lock".to_owned(),
        server_start_marker: "/store/starting".to_owned(),
        app_server_socket: "/store/app-server.sock".to_owned(),
        session_auth: "/home/one/.codex/auth.json".to_owned(),
        usage_ttl_seconds: 120,
        skip_usage_refresh: true,
    }
}

#[derive(Clone, Debug, PartialEq)]
struct Thread {
    parent: Option<&'static str>,
    direct: bool,
    active: bool,
    materialized: bool,
    model: String,
    effort: String,
    tier: Option<String>,
    turn: Option<(String, &'static str)>,
}

fn root() -> Thread {
    Thread {
        parent: None,
        direct: true,
        active: true,
        materialized: true,
        model: "gpt-5.6-sol".to_owned(),
        effort: "high".to_owned(),
        tier: None,
        turn: Some(("turn-root".to_owned(), "inProgress")),
    }
}

fn child() -> Thread {
    Thread {
        parent: Some("root-1"),
        direct: false,
        model: "gpt-6-astra".to_owned(),
        effort: "ultra".to_owned(),
        tier: Some("priority".to_owned()),
        turn: Some(("turn-root-1".to_owned(), "inProgress")),
        ..root()
    }
}

fn empty() -> Thread {
    Thread {
        active: false,
        materialized: false,
        tier: Some("default".to_owned()),
        turn: None,
        ..root()
    }
}

fn reading(used: f64, observed_at: i64) -> Vec<Observation> {
    vec![Observation {
        slot: 1,
        usage: UsageRecord {
            observed_at,
            last_attempted_at: observed_at,
            buckets: vec![UsageBucket {
                limit_id: "codex".to_owned(),
                primary_window: Some(UsageWindow {
                    used_percent: Some(Percent { bits: used.to_bits() }),
                    resets_at: Some(4_000_000_000),
                    window_minutes: Some(10_080),
                }),
                ..UsageBucket::default()
            }],
            ..UsageRecord::default()
        },
    }]
}

#[derive(Clone, Debug, PartialEq)]
struct Event {
    method: String,
    thread: String,
    effort: Option<String>,
}

struct World {
    now: u64,
    model_available: bool,
    endpoint_available: bool,
    quota: Vec<f64>,
    quota_index: usize,
    next_quota: u64,
    loaded: Vec<String>,
    threads: BTreeMap<String, Thread>,
    events: Vec<Event>,
    defaults: BTreeMap<String, String>,
    queue: Vec<Json>,
    record: Option<State>,
    stop_file: bool,
    locked: bool,
    printed: Vec<String>,
    accounts: Vec<Profile>,
}

impl World {
    fn new(quota: &[f64]) -> World {
        let mut world = World {
            now: 0,
            model_available: true,
            endpoint_available: true,
            quota: quota.to_vec(),
            quota_index: 0,
            next_quota: 0,
            loaded: Vec::new(),
            threads: BTreeMap::new(),
            events: Vec::new(),
            defaults: BTreeMap::new(),
            queue: Vec::new(),
            record: None,
            stop_file: false,
            locked: false,
            printed: Vec::new(),
            accounts: Vec::new(),
        };
        for (key, value) in [
            ("model", "gpt-5.6-sol"),
            ("model_reasoning_effort", "high"),
            ("plan_mode_reasoning_effort", "medium"),
            ("service_tier", "default"),
        ] {
            world.defaults.insert(key.to_owned(), value.to_owned());
        }
        world
    }

    fn with_tasks(quota: &[f64]) -> World {
        let mut world = World::new(quota);
        world.load("root-1", root());
        world.load("child-1", child());
        world
    }

    fn load(&mut self, id: &str, thread: Thread) {
        self.loaded.push(id.to_owned());
        self.threads.insert(id.to_owned(), thread);
    }

    fn event(&self, method: &str, thread: &str, effort: Option<&str>) -> Option<usize> {
        self.events.iter().position(|event| {
            event.method == method
                && event.thread == thread
                && effort.is_none_or(|effort| event.effort.as_deref() == Some(effort))
        })
    }

    fn seconds(&self) -> i64 {
        START + (self.now / SECOND) as i64
    }

    fn handle(&mut self, method: &str, params: &Json) -> Result<Json, String> {
        let id = params.text_at("threadId").cloned().unwrap_or_default();
        let effort = params.text_at("effort").cloned();
        let note = Event { method: method.to_owned(), thread: id.clone(), effort: effort.clone() };
        match method {
            "account/read" => Ok(json(
                r#"{"account": {"type": "chatgpt", "email": "one@example.com", "planType": "pro"},
                    "requiresOpenaiAuth": true}"#,
            )),
            "model/list" => Ok(json(if self.model_available {
                r#"{"data": [{"model": "gpt-6-astra",
                    "supportedReasoningEfforts": [
                        {"reasoningEffort": "medium"}, {"reasoningEffort": "ultra"}],
                    "serviceTiers": [{"id": "fast"}]}], "nextCursor": null}"#
            } else {
                r#"{"data": [], "nextCursor": null}"#
            })),
            "thread/loaded/list" => {
                let ids: Vec<String> = self.loaded.iter().map(|id| format!("\"{id}\"")).collect();
                let ids = ids.join(",");
                Ok(json(&format!(r#"{{"data": [{ids}], "nextCursor": null}}"#)))
            }
            "thread/read" => {
                self.events.push(note);
                let thread = &self.threads[&id];
                let parent = match thread.parent {
                    Some(parent) => format!("\"{parent}\""),
                    None => "null".to_owned(),
                };
                let direct = thread.direct;
                let status = if thread.active { "active" } else { "idle" };
                Ok(json(&format!(
                    r#"{{"thread": {{"id": "{id}", "parentThreadId": {parent},
                        "canAcceptDirectInput": {direct}, "modelProvider": "openai",
                        "status": {{"type": "{status}"}}, "path": "/tmp/work/thread.jsonl"}}}}"#
                )))
            }
            "thread/resume" => {
                let thread = &self.threads[&id];
                if !thread.materialized {
                    return Err(format!("no rollout found for thread id {id}"));
                }
                let tier = match &thread.tier {
                    Some(tier) => format!("\"{tier}\""),
                    None => "null".to_owned(),
                };
                let (model, effort) = (&thread.model, &thread.effort);
                Ok(json(&format!(
                    r#"{{"model": "{model}", "reasoningEffort": "{effort}", "serviceTier": {tier}}}"#
                )))
            }
            "thread/turns/list" => {
                let thread = &self.threads[&id];
                if !thread.materialized {
                    return Err(format!(
                        "thread {id} is not materialized yet; thread/turns/list is unavailable \
                         before first user message"
                    ));
                }
                let turn = match &thread.turn {
                    Some((turn, status)) => format!(r#"{{"id": "{turn}", "status": "{status}"}}"#),
                    None => String::new(),
                };
                Ok(json(&format!(r#"{{"data": [{turn}], "nextCursor": null}}"#)))
            }
            "turn/interrupt" => {
                self.events.push(note);
                if let Some(turn) = &mut self.threads.get_mut(&id).unwrap().turn {
                    turn.1 = "interrupted";
                }
                Ok(json("{}"))
            }
            "thread/settings/update" | "turn/settings/update" | "turn/start" => {
                self.events.push(note);
                let thread = self.threads.get_mut(&id).unwrap();
                thread.model = params.text_at("model").unwrap().clone();
                thread.effort = effort.unwrap();
                let tier = params.text_at("serviceTier").unwrap().clone();
                thread.tier = Some(if tier == "fast" { "priority".to_owned() } else { tier });
                if method == "turn/start" {
                    thread.turn = Some((format!("continued-{id}"), "inProgress"));
                }
                Ok(json("{}"))
            }
            _ => panic!("unsupported method: {method}"),
        }
    }

    fn serve(&mut self, message: &Json) {
        let Some(id) = message.integer_at("id") else {
            return;
        };
        let mut result = "{}".to_owned();
        if message.text_at_is("method", "config/read") {
            result = r#"{"config": {}, "layers": [
                {"name": {"type": "system"}, "version": "system-version"},
                {"name": {"type": "user", "profile": null}, "version": "user-version-1"}
            ]}"#
            .to_owned();
        }
        if message.text_at_is("method", "config/batchWrite") {
            let params = message.get("params").unwrap();
            assert!(params.text_at_is("expectedVersion", "user-version-1"));
            self.events.push(Event {
                method: "config/batchWrite".to_owned(),
                thread: String::new(),
                effort: None,
            });
            for edit in params.list_at("edits").unwrap() {
                let value = match edit.get("value").unwrap() {
                    Json::Text(text) => text.clone(),
                    Json::Bool(value) => format!("{value}"),
                    _ => panic!("unexpected value"),
                };
                self.defaults.insert(edit.text_at("keyPath").unwrap().clone(), value);
            }
        }
        self.queue.push(json(&format!(r#"{{"id": {id}, "result": {result}}}"#)));
    }

    fn quotas(&mut self) -> Option<Vec<Observation>> {
        if self.now < self.next_quota {
            return None;
        }
        self.next_quota = self.now + 15 * SECOND;
        let index = usize::min(self.quota_index, self.quota.len() - 1);
        self.quota_index += 1;
        Some(reading(self.quota[index], self.seconds()))
    }

    fn perform(&mut self, request: Request) -> Reply {
        match request {
            Request::TryLock(_) => Reply::Flag(!self.locked),
            Request::LockHeld(_) => Reply::Flag(self.locked),
            Request::Unlock(_) | Request::CatchSignals | Request::LimitCalls(_) => Reply::Done,
            Request::ReadBoost(_) => match &self.record {
                Some(state) => Reply::Boost(state.copy()),
                None => Reply::Missing,
            },
            Request::WriteBoost { boost, .. } => {
                self.record = Some(boost);
                Reply::Done
            }
            Request::Signalled => Reply::Flag(false),
            Request::Exists(_) => Reply::Flag(self.stop_file),
            Request::Remove(_) => {
                self.stop_file = false;
                Reply::Done
            }
            Request::Write { bytes, .. } => {
                assert_eq!(bytes, b"stop\n");
                self.stop_file = true;
                Reply::Done
            }
            Request::Now => Reply::Time(self.seconds()),
            Request::Millis => Reply::Time(START * 1_000 + (self.now / 1_000_000) as i64),
            Request::Micros => Reply::Time(START * 1_000_000),
            Request::ProcessId => Reply::Number(42),
            Request::Instant => Reply::Number(self.now),
            Request::Sleep(span) => {
                self.now += span;
                Reply::Done
            }
            Request::WaitQuotas(span) => match self.quotas() {
                Some(quotas) => Reply::Quotas(quotas),
                None => {
                    self.now += span;
                    Reply::Missing
                }
            },
            Request::NextQuotas => match self.quotas() {
                Some(quotas) => Reply::Quotas(quotas),
                None => Reply::Missing,
            },
            Request::Dial(path) => {
                assert_eq!(path, SOCKET);
                if self.endpoint_available {
                    Reply::Done
                } else {
                    Reply::Failed(Error::Io { path, detail: "not found".to_owned() })
                }
            }
            Request::Call { method, params } => match self.handle(&method, &params) {
                Ok(result) => Reply::Message(result),
                Err(message) => {
                    Reply::Failed(Error::Protocol(format!("{method} failed: {message}")))
                }
            },
            Request::StartServer { .. } | Request::StopServer => Reply::Done,
            Request::Send(message) => {
                self.serve(&message);
                Reply::Done
            }
            Request::Receive => Reply::Message(self.queue.remove(0)),
            Request::Print(line) => {
                self.printed.push(line);
                Reply::Done
            }
            Request::OpenLog(_) => Reply::Done,
            Request::Spawn(arguments) => {
                assert_eq!(arguments[..2], ["boost".to_owned(), "run".to_owned()]);
                self.locked = true;
                Reply::Done
            }
            Request::ChildExit => Reply::Missing,
            Request::Cancelled => Reply::Flag(false),
            Request::Profiles => Reply::Profiles(self.accounts.drain(..).collect()),
            Request::QueryProfiles(slots) => {
                assert_eq!(slots, vec![3]);
                Reply::Done
            }
            Request::Observation(_) => Reply::Usage(reading(42.0, 7).remove(0).usage),
            _ => panic!("unexpected request"),
        }
    }

    fn drive<T>(
        &mut self,
        mut step: impl FnMut(&Vec<Reply>, &mut usize) -> Result<T, Halt>,
    ) -> (Result<T, Error>, Vec<Reply>) {
        let mut log = Vec::new();
        loop {
            let mut at = 0;
            match step(&log, &mut at) {
                Ok(value) => return (Ok(value), log),
                Err(Halt::Fail(error)) => return (Err(error), log),
                Err(Halt::Ask(request)) => {
                    let reply = self.perform(request);
                    log.push(reply);
                }
            }
        }
    }

    fn command(&mut self, command: BoostCommand) -> Result<Vec<String>, Error> {
        let config = config();
        match self.drive(|log, at| run(&command, &config, log, at)).0? {
            Job::Print(lines) => Ok(lines),
            Job::Control(_) => panic!("unexpected job"),
        }
    }

    /// Runs a controller to its end; `step` may change the world before each round.
    fn control(&mut self, seconds: i64, mut step: impl FnMut(&mut World, usize)) -> Result<(), Error> {
        let config = config();
        let deadline = START + seconds;
        let paths = vec![SOCKET.to_owned()];
        let mut state = self
            .drive(|log, at| take_control(&config, deadline, &paths, "run-1", log, at))
            .0?
            .unwrap();
        let outcome = self.rounds(&config, &mut state, &mut step);
        let start = state.copy();
        self.drive(|log, at| {
            let mut current = start.copy();
            finish(&config, &mut current, copy_outcome(&outcome), log, at)
        })
        .0
    }

    fn rounds(
        &mut self,
        config: &Config,
        state: &mut State,
        step: &mut impl FnMut(&mut World, usize),
    ) -> Result<String, Error> {
        let start = state.copy();
        let (begun, mut log) = self.drive(|log, at| {
            *state = start.copy();
            begin(config, state, log, at)
        });
        let mut place = match begun? {
            Begun::Over(reason) => return Ok(reason),
            Begun::Ready(place) => place,
        };
        let mut last = self.now;
        let mut previous = take_quotas(&mut log, place);
        for turn in 0.. {
            step(self, turn);
            let start = state.copy();
            let (outcome, mut log) = self.drive(|log, at| {
                *state = start.copy();
                round(config, state, &previous, last, log, at)
            });
            match outcome? {
                Round::Over(reason) => return Ok(reason),
                Round::Again { latest, seen } => {
                    last = seen;
                    if let Some(found) = latest {
                        place = found;
                        previous = take_quotas(&mut log, place);
                    }
                }
            }
        }
        unreachable!()
    }
}

fn take_quotas(log: &mut Vec<Reply>, place: usize) -> Vec<Observation> {
    match log.swap_remove(place) {
        Reply::Quotas(quotas) => quotas,
        _ => panic!("no quotas"),
    }
}

fn copy_outcome(outcome: &Result<String, Error>) -> Result<String, Error> {
    match outcome {
        Ok(reason) => Ok(reason.clone()),
        Err(error) => Err(error.clone()),
    }
}

fn assert_set_back(world: &World, id: &str) {
    let thread = &world.threads[id];
    assert_eq!(thread.model, "gpt-6-astra");
    assert_eq!(thread.effort, "medium");
    assert_eq!(thread.tier.as_deref(), Some("default"));
    assert!(thread.turn.as_ref().is_none_or(|turn| turn.1 != "inProgress"));
}

#[test]
fn boost_deadline_updates_active_new_and_child_tasks_then_restores_standard() {
    let mut world = World::with_tasks(&[42.0]);
    let result = world.control(5, |world, turn| match turn {
        1 => {
            assert_eq!(world.threads["root-1"].effort, "ultra");
            assert_eq!(world.threads["root-1"].tier.as_deref(), Some("priority"));
            assert_eq!(world.threads["child-1"].effort, "ultra");
            assert!(world.event("turn/settings/update", "child-1", Some("ultra")).is_some());
            let interrupted = world.event("turn/interrupt", "root-1", None).unwrap();
            let settings = world.event("thread/settings/update", "root-1", Some("ultra")).unwrap();
            let continued = world.event("turn/start", "root-1", Some("ultra")).unwrap();
            assert!(interrupted < settings && settings < continued);
            assert!(world.event("turn/start", "child-1", None).is_none());
            assert!(world.event("config/batchWrite", "", None).is_none());
            assert_eq!(world.defaults["model"], "gpt-5.6-sol");
            assert_eq!(world.record.as_ref().unwrap().phase, Phase::Active);
            world.load("root-2", root());
        }
        2 => {
            assert_eq!(world.threads["root-2"].tier.as_deref(), Some("priority"));
            assert!(world.event("turn/interrupt", "root-2", None).is_some());
            assert!(world.event("turn/start", "root-2", Some("ultra")).is_some());
        }
        _ => {}
    });
    assert!(result.is_ok());

    let stopped = world.record.as_ref().unwrap();
    assert_eq!(stopped.phase, Phase::Stopped);
    assert_eq!(stopped.reason.as_deref(), Some("Deadline reached"));
    assert!(stopped.tasks.is_empty());
    assert_eq!(world.defaults["model"], "gpt-6-astra");
    assert_eq!(world.defaults["model_reasoning_effort"], "medium");
    assert_eq!(world.defaults["plan_mode_reasoning_effort"], "medium");
    assert_eq!(world.defaults["service_tier"], "default");
    assert_eq!(world.defaults["features.fast_mode"], "true");
    for id in ["root-1", "root-2", "child-1"] {
        assert_set_back(&world, id);
    }
    assert!(world.event("turn/interrupt", "child-1", None).is_some());
}

#[test]
fn boost_skips_no_rollout_tasks_until_work_materializes() {
    let mut world = World::new(&[42.0]);
    world.load("empty-1", empty());
    let result = world.control(20, |world, turn| match turn {
        1 => {
            assert!(world.record.as_ref().unwrap().tasks.is_empty());
            assert_eq!(world.threads["empty-1"], empty());
            assert!(world.event("turn/start", "empty-1", None).is_none());
            assert!(world.event("thread/settings/update", "empty-1", None).is_none());
            world.load("empty-2", empty());
        }
        2 => {
            assert!(world.event("thread/read", "empty-2", None).is_some());
            assert!(world.record.as_ref().unwrap().tasks.is_empty());
            assert_eq!(world.threads["empty-2"], empty());
            let thread = world.threads.get_mut("empty-1").unwrap();
            thread.active = true;
            thread.materialized = true;
            thread.turn = Some(("external-empty-1".to_owned(), "inProgress"));
        }
        3 => {
            assert_eq!(world.threads["empty-1"].tier.as_deref(), Some("priority"));
            let interrupted = world.event("turn/interrupt", "empty-1", None).unwrap();
            let continued = world.event("turn/start", "empty-1", Some("ultra")).unwrap();
            assert!(interrupted < continued);
            assert_eq!(world.record.as_ref().unwrap().tasks.len(), 1);
            world.stop_file = true;
        }
        _ => {}
    });
    assert!(result.is_ok());

    let stopped = world.record.as_ref().unwrap();
    assert_eq!(stopped.phase, Phase::Stopped);
    assert_eq!(stopped.reason.as_deref(), Some("Stop requested"));
    assert!(stopped.tasks.is_empty());
    assert_set_back(&world, "empty-1");
    assert_eq!(world.threads["empty-1"].turn.as_ref().unwrap().1, "interrupted");
    assert_eq!(world.threads["empty-2"], empty());
    assert!(world.event("turn/start", "empty-2", None).is_none());
    assert!(world.event("thread/settings/update", "empty-2", None).is_none());
}

#[test]
fn boost_weekly_reset_stops_before_its_future_deadline() {
    let mut world = World::with_tasks(&[72.0, 4.0]);
    let result = world.control(25, |world, turn| {
        if turn == 1 {
            assert!(world.event("turn/start", "root-1", Some("ultra")).is_some());
        }
    });
    assert!(result.is_ok());

    let stopped = world.record.as_ref().unwrap();
    assert_eq!(stopped.phase, Phase::Stopped);
    assert!(stopped.reason.as_ref().unwrap().contains("weekly quota reset observed"));
    assert!(stopped.deadline > world.seconds());
    assert!(world.quota_index >= 2);
    assert_eq!(world.defaults["model_reasoning_effort"], "medium");
    assert_eq!(world.defaults["service_tier"], "default");
}

#[test]
fn boost_preflight_failure_does_not_mutate_defaults_or_tasks() {
    for (model_available, endpoint_available, expected) in [
        (false, true, "Astra is not available"),
        (true, false, "Cannot control Codex"),
    ] {
        let mut world = World::with_tasks(&[50.0]);
        world.model_available = model_available;
        world.endpoint_available = endpoint_available;
        let threads = world.threads.clone();
        let defaults = world.defaults.clone();

        let error = world
            .command(BoostCommand::Start {
                until: "2026-09-12T09:00:00Z".to_owned(),
                socket: vec![SOCKET.to_owned()],
            })
            .err()
            .unwrap();

        assert!(error.text().contains(expected), "{}", error.text());
        assert_eq!(world.threads, threads);
        assert_eq!(world.defaults, defaults);
        assert!(world.events.is_empty());
        assert!(world.record.is_none());
    }
}

#[test]
fn boost_stop_recovers_recorded_pending_cleanup() {
    let mut world = World::with_tasks(&[50.0]);
    world.load("empty-legacy", empty());
    let task = |id: &str| Task {
        socket: SOCKET.to_owned(),
        thread_id: id.to_owned(),
        child: false,
    };
    world.record = Some(State {
        run_id: "recorded-run".to_owned(),
        phase: Phase::CleanupRequired,
        deadline: START + 300,
        sockets: vec![SOCKET.to_owned()],
        tasks: vec![task("root-1"), task("empty-legacy")],
        activated: true,
        defaults_pending: true,
        reason: Some("controller interrupted".to_owned()),
        errors: vec!["recorded cleanup is pending".to_owned()],
    });

    let lines = world.command(BoostCommand::Stop).ok().unwrap();

    assert!(lines[0].contains("Boost stopped"));
    let recovered = world.record.as_ref().unwrap();
    assert_eq!(recovered.phase, Phase::Stopped);
    assert!(recovered.tasks.is_empty());
    assert!(!recovered.defaults_pending);
    for id in ["root-1", "child-1"] {
        assert_eq!(world.threads[id].effort, "medium");
        assert_eq!(world.threads[id].tier.as_deref(), Some("default"));
    }
    assert_eq!(world.threads["empty-legacy"], empty());
    assert!(world.event("thread/settings/update", "empty-legacy", None).is_none());
    assert_eq!(world.defaults["service_tier"], "default");
}

#[test]
fn a_cleanup_that_fails_is_owed() {
    let mut world = World::with_tasks(&[50.0]);
    world.endpoint_available = false;
    world.record = Some(State {
        run_id: "recorded-run".to_owned(),
        phase: Phase::Active,
        deadline: START + 300,
        sockets: vec![SOCKET.to_owned()],
        tasks: vec![Task {
            socket: SOCKET.to_owned(),
            thread_id: "root-1".to_owned(),
            child: false,
        }],
        activated: true,
        defaults_pending: true,
        reason: None,
        errors: vec![],
    });

    assert!(world.command(BoostCommand::Stop).is_err());

    let owed = world.record.as_ref().unwrap();
    assert_eq!(owed.phase, Phase::CleanupRequired);
    assert!(!owed.errors.is_empty());
    assert_eq!(owed.tasks.len(), 1);
}

#[test]
fn a_boost_is_started_in_the_background() {
    let mut world = World::with_tasks(&[50.0]);
    let lines = world
        .command(BoostCommand::Start {
            until: "2026-09-12T09:00:00Z".to_owned(),
            socket: vec![SOCKET.to_owned()],
        })
        .ok()
        .unwrap();

    assert_eq!(lines[0], "Boost controller started; preparing 1 server(s).");
    assert_eq!(world.record.as_ref().unwrap().phase, Phase::Preparing);
    let status = world.command(BoostCommand::Status).ok().unwrap();
    assert!(status[0].contains("controller running"));
    assert_eq!(status[1], "Deadline: 2026-09-12T09:00:00+00:00");
    world.command(BoostCommand::Stop).ok().unwrap();
    assert!(world.stop_file);
    assert!(world.printed[0].starts_with("Stop requested."));
}

#[test]
fn a_boost_that_is_off_says_so() {
    let mut world = World::new(&[50.0]);
    assert!(world.command(BoostCommand::Status).ok().unwrap()[0].starts_with("Boost is off."));
    assert_eq!(world.command(BoostCommand::Stop).ok().unwrap(), vec!["Boost is off.".to_owned()]);
}

#[test]
fn a_boost_without_fresh_quotas_ends() {
    let mut world = World::with_tasks(&[50.0]);
    let error = world
        .control(300, |world, turn| {
            world.next_quota = u64::MAX;
            world.now += if turn == 2 { 90 * SECOND } else { 0 };
        })
        .err()
        .unwrap();

    assert!(error.text().contains("No fresh quota observations"));
    assert_eq!(world.record.as_ref().unwrap().phase, Phase::Stopped);
    assert_set_back(&world, "root-1");
}

#[test]
fn resets_are_seen_on_any_account() {
    assert_eq!(reset_account(&reading(72.0, 1), &reading(4.0, 2)), Some(1));
    assert_eq!(reset_account(&reading(72.0, 1), &reading(73.0, 2)), None);
    assert_eq!(reset_account(&vec![], &reading(4.0, 2)), None);
}

fn profile(slot: u32) -> Profile {
    let claims = r#"{"https://api.openai.com/auth": {"chatgpt_user_id": "user-one"}}"#;
    let token = format!("header.{}.signature", URL_SAFE_NO_PAD.encode(claims));
    let bytes = format!(
        r#"{{"tokens": {{"id_token": "{token}", "access_token": "a", "refresh_token": "r",
            "account_id": "account-one"}}}}"#
    );
    let auth = AuthDocument::read("/auth.json", bytes.into_bytes()).ok().unwrap();
    Profile { slot, auth }
}

#[test]
fn quotas_are_collected_from_every_account() {
    let config = config();
    let mut world = World::new(&[1.0]);
    world.accounts.push(profile(3));
    let (outcome, _) = world.drive(|log, at| {
        let readings = collect_quotas(&config, log, at)?;
        Ok((readings.len(), readings[0].0, readings[0].1.observed_at))
    });
    assert_eq!(outcome.ok(), Some((1, 3, 7)));

    let (outcome, _) = world.drive(|log, at| match collect_quotas(&config, log, at) {
        Ok(_) => Ok(()),
        Err(halt) => Err(halt),
    });
    assert_eq!(outcome.err().unwrap().text(), "No enrolled accounts. Run `cxa init` first.");
}

#[test]
fn sockets_are_sorted_and_named_once() {
    let given = ["/b", "/a/z", "/a/", "/a", "/b/./"].map(|path| path.to_owned()).to_vec();
    let found = sockets(&config(), &given).ok().unwrap();
    assert_eq!(found, vec!["/a/", "/a/z", "/b"]);
    assert!(sockets(&config(), &vec!["relative".to_owned()]).is_err());
    assert_eq!(sockets(&config(), &vec![]).ok().unwrap().len(), 1);
}

#[test]
fn tasks_are_kept_in_order() {
    let task = |id: &str, child: bool| Task {
        socket: SOCKET.to_owned(),
        thread_id: id.to_owned(),
        child,
    };
    let mut tasks = Vec::new();
    for id in ["b", "a", "c", "a"] {
        insert_task(&mut tasks, task(id, false));
    }
    let ids: Vec<&str> = tasks.iter().map(|task| task.thread_id.as_str()).collect();
    assert_eq!(ids, vec!["a", "b", "c"]);
    remove_task(&mut tasks, &task("b", false));
    assert_eq!(tasks.len(), 2);
}

#[test]
fn settings_tell_a_boosted_task() {
    let boosted = r#"{"model": "gpt-6-astra", "reasoningEffort": "ultra", "serviceTier": "priority"}"#;
    let baseline = r#"{"model": "gpt-6-astra", "reasoningEffort": "medium", "serviceTier": "default"}"#;
    assert!(settings_match(&json(boosted), true));
    assert!(!settings_match(&json(boosted), false));
    assert!(settings_match(&json(baseline), false));
    let state = State::preparing("run", START, &vec![SOCKET.to_owned()]);
    let lines = describe(&state, false, Some("then".to_owned()));
    assert_eq!(lines[0], "Boost: Preparing; controller not running");
    assert_eq!(lines[1], "Deadline: then");
}
