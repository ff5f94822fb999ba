//! The commands of the program.
use crate::app_server::{credentials_run, require_file_credentials};
use crate::account_store::{resolve_run, selected_run, Profile, Store};
use crate::auth::AuthDocument;
use crate::config::Config;
use crate::effects::{
    answer, answer_run, ask, auth, auth_if_valid, auth_if_valid_run, auth_run, done, done_run, flag,
    flag_run, mismatch, mismatched, profiles, profiles_run, reply_run, time, time_run, told,
    told_opt, told_text, Halt, Reply, Request, RequestView, Run,
};
use crate::error::{Error, ErrorView};
use crate::paths::{join, joined};
use crate::switching::{
    credential_status_run, enroll_run, replace_run, switch_to_run, sync_session_run,
};
use crate::terminal::{
    opt_record, paint, plan_name, plan_of, recency, render_usage, spinner_frame, styled,
    usage_plan, usage_recency, usage_text, watch_exit_requested, watch_exit_run, Style, ACCENT,
    EMPHASIS, MUTED, SUCCESS, WARNING,
};
use crate::text::{
    ascii_lower, chars_of, copy_opt, decimal, decimal_text, first_at, lowered, opt_text, opt_texts,
    padded, same, starts_with, text_of, trim, trimmed, two_digits,
};
use crate::usage::{UsageBucket, UsageRecord, UsageView};
use vstd::prelude::*;

verus! {

/// How often a list that waits is drawn, in nanoseconds.
pub const FRAME_TIME: u64 = 80_000_000;

// ---------------------------------------------------------------- commands

/// What the program can be asked to do.
pub enum CliCommand {
    /// Import the current Codex login and select it as the first account.
    Init { yes: bool },
    /// List enrolled accounts and their quota.
    List { watch: bool, interval: u64 },
    /// Keep the live quota dashboard open.
    Watch { interval: u64 },
    /// Show the selected account and credential-file state.
    Status,
    /// Switch by slot number or a unique part of the account email.
    Use { account: String },
    /// Enroll a new ChatGPT OAuth account.
    Add { device_auth: bool, options: Vec<Option<String>> },
    /// Import an existing Codex auth.json file.
    Import { auth_file: String },
    /// Re-authenticate an existing account.
    Relogin { account: String, options: Vec<Option<String>> },
}

/// What is on the command line.
pub struct Cli {
    pub command: Option<CliCommand>,
    pub account: Option<String>,
}

/// The name of an option, without what may follow an equals sign.
pub open spec fn option_name(option: Seq<char>) -> Seq<char> {
    option.take(first_at(option, '='))
}

/// Whether an option asks for credentials of another kind.
pub open spec fn foreign_option(option: Option<String>) -> bool {
    match option {
        Some(text) => option_name(text@) == "--with-api-key"@ || option_name(text@)
            == "--with-access-token"@,
        None => false,
    }
}

/// The first option that asks for credentials of another kind.
pub open spec fn first_foreign(options: Seq<Option<String>>) -> Option<Seq<char>>
    decreases options.len(),
{
    if options.len() == 0 {
        None
    } else if foreign_option(options[0]) {
        Some(option_name(options[0]->0@))
    } else {
        first_foreign(options.skip(1))
    }
}

pub open spec fn foreign_text(name: Seq<char>) -> Seq<char> {
    "cxa requires ChatGPT OAuth credentials; "@ + name + " is not supported."@
}

fn name_of(option: &str) -> (r: String)
    ensures
        r@ == option_name(option@),
{
    let chars = chars_of(option);
    let mut i: usize = 0;
    proof {
        assert(chars@.skip(0) =~= chars@);
    }
    while i < chars.len() && chars[i] != '='
        invariant
            i <= chars.len(),
            chars@ == option@,
            first_at(chars@, '=') == i + first_at(chars@.skip(i as int), '='),
        decreases chars.len() - i,
    {
        proof {
            assert(chars@.skip(i as int)[0] == chars@[i as int]);
            assert(chars@.skip(i as int).skip(1) =~= chars@.skip(i + 1));
        }
        i += 1;
    }
    proof {
        if i < chars.len() {
            assert(chars@.skip(i as int)[0] == chars@[i as int]);
        }
        assert(chars@.subrange(0, i as int) =~= option@.take(i as int));
    }
    text_of(&chars, 0, i)
}

/// Refuses options that ask for credentials of another kind. `None` stands for an option that is
/// not text.
pub fn reject_non_oauth(options: &Vec<Option<String>>) -> (r: Result<(), Error>)
    ensures
        match r {
            Ok(_) => first_foreign(options@) is None,
            Err(error) => match first_foreign(options@) {
                Some(name) => error@ == ErrorView::Message(foreign_text(name)),
                None => false,
            },
        },
{
    let mut i: usize = 0;
    proof {
        assert(options@.skip(0) =~= options@);
    }
    while i < options.len()
        invariant
            i <= options.len(),
            first_foreign(options@) == first_foreign(options@.skip(i as int)),
        decreases options.len() - i,
    {
        proof {
            assert(options@.skip(i as int)[0] == options@[i as int]);
            assert(options@.skip(i as int).skip(1) =~= options@.skip(i + 1));
        }
        if let Some(option) = &options[i] {
            let name = name_of(option);
            if same(&name, "--with-api-key") || same(&name, "--with-access-token") {
                return Err(
                    Error::Message(
                        "cxa requires ChatGPT OAuth credentials; ".to_owned().concat(
                            &name,
                        ).concat(" is not supported."),
                    ),
                );
            }
        }
        i += 1;
    }
    Ok(())
}

// ---------------------------------------------------------------- labels

/// A time span in minutes and seconds.
pub open spec fn interval_text(seconds: u64) -> Seq<char> {
    if seconds >= 60 {
        decimal_text((seconds / 60) as nat) + "m "@ + two_digits((seconds % 60) as nat) + "s"@
    } else {
        decimal_text(seconds as nat) + "s"@
    }
}

/// A time span in minutes and seconds.
pub fn interval_label(seconds: u64) -> (r: String)
    ensures
        r@ == interval_text(seconds),
{
    if seconds >= 60 {
        decimal(seconds / 60).concat("m ").concat(&padded(seconds % 60)).concat("s")
    } else {
        decimal(seconds).concat("s")
    }
}

/// The line at the bottom of a watched list.
pub open spec fn watch_text(remaining: u64, restart_required: bool) -> Seq<char> {
    if restart_required {
        styled(Style::Warning, "! Restart Codex/ChatGPT"@) + " "@ + styled(
            Style::Muted,
            "· refresh in "@ + interval_text(remaining) + " · Ctrl-C to exit"@,
        )
    } else {
        styled(
            Style::Muted,
            "Watching · refresh in "@ + interval_text(remaining) + " · Ctrl-C to exit"@,
        )
    }
}

/// The line at the bottom of a watched list.
pub fn watch_status(remaining: u64, restart_required: bool) -> (r: String)
    ensures
        r@ == watch_text(remaining, restart_required),
{
    let label = interval_label(remaining);
    if restart_required {
        paint(WARNING, "! Restart Codex/ChatGPT").concat(" ").concat(
            &paint(
                MUTED,
                &"· refresh in ".to_owned().concat(&label).concat(" · Ctrl-C to exit"),
            ),
        )
    } else {
        paint(
            MUTED,
            &"Watching · refresh in ".to_owned().concat(&label).concat(" · Ctrl-C to exit"),
        )
    }
}

/// What is said where a running session has to be restarted.
pub open spec fn notice_text() -> Seq<char> {
    styled(Style::Warning, "!"@)
        + " Restart Codex or ChatGPT before expecting an existing session to use this account."@
}

fn restart_notice() -> (r: String)
    ensures
        r@ == notice_text(),
{
    paint(WARNING, "!").concat(
        " Restart Codex or ChatGPT before expecting an existing session to use this account.",
    )
}

/// What an account is called.
pub open spec fn label_of(profile: Profile) -> Seq<char> {
    profile.auth.identity@.label()
}

/// What begins the line of an account.
pub open spec fn head_text(profile: Profile, selected: bool) -> Seq<char> {
    styled(
        Style::Accent,
        (if selected {
            "*"@
        } else {
            " "@
        }) + " "@ + decimal_text(profile.slot as nat),
    ) + "  "@ + styled(Style::Emphasis, label_of(profile))
}

fn head(profile: &Profile, selected: bool) -> (r: String)
    ensures
        r@ == head_text(*profile, selected),
{
    let marker = if selected {
        "*"
    } else {
        " "
    };
    paint(ACCENT, &marker.to_owned().concat(" ").concat(&decimal(profile.slot as u64))).concat(
        "  ",
    ).concat(&paint(EMPHASIS, profile.auth.identity.label()))
}

/// The line of an account whose quota is being read.
pub open spec fn loading_text(profile: Profile, selected: bool, picture: Seq<char>) -> Seq<char> {
    head_text(profile, selected) + "  "@ + styled(Style::Accent, picture) + " "@ + styled(
        Style::Muted,
        "loading"@,
    ) + "\n"@
}

/// The picture of a spinner at its turn.
pub open spec fn picture(turn: usize) -> Seq<char> {
    match turn % 10 {
        0 => "⠋"@,
        1 => "⠙"@,
        2 => "⠹"@,
        3 => "⠸"@,
        4 => "⠼"@,
        5 => "⠴"@,
        6 => "⠦"@,
        7 => "⠧"@,
        8 => "⠇"@,
        _ => "⠏"@,
    }
}

/// What is said of an account's plan and of when its quota was read.
pub open spec fn aside(plan: Option<Seq<char>>, when: Option<Seq<char>>) -> Seq<char> {
    match (plan, when) {
        (Some(plan), Some(when)) => "  "@ + styled(Style::Muted, plan + " · "@ + when),
        (Some(plan), None) => "  "@ + styled(Style::Muted, plan),
        (None, Some(when)) => "  "@ + styled(Style::Muted, when),
        (None, None) => Seq::empty(),
    }
}

/// The name of the plan that an account's groups of models agree on.
pub open spec fn plan_text(usage: Option<UsageRecord>) -> Option<Seq<char>> {
    match usage {
        Some(usage) => if exists|plan: Seq<char>| plan_of(usage, plan) {
            Some(plan_name(choose|plan: Seq<char>| plan_of(usage, plan)))
        } else {
            None
        },
        None => None,
    }
}

/// When an account's quota was read.
pub open spec fn when_text(usage: Option<UsageRecord>, now: i64) -> Option<Seq<char>> {
    match usage {
        Some(usage) => Some(recency(usage, now)),
        None => None,
    }
}

/// The lines of an account.
pub open spec fn profile_text(
    profile: Profile,
    selected: bool,
    usage: Option<UsageRecord>,
    now: i64,
) -> Seq<char> {
    head_text(profile, selected) + aside(plan_text(usage), when_text(usage, now)) + "\n"@
        + usage_text(usage, now)
}

proof fn lemma_one_plan(usage: UsageRecord, a: Seq<char>, b: Seq<char>)
    requires
        plan_of(usage, a),
        plan_of(usage, b),
    ensures
        a == b,
{
    let i = choose|i: int|
        0 <= i < usage.buckets@.len() && crate::terminal::has_plan(
            #[trigger] usage.buckets@[i],
            a,
        );
    assert(usage.buckets@[i].plan_type is Some);
}

fn plan_label_of(usage: Option<&UsageRecord>) -> (r: Option<String>)
    ensures
        crate::text::opt_text(r) == plan_text(opt_record(usage)),
{
    let plan = usage_plan(usage);
    proof {
        if let Some(record) = usage {
            if plan is Some {
                let p = choose|p: Seq<char>| #[trigger]
                    plan_of(*record, p) && plan->0@ == plan_name(p);
                assert(exists|q: Seq<char>| plan_of(*record, q));
                let q = choose|q: Seq<char>| plan_of(*record, q);
                lemma_one_plan(*record, p, q);
            }
        }
    }
    plan
}

/// The lines of an account.
pub fn profile_lines(profile: &Profile, selected: bool, usage: Option<&UsageRecord>, now: i64) -> (r:
    String)
    ensures
        r@ == profile_text(*profile, selected, opt_record(usage), now),
{
    let line = head(profile, selected);
    let plan = plan_label_of(usage);
    let when = usage_recency(usage, now);
    let more = match (&plan, &when) {
        (Some(plan), Some(when)) => "  ".to_owned().concat(
            &paint(MUTED, &plan.clone().concat(" · ").concat(when)),
        ),
        (Some(plan), None) => "  ".to_owned().concat(&paint(MUTED, plan)),
        (None, Some(when)) => "  ".to_owned().concat(&paint(MUTED, when)),
        (None, None) => String::new(),
    };
    line.concat(&more).concat("\n").concat(&render_usage(usage, now))
}

/// What is known of an account's quota.
pub enum ProfileUsage {
    Loading,
    Ready(Option<UsageRecord>),
}

/// The lines of an account, in whatever state its quota is.
pub open spec fn entry_text(
    profile: Profile,
    selected: Option<u32>,
    state: ProfileUsage,
    now: i64,
    turn: usize,
) -> Seq<char> {
    let chosen = selected == Some(profile.slot);
    match state {
        ProfileUsage::Loading => loading_text(profile, chosen, picture(turn)),
        ProfileUsage::Ready(usage) => profile_text(profile, chosen, usage, now),
    }
}

/// The lines of accounts, with an empty line between two of them.
pub open spec fn list_text(
    accounts: Seq<Profile>,
    selected: Option<u32>,
    states: Seq<ProfileUsage>,
    now: i64,
    turn: usize,
) -> Seq<char>
    decreases accounts.len(),
{
    if accounts.len() == 0 {
        Seq::empty()
    } else {
        let last = entry_text(accounts.last(), selected, states[accounts.len() - 1], now, turn);
        if accounts.len() == 1 {
            last
        } else {
            list_text(accounts.drop_last(), selected, states, now, turn) + "\n"@ + last
        }
    }
}

fn entry(
    profile: &Profile,
    selected: Option<u32>,
    state: &ProfileUsage,
    now: i64,
    turn: usize,
) -> (r: String)
    ensures
        r@ == entry_text(*profile, selected, *state, now, turn),
{
    let chosen = selected == Some(profile.slot);
    match state {
        ProfileUsage::Loading => head(profile, chosen).concat("  ").concat(
            &paint(ACCENT, spinner_frame(turn)),
        ).concat(" ").concat(&paint(MUTED, "loading")).concat("\n"),
        ProfileUsage::Ready(usage) => {
            let record = match usage {
                Some(record) => Some(record),
                None => None,
            };
            profile_lines(profile, chosen, record, now)
        },
    }
}

/// The lines of accounts, with an empty line between two of them.
pub fn profile_list(
    accounts: &Vec<Profile>,
    selected: Option<u32>,
    states: &Vec<ProfileUsage>,
    now: i64,
    turn: usize,
) -> (r: String)
    requires
        states.len() == accounts.len(),
    ensures
        r@ == list_text(accounts@, selected, states@, now, turn),
{
    let mut out = String::new();
    let mut i: usize = 0;
    proof {
        assert(accounts@.take(0) =~= Seq::empty());
    }
    while i < accounts.len()
        invariant
            i <= accounts.len(),
            states.len() == accounts.len(),
            out@ == list_text(accounts@.take(i as int), selected, states@, now, turn),
        decreases accounts.len() - i,
    {
        proof {
            assert(accounts@.take(i + 1).drop_last() =~= accounts@.take(i as int));
            assert(accounts@.take(i + 1).last() == accounts@[i as int]);
        }
        let lines = entry(&accounts[i], selected, &states[i], now, turn);
        if i == 0 {
            out = lines;
        } else {
            out = out.concat("\n").concat(&lines);
        }
        i += 1;
    }
    proof {
        assert(accounts@.take(i as int) =~= accounts@);
    }
    out
}

/// How many lines a group of models takes.
pub open spec fn bucket_lines(bucket: UsageBucket) -> nat {
    1 + bucket.named_windows().len()
}

/// How many lines groups of models take.
pub open spec fn buckets_lines(buckets: Seq<UsageBucket>) -> nat
    decreases buckets.len(),
{
    if buckets.len() == 0 {
        0
    } else {
        buckets_lines(buckets.drop_last()) + bucket_lines(buckets.last())
    }
}

/// How many lines an account takes.
pub open spec fn profile_lines_count(usage: Option<UsageRecord>) -> nat {
    1 + (match usage {
        None => 1,
        Some(usage) => if usage.error is Some || usage.buckets@.len() == 0 {
            1
        } else {
            buckets_lines(usage.buckets@)
        },
    })
}

proof fn lemma_lines_grow(buckets: Seq<UsageBucket>, k: int)
    requires
        0 <= k <= buckets.len(),
    ensures
        buckets_lines(buckets.take(k)) <= buckets_lines(buckets),
    decreases buckets.len() - k,
{
    if k < buckets.len() {
        lemma_lines_grow(buckets, k + 1);
        assert(buckets.take(k + 1).drop_last() =~= buckets.take(k));
    } else {
        assert(buckets.take(k) =~= buckets);
    }
}

/// How many lines an account takes.
pub fn profile_line_count(usage: Option<&UsageRecord>) -> (r: usize)
    requires
        profile_lines_count(opt_record(usage)) <= usize::MAX,
    ensures
        r == profile_lines_count(opt_record(usage)),
{
    let record = match usage {
        Some(record) => record,
        None => return 2,
    };
    if record.error.is_some() || record.buckets.len() == 0 {
        return 2;
    }
    let mut lines: usize = 1;
    let mut i: usize = 0;
    proof {
        assert(record.buckets@.take(0) =~= Seq::empty());
    }
    while i < record.buckets.len()
        invariant
            i <= record.buckets.len(),
            1 + buckets_lines(record.buckets@) <= usize::MAX,
            lines == 1 + buckets_lines(record.buckets@.take(i as int)),
        decreases record.buckets.len() - i,
    {
        proof {
            assert(record.buckets@.take(i + 1).drop_last() =~= record.buckets@.take(i as int));
        }
        let windows = record.buckets[i].windows();
        proof {
            assert(windows.len() == record.buckets@[i as int].named_windows().len());
            lemma_lines_grow(record.buckets@, i + 1);
        }
        lines = lines + 1 + windows.len();
        i += 1;
    }
    proof {
        assert(record.buckets@.take(i as int) =~= record.buckets@);
    }
    lines
}

// ---------------------------------------------------------------- quota readings

/// The reading to be recorded: a failed one does not replace an earlier success, of which only
/// the time of the last attempt changes.
pub open spec fn recorded(previous: Option<UsageView>, next: UsageView) -> UsageView {
    match previous {
        Some(old) => if next.error is Some && old.error is None {
            UsageView {
                last_attempted_at: if next.last_attempted_at >= next.observed_at {
                    next.last_attempted_at
                } else {
                    next.observed_at
                },
                ..old
            }
        } else {
            next
        },
        None => next,
    }
}

/// The reading that is recorded after several more.
pub open spec fn recorded_all(first: UsageView, more: Seq<UsageView>) -> UsageView
    decreases more.len(),
{
    if more.len() == 0 {
        first
    } else {
        recorded(Some(recorded_all(first, more.drop_last())), more.last())
    }
}

/// A success that was recorded stays, however many readings fail after it.
pub proof fn law_success_survives_failures(first: UsageView, more: Seq<UsageView>)
    requires
        first.error is None,
        forall|i: int| 0 <= i < more.len() ==> (#[trigger] more[i]).error is Some,
    ensures
        recorded_all(first, more) == (UsageView {
            last_attempted_at: recorded_all(first, more).last_attempted_at,
            ..first
        }),
    decreases more.len(),
{
    if more.len() > 0 {
        law_success_survives_failures(first, more.drop_last());
        assert(more.last().error is Some);
    }
}

pub open spec fn opt_usage(usage: Option<&UsageRecord>) -> Option<UsageView> {
    match usage {
        Some(usage) => Some(usage@),
        None => None,
    }
}

/// The reading to be recorded: a failed one does not replace an earlier success, of which only
/// the time of the last attempt changes.
pub fn usage_to_write(previous: Option<&UsageRecord>, next: &UsageRecord) -> (r: UsageRecord)
    ensures
        r@ == recorded(opt_usage(previous), next@),
{
    if !next.succeeded() {
        if let Some(old) = previous {
            if old.succeeded() {
                let mut retained = old.copy();
                retained.last_attempted_at = if next.last_attempted_at >= next.observed_at {
                    next.last_attempted_at
                } else {
                    next.observed_at
                };
                return retained;
            }
        }
    }
    next.copy()
}

// ---------------------------------------------------------------- a list that is drawn over

/// Where a list stands.
#[derive(Clone, Copy, PartialEq, Eq, Structural, Debug)]
pub enum ListStage {
    /// The list is drawn before anything has come.
    First,
    /// Waiting for a reading.
    Waiting,
    /// The list is drawn with what has come.
    Drawing,
    /// Looking for a request to end the watch.
    Looking,
    /// Waiting for all workers to end.
    Joining,
    /// The list is drawn for the last time.
    Last,
    /// The list is done.
    Over,
}

/// What has happened to a list.
pub enum ListEvent {
    Drawn,
    /// A reading came: whether the session changed by it, or why it failed.
    Received(Result<bool, Error>),
    /// Nothing came in time.
    Waited,
    /// Nothing will come any more.
    Disconnected,
    /// Whether the watch is to end.
    ExitAsked(bool),
    /// All workers have ended; whether each of them ended well.
    Joined(bool),
}

/// What is to be done about a list.
#[derive(Clone, Copy, PartialEq, Eq, Structural, Debug)]
pub enum ListAction {
    Draw,
    /// Wait for a reading, at most so long where a time is given.
    Wait(Option<u64>),
    LookForExit,
    Join,
    /// The list is done.
    Finish,
    /// The watch ends.
    Exit,
}

/// The course of a list: how many readings are to come and have come, and what they said.
pub struct Listing {
    pub active: bool,
    pub watch: bool,
    pub total: usize,
    pub completed: usize,
    pub turn: usize,
    pub session_changed: bool,
    pub first_error: Option<Error>,
    pub stage: ListStage,
}

/// What is known of the course of a list.
pub struct ListingView {
    pub active: bool,
    pub watch: bool,
    pub total: nat,
    pub completed: nat,
    pub turn: usize,
    pub session_changed: bool,
    pub first_error: Option<ErrorView>,
    pub stage: ListStage,
}

pub open spec fn opt_error(error: Option<Error>) -> Option<ErrorView> {
    match error {
        Some(error) => Some(error@),
        None => None,
    }
}

impl View for Listing {
    type V = ListingView;

    open spec fn view(&self) -> ListingView {
        ListingView {
            active: self.active,
            watch: self.watch,
            total: self.total as nat,
            completed: self.completed as nat,
            turn: self.turn,
            session_changed: self.session_changed,
            first_error: opt_error(self.first_error),
            stage: self.stage,
        }
    }
}

/// The next wait, or the end of the waiting.
pub open spec fn await_more(list: ListingView) -> (ListingView, ListAction) {
    if list.completed < list.total {
        (
            ListingView { stage: ListStage::Waiting, ..list },
            ListAction::Wait(
                if list.active {
                    Some(FRAME_TIME)
                } else {
                    None
                },
            ),
        )
    } else {
        (ListingView { stage: ListStage::Joining, ..list }, ListAction::Join)
    }
}

/// After the list was drawn, or need not be: a watched list looks for a request to end.
pub open spec fn look_or_wait(list: ListingView) -> (ListingView, ListAction) {
    if list.watch {
        (ListingView { stage: ListStage::Looking, ..list }, ListAction::LookForExit)
    } else {
        await_more(list)
    }
}

/// After a wait: a list on a terminal is drawn, with its pictures moved on.
pub open spec fn show_progress(list: ListingView) -> (ListingView, ListAction) {
    if list.active {
        (
            ListingView {
                turn: if list.turn < usize::MAX {
                    (list.turn + 1) as usize
                } else {
                    0
                },
                stage: ListStage::Drawing,
                ..list
            },
            ListAction::Draw,
        )
    } else {
        look_or_wait(list)
    }
}

/// The list with one more reading. Of several failures the first counts.
pub open spec fn with_reading(list: ListingView, reading: Result<bool, Error>) -> ListingView {
    ListingView {
        completed: list.completed + 1,
        session_changed: list.session_changed || reading == Ok::<bool, Error>(true),
        first_error: match (list.first_error, reading) {
            (None, Err(error)) => Some(error@),
            (first, _) => first,
        },
        ..list
    }
}

/// How a list begins.
pub open spec fn begun(list: ListingView) -> (ListingView, ListAction) {
    if list.active && list.total > 0 {
        (ListingView { stage: ListStage::First, ..list }, ListAction::Draw)
    } else {
        await_more(list)
    }
}

/// How a list goes on.
pub open spec fn continued(list: ListingView, event: ListEvent) -> (ListingView, ListAction) {
    match (list.stage, event) {
        (ListStage::First, ListEvent::Drawn) => await_more(list),
        (ListStage::Waiting, ListEvent::Received(reading)) => show_progress(
            with_reading(list, reading),
        ),
        (ListStage::Waiting, ListEvent::Waited) => show_progress(list),
        (ListStage::Waiting, ListEvent::Disconnected) => if list.active {
            (ListingView { stage: ListStage::Joining, ..list }, ListAction::Join)
        } else {
            show_progress(list)
        },
        (ListStage::Drawing, ListEvent::Drawn) => look_or_wait(list),
        (ListStage::Looking, ListEvent::ExitAsked(true)) => (
            ListingView { stage: ListStage::Over, ..list },
            ListAction::Exit,
        ),
        (ListStage::Looking, ListEvent::ExitAsked(false)) => await_more(list),
        (ListStage::Joining, ListEvent::Joined(fine)) => (
            ListingView {
                first_error: if !fine && list.first_error is None {
                    Some(ErrorView::Message("usage refresh worker failed"@))
                } else {
                    list.first_error
                },
                stage: ListStage::Last,
                ..list
            },
            ListAction::Draw,
        ),
        (ListStage::Last, ListEvent::Drawn) => (
            ListingView { stage: ListStage::Over, ..list },
            ListAction::Finish,
        ),
        (_, _) => (ListingView { stage: ListStage::Over, ..list }, ListAction::Finish),
    }
}

impl Listing {
    /// The course of a list that so many readings are to come for.
    pub fn new(active: bool, watch: bool, total: usize) -> (r: (Listing, ListAction))
        ensures
            (r.0@, r.1) == begun(
                ListingView {
                    active,
                    watch,
                    total: total as nat,
                    completed: 0,
                    turn: 0,
                    session_changed: false,
                    first_error: None,
                    stage: ListStage::Waiting,
                },
            ),
    {
        let mut list = Listing {
            active,
            watch,
            total,
            completed: 0,
            turn: 0,
            session_changed: false,
            first_error: None,
            stage: ListStage::Waiting,
        };
        if active && total > 0 {
            list.stage = ListStage::First;
            (list, ListAction::Draw)
        } else {
            let action = list.await_more();
            (list, action)
        }
    }

    fn await_more(&mut self) -> (r: ListAction)
        ensures
            (final(self)@, r) == await_more(old(self)@),
    {
        if self.completed < self.total {
            self.stage = ListStage::Waiting;
            ListAction::Wait(
                if self.active {
                    Some(FRAME_TIME)
                } else {
                    None
                },
            )
        } else {
            self.stage = ListStage::Joining;
            ListAction::Join
        }
    }

    fn look_or_wait(&mut self) -> (r: ListAction)
        ensures
            (final(self)@, r) == look_or_wait(old(self)@),
    {
        if self.watch {
            self.stage = ListStage::Looking;
            ListAction::LookForExit
        } else {
            self.await_more()
        }
    }

    fn show_progress(&mut self) -> (r: ListAction)
        ensures
            (final(self)@, r) == show_progress(old(self)@),
    {
        if self.active {
            self.turn = if self.turn < usize::MAX {
                self.turn + 1
            } else {
                0
            };
            self.stage = ListStage::Drawing;
            ListAction::Draw
        } else {
            self.look_or_wait()
        }
    }

    /// Takes an event in: what is to be done next.
    pub fn advance(&mut self, event: ListEvent) -> (r: ListAction)
        requires
            old(self).stage == ListStage::Waiting ==> old(self).completed < old(self).total,
        ensures
            (final(self)@, r) == continued(old(self)@, event),
            final(self).stage == ListStage::Waiting ==> final(self).completed < final(self).total,
    {
        match (self.stage, event) {
            (ListStage::First, ListEvent::Drawn) => self.await_more(),
            (ListStage::Waiting, ListEvent::Received(reading)) => {
                self.completed = self.completed + 1;
                match reading {
                    Ok(changed) => {
                        self.session_changed = self.session_changed || changed;
                    },
                    Err(error) => {
                        if self.first_error.is_none() {
                            self.first_error = Some(error);
                        }
                    },
                }
                self.show_progress()
            },
            (ListStage::Waiting, ListEvent::Waited) => self.show_progress(),
            (ListStage::Waiting, ListEvent::Disconnected) => if self.active {
                self.stage = ListStage::Joining;
                ListAction::Join
            } else {
                self.show_progress()
            },
            (ListStage::Drawing, ListEvent::Drawn) => self.look_or_wait(),
            (ListStage::Looking, ListEvent::ExitAsked(asked)) => if asked {
                self.stage = ListStage::Over;
                ListAction::Exit
            } else {
                self.await_more()
            },
            (ListStage::Joining, ListEvent::Joined(fine)) => {
                if !fine && self.first_error.is_none() {
                    self.first_error = Some(Error::message("usage refresh worker failed"));
                }
                self.stage = ListStage::Last;
                ListAction::Draw
            },
            (ListStage::Last, ListEvent::Drawn) => {
                self.stage = ListStage::Over;
                ListAction::Finish
            },
            _ => {
                self.stage = ListStage::Over;
                ListAction::Finish
            },
        }
    }

    /// What a list that is done comes to: whether the session changed, or the first failure.
    pub fn outcome(self) -> (r: Result<bool, Error>)
        ensures
            match r {
                Ok(changed) => self.first_error is None && changed == self.session_changed,
                Err(error) => self.first_error == Some(error),
            },
    {
        match self.first_error {
            Some(error) => Err(error),
            None => Ok(self.session_changed),
        }
    }
}

/// A list is drawn for the last time and done only after all workers have ended, and it waits only
/// while readings are missing.
pub proof fn law_list_waits_for_all(list: ListingView, event: ListEvent)
    requires
        list.stage == ListStage::Waiting ==> list.completed < list.total,
    ensures
        continued(list, event).1 is Wait ==> continued(list, event).0.completed < list.total,
        continued(list, event).1 == ListAction::Join && event !is Disconnected ==> continued(
            list,
            event,
        ).0.completed >= list.total,
        continued(list, event).0.stage == ListStage::Last ==> list.stage == ListStage::Joining,
{
}

/// Which accounts are read anew: all of them where that is asked for, else those whose quota is
/// not fresh, and none where reading is switched off.
pub open spec fn stale_run(config: Config, slots: Seq<u32>, force: bool, log: Seq<Reply>, at: nat) -> Run<
    Seq<bool>,
>
    decreases slots.len(),
{
    if slots.len() == 0 {
        Run::Done(Seq::empty(), at)
    } else {
        stale_run(config, slots.drop_last(), force, log, at).bind(
            |before: Seq<bool>, n: nat|
                needs_run(config, slots.last(), force, log, n).bind(
                    |stale: bool, m: nat| Run::Done(before.push(stale), m),
                ),
        )
    }
}

/// Whether an account is read anew.
pub open spec fn needs_run(config: Config, slot: u32, force: bool, log: Seq<Reply>, at: nat) -> Run<bool> {
    if config.skip_usage_refresh {
        Run::Done(false, at)
    } else if force {
        Run::Done(true, at)
    } else {
        flag_run(log, at, RequestView::UsageFresh(slot)).bind(
            |fresh: bool, n: nat| Run::Done(!fresh, n),
        )
    }
}

/// Whether an account is read anew.
pub fn needs_usage_refresh(
    config: &Config,
    slot: u32,
    force: bool,
    log: &Vec<Reply>,
    at: &mut usize,
) -> (r: Result<bool, Halt>)
    requires
        *old(at) <= log.len(),
    ensures
        *final(at) <= log.len(),
        told(r, *final(at), needs_run(*config, slot, force, log@, *old(at) as nat)),
{
    if config.skip_usage_refresh {
        Ok(false)
    } else if force {
        Ok(true)
    } else {
        Ok(!flag(log, at, Request::UsageFresh(slot))?)
    }
}

/// Reads the quota of an account anew and records it, where that is called for: whether the
/// session changed.
pub open spec fn refresh_run(config: Config, slot: u32, force: bool, log: Seq<Reply>, at: nat) -> Run<
    bool,
> {
    needs_run(config, slot, force, log, at).bind(
        |stale: bool, n: nat|
            if !stale {
                Run::Done(false, n)
            } else {
                recorded_run(log, n, slot).bind(
                    |previous: Option<UsageRecord>, m: nat|
                        reading_run(log, m, slot).bind(
                            |reading: (UsageView, bool), k: nat|
                                done_run(
                                    log,
                                    k,
                                    RequestView::RecordUsage {
                                        slot,
                                        usage: recorded(
                                            match previous {
                                                Some(usage) => Some(usage@),
                                                None => None,
                                            },
                                            reading.0,
                                        ),
                                    },
                                ).next(|p: nat| Run::Done(reading.1, p)),
                        ),
                )
            },
    )
}

/// A reading of the quota of an account, and whether the session changed by it.
pub open spec fn reading_run(log: Seq<Reply>, at: nat, slot: u32) -> Run<(UsageView, bool)> {
    reply_run(log, at, RequestView::QueryUsage(slot)).bind(
        |reply: Reply, n: nat|
            match reply {
                Reply::Reading { usage, changed } => Run::Done((usage@, changed), n),
                Reply::Failed(error) => Run::Fail(error@, n),
                _ => Run::Fail(mismatch(), n),
            },
    )
}

/// Reads the quota of an account anew and records it, where that is called for: whether the
/// session changed.
pub fn refresh_usage(config: &Config, slot: u32, force: bool, log: &Vec<Reply>, at: &mut usize) -> (r:
    Result<bool, Halt>)
    requires
        *old(at) <= log.len(),
    ensures
        *final(at) <= log.len(),
        told(r, *final(at), refresh_run(*config, slot, force, log@, *old(at) as nat)),
{
    if !needs_usage_refresh(config, slot, force, log, at)? {
        return Ok(false);
    }
    let previous = recorded_usage(slot, log, at)?;
    match ask(log, at, Request::QueryUsage(slot))? {
        Reply::Reading { usage, changed } => {
            let usage = usage_to_write(previous, usage);
            done(log, at, Request::RecordUsage { slot, usage })?;
            Ok(*changed)
        },
        Reply::Failed(error) => Err(Halt::Fail(error.clone())),
        _ => Err(mismatched()),
    }
}

/// Counts down to the next refresh, looking for a request to end all the while.
pub open spec fn countdown_run(remaining: u64, restart_required: bool, log: Seq<Reply>, at: nat) -> Run<
    bool,
>
    decreases remaining,
{
    if remaining == 0 {
        Run::Done(false, at)
    } else {
        done_run(
            log,
            at,
            RequestView::WriteStatus(watch_text(remaining, restart_required)),
        ).next(
            |n: nat|
                watch_exit_run(log, n, 1_000_000_000).bind(
                    |asked: bool, m: nat|
                        if asked {
                            Run::Done(true, m)
                        } else {
                            countdown_run((remaining - 1) as u64, restart_required, log, m)
                        },
                ),
        )
    }
}

/// Counts down to the next refresh: whether the watch is to end.
pub fn countdown(interval: u64, restart_required: bool, log: &Vec<Reply>, at: &mut usize) -> (r:
    Result<bool, Halt>)
    requires
        *old(at) <= log.len(),
    ensures
        *final(at) <= log.len(),
        told(r, *final(at), countdown_run(interval, restart_required, log@, *old(at) as nat)),
{
    let mut remaining: u64 = interval;
    while remaining > 0
        invariant
            *at <= log.len(),
            countdown_run(interval, restart_required, log@, *old(at) as nat) == countdown_run(
                remaining,
                restart_required,
                log@,
                *at as nat,
            ),
        decreases remaining,
    {
        done(log, at, Request::WriteStatus(watch_status(remaining, restart_required)))?;
        if watch_exit_requested(1_000_000_000, log, at)? {
            return Ok(true);
        }
        remaining -= 1;
    }
    Ok(false)
}

/// How a list begins: what is shown where no account is enrolled, else the accounts, the one that
/// is selected, and which of them are read anew.
pub struct ListPlan<'a> {
    pub guidance: Option<String>,
    pub accounts: &'a Vec<Profile>,
    pub selected: Option<u32>,
    pub stale: Vec<bool>,
}

/// What is known of how a list begins.
pub struct ListPlanView {
    pub guidance: Option<Seq<char>>,
    pub accounts: Seq<Profile>,
    pub selected: Option<u32>,
    pub stale: Seq<bool>,
}

/// How long a watched list waits before it looks at a lock again, in nanoseconds.
pub const LOCK_WAIT: u64 = 80_000_000;

/// Takes a lock while a list is watched: whoever waits for it can still end the watch, and the
/// wait is called off with it.
pub open spec fn await_lock_run(path: Seq<char>, log: Seq<Reply>, at: nat) -> Run<()>
    decreases log.len() - at,
{
    flag_run(log, at, RequestView::TryLock(path)).bind(
        |taken: bool, n: nat|
            if taken {
                Run::Done((), n)
            } else {
                watch_exit_run(log, n, 0).bind(
                    |asked: bool, m: nat|
                        if asked {
                            Run::Fail(ErrorView::Cancelled, m)
                        } else {
                            done_run(log, m, RequestView::Sleep(LOCK_WAIT)).next(
                                |k: nat|
                                    if at < k <= log.len() {
                                        await_lock_run(path, log, k)
                                    } else {
                                        Run::Fail(mismatch(), k)
                                    },
                            )
                        },
                )
            },
    )
}

/// Takes a lock while a list is watched.
pub fn await_lock(path: &str, log: &Vec<Reply>, at: &mut usize) -> (r: Result<(), Halt>)
    requires
        *old(at) <= log.len(),
    ensures
        *final(at) <= log.len(),
        told(r, *final(at), await_lock_run(path@, log@, *old(at) as nat)),
{
    loop
        invariant
            *at <= log.len(),
            await_lock_run(path@, log@, *old(at) as nat) == await_lock_run(
                path@,
                log@,
                *at as nat,
            ),
        decreases log.len() - *at,
    {
        let start: usize = *at;
        if flag(log, at, Request::TryLock(path.to_owned()))? {
            return Ok(());
        }
        if watch_exit_requested(0, log, at)? {
            return Err(Halt::Fail(Error::Cancelled));
        }
        done(log, at, Request::Sleep(LOCK_WAIT))?;
        if *at <= start {
            return Err(mismatched());
        }
    }
}

/// What becomes of a list that could not be planned: a watch ends where the plan was called off,
/// and every other failure is reported.
pub fn unplanned(error: Error, watch: bool) -> (r: Option<Error>)
    ensures
        r is None <==> watch && error@ is Cancelled,
        r matches Some(reported) ==> reported@ == error@,
{
    if watch && matches!(error, Error::Cancelled) {
        None
    } else {
        Some(error)
    }
}

/// Takes the lock of the account store and saves what a running session has changed.
pub open spec fn locked_run(config: Config, log: Seq<Reply>, at: nat) -> Run<()> {
    done_run(log, at, RequestView::Lock(config.switch_lock@)).next(
        |n: nat| sync_session_run(config, log, n),
    )
}

fn locked(config: &Config, log: &Vec<Reply>, at: &mut usize) -> (r: Result<(), Halt>)
    requires
        *old(at) <= log.len(),
    ensures
        *final(at) <= log.len(),
        told(r, *final(at), locked_run(*config, log@, *old(at) as nat)),
{
    done(log, at, Request::Lock(config.switch_lock.clone()))?;
    Store::new(config.clone()).sync_session_profile(log, at)
}

/// What is said where no account is enrolled.
pub open spec fn guidance_run(config: Config, log: Seq<Reply>, at: nat) -> Run<Seq<char>> {
    auth_if_valid_run(log, at, config.session_auth@).bind(
        |found: Option<AuthDocument>, n: nat|
            Run::Done(
                match found {
                    Some(document) => "Found the current Codex login: "@
                        + document.identity@.label()
                        + "\ncxa is not initialized. Run: cxa init"@,
                    None => "cxa is not initialized. Run `codex login`, then run `cxa init`."@,
                },
                n,
            ),
    )
}

fn initialization_guidance(config: &Config, log: &Vec<Reply>, at: &mut usize) -> (r: Result<
    String,
    Halt,
>)
    requires
        *old(at) <= log.len(),
    ensures
        *final(at) <= log.len(),
        told_text(r, *final(at), guidance_run(*config, log@, *old(at) as nat)),
{
    match auth_if_valid(log, at, &config.session_auth)? {
        Some(document) => Ok(
            "Found the current Codex login: ".to_owned().concat(
                document.identity.label(),
            ).concat("\ncxa is not initialized. Run: cxa init"),
        ),
        None => Ok(
            "cxa is not initialized. Run `codex login`, then run `cxa init`.".to_owned(),
        ),
    }
}

pub open spec fn slots_of(accounts: Seq<Profile>) -> Seq<u32> {
    accounts.map_values(|p: Profile| p.slot)
}

/// How a list begins.
pub open spec fn plan_list_run(config: Config, force: bool, log: Seq<Reply>, at: nat) -> Run<
    ListPlanView,
> {
    locked_run(config, log, at).next(
        |n: nat|
            profiles_run(log, n).bind(
                |accounts: Vec<Profile>, m: nat|
                    if accounts@.len() == 0 {
                        guidance_run(config, log, m).bind(
                            |text: Seq<char>, k: nat|
                                Run::Done(
                                    ListPlanView {
                                        guidance: Some(text),
                                        accounts: accounts@,
                                        selected: None,
                                        stale: Seq::empty(),
                                    },
                                    k,
                                ),
                        )
                    } else {
                        selected_run(config, log, m).bind(
                            |selected: Option<u32>, k: nat|
                                stale_run(config, slots_of(accounts@), force, log, k).bind(
                                    |stale: Seq<bool>, p: nat|
                                        Run::Done(
                                            ListPlanView {
                                                guidance: None,
                                                accounts: accounts@,
                                                selected,
                                                stale,
                                            },
                                            p,
                                        ),
                                ),
                        )
                    },
            ),
    )
}

impl<'a> ListPlan<'a> {
    pub open spec fn view(&self) -> ListPlanView {
        ListPlanView {
            guidance: crate::text::opt_text(self.guidance),
            accounts: self.accounts@,
            selected: self.selected,
            stale: self.stale@,
        }
    }
}

proof fn lemma_stale_prefix(
    config: Config,
    slots: Seq<u32>,
    force: bool,
    log: Seq<Reply>,
    at: nat,
    k: int,
)
    requires
        0 <= k <= slots.len(),
    ensures
        stale_run(config, slots.take(k), force, log, at) matches Run::Ask(q) ==> stale_run(
            config,
            slots,
            force,
            log,
            at,
        ) == Run::<Seq<bool>>::Ask(q),
        stale_run(config, slots.take(k), force, log, at) matches Run::Fail(e, n) ==> stale_run(
            config,
            slots,
            force,
            log,
            at,
        ) == Run::<Seq<bool>>::Fail(e, n),
    decreases slots.len() - k,
{
    if k < slots.len() {
        lemma_stale_prefix(config, slots, force, log, at, k + 1);
        assert(slots.take(k + 1).drop_last() =~= slots.take(k));
    } else {
        assert(slots.take(k) =~= slots);
    }
}

/// How a list begins: what is shown where no account is enrolled, else the accounts, the one that
/// is selected, and which of them are read anew.
pub fn plan_list<'a>(config: &Config, force: bool, log: &'a Vec<Reply>, at: &mut usize) -> (r: Result<
    ListPlan<'a>,
    Halt,
>)
    requires
        *old(at) <= log.len(),
    ensures
        *final(at) <= log.len(),
        match r {
            Ok(plan) => plan_list_run(*config, force, log@, *old(at) as nat) == Run::Done(
                plan.view(),
                *final(at) as nat,
            ) && (plan.guidance is None ==> plan.stale@.len() == plan.accounts@.len()),
            Err(Halt::Fail(error)) => plan_list_run(*config, force, log@, *old(at) as nat) == Run::<
                ListPlanView,
            >::Fail(error@, *final(at) as nat),
            Err(Halt::Ask(request)) => plan_list_run(*config, force, log@, *old(at) as nat)
                == Run::<ListPlanView>::Ask(request@),
        },
{
    locked(config, log, at)?;
    let accounts = profiles(log, at)?;
    if accounts.len() == 0 {
        let text = initialization_guidance(config, log, at)?;
        let stale: Vec<bool> = Vec::new();
        proof {
            assert(stale@ =~= Seq::empty());
        }
        return Ok(ListPlan { guidance: Some(text), accounts, selected: None, stale });
    }
    let store = Store { config: config.clone() };
    let selected = store.selected(log, at)?;
    let ghost begin = *at as nat;
    let ghost slots = slots_of(accounts@);
    let mut stale: Vec<bool> = Vec::new();
    let mut i: usize = 0;
    proof {
        assert(slots.take(0) =~= Seq::empty());
        assert(stale@ =~= Seq::empty());
    }
    while i < accounts.len()
        invariant
            *at <= log.len(),
            i <= accounts.len(),
            stale@.len() == i,
            slots == slots_of(accounts@),
            accounts@.len() > 0,
            stale_run(*config, slots.take(i as int), force, log@, begin) == Run::Done(
                stale@,
                *at as nat,
            ),
            plan_list_run(*config, force, log@, *old(at) as nat) == stale_run(
                *config,
                slots,
                force,
                log@,
                begin,
            ).bind(
                |stale: Seq<bool>, p: nat|
                    Run::Done(
                        ListPlanView { guidance: None, accounts: accounts@, selected, stale },
                        p,
                    ),
            ),
        decreases accounts.len() - i,
    {
        proof {
            assert(slots.take(i + 1).drop_last() =~= slots.take(i as int));
            assert(slots.take(i + 1).last() == accounts@[i as int].slot);
            lemma_stale_prefix(*config, slots, force, log@, begin, i + 1);
        }
        let one = needs_usage_refresh(config, accounts[i].slot, force, log, at)?;
        stale.push(one);
        i += 1;
    }
    proof {
        assert(slots.take(i as int) =~= slots);
    }
    Ok(ListPlan { guidance: None, accounts, selected, stale })
}

// ---------------------------------------------------------------- accounts

/// The recorded quota of an account, if there is one.
pub open spec fn recorded_run(log: Seq<Reply>, at: nat, slot: u32) -> Run<Option<UsageRecord>> {
    reply_run(log, at, RequestView::Usage(slot)).bind(
        |reply: Reply, n: nat|
            match reply {
                Reply::Usage(usage) => Run::Done(Some(usage), n),
                Reply::Missing => Run::Done(None, n),
                Reply::Failed(error) => Run::Fail(error@, n),
                _ => Run::Fail(mismatch(), n),
            },
    )
}

fn recorded_usage<'a>(slot: u32, log: &'a Vec<Reply>, at: &mut usize) -> (r: Result<
    Option<&'a UsageRecord>,
    Halt,
>)
    requires
        *old(at) <= log.len(),
    ensures
        *final(at) <= log.len(),
        told_opt(r, *final(at), recorded_run(log@, *old(at) as nat, slot)),
{
    match ask(log, at, Request::Usage(slot))? {
        Reply::Usage(usage) => Ok(Some(usage)),
        Reply::Missing => Ok(None),
        Reply::Failed(error) => Err(Halt::Fail(error.clone())),
        _ => Err(mismatched()),
    }
}

/// A check mark.
pub open spec fn mark() -> Seq<char> {
    styled(Style::Success, "✓"@)
}

fn check_mark() -> (r: String)
    ensures
        r@ == mark(),
{
    paint(SUCCESS, "✓")
}

/// The number of an account, set off.
pub open spec fn number_text(slot: u32) -> Seq<char> {
    styled(Style::Accent, decimal_text(slot as nat))
}

fn number(slot: u32) -> (r: String)
    ensures
        r@ == number_text(slot),
{
    paint(ACCENT, &decimal(slot as u64))
}

/// What an account is called, set off.
pub open spec fn name_text(document: AuthDocument) -> Seq<char> {
    styled(Style::Emphasis, document.identity@.label())
}

fn name(document: &AuthDocument) -> (r: String)
    ensures
        r@ == name_text(*document),
{
    paint(EMPHASIS, document.identity.label())
}

pub open spec fn already_text(profile: Profile, selected: u32) -> Seq<char> {
    mark() + " cxa is already initialized with account "@ + number_text(selected) + " ("@
        + name_text(profile.auth) + ")."@
}

pub open spec fn question_text(label: Seq<char>) -> Seq<char> {
    styled(Style::Accent, "?"@) + " Found the current Codex login: "@ + styled(
        Style::Emphasis,
        label,
    ) + "\n  Import it as account "@ + styled(Style::Accent, "1"@) + "? "@ + styled(
        Style::Muted,
        "[Y/n]"@,
    ) + " "@
}

pub open spec fn imported_text(account: (u32, AuthDocument)) -> Seq<char> {
    mark() + " Imported "@ + name_text(account.1) + " as account "@ + number_text(account.0)
        + "."@
}

pub open spec fn now_selected_text(account: (u32, AuthDocument)) -> Seq<char> {
    mark() + " Account "@ + number_text(account.0) + " is now selected."@
}

pub open spec fn add_hint() -> Seq<char> {
    styled(Style::Muted, "Next:"@) + " add another account with "@ + styled(
        Style::Accent,
        "cxa add"@,
    )
}

pub open spec fn switch_hint(slot: u32) -> Seq<char> {
    styled(Style::Muted, "Next:"@) + " switch to it with "@ + styled(
        Style::Accent,
        "cxa "@ + decimal_text(slot as nat),
    )
}

pub open spec fn print_run(log: Seq<Reply>, at: nat, line: Seq<char>) -> Run<()> {
    done_run(log, at, RequestView::Print(line))
}

fn print(line: String, log: &Vec<Reply>, at: &mut usize) -> (r: Result<(), Halt>)
    requires
        *old(at) <= log.len(),
    ensures
        *final(at) <= log.len(),
        told(r, *final(at), print_run(log@, *old(at) as nat, line@)),
{
    done(log, at, Request::Print(line))
}

/// Whether an answer says no.
pub open spec fn declines(answer: Seq<char>) -> bool {
    lowered(trimmed(answer)) == "n"@ || lowered(trimmed(answer)) == "no"@
}

/// Asks whether the current login is to be imported.
pub open spec fn confirm_run(label: Seq<char>, log: Seq<Reply>, at: nat) -> Run<()> {
    flag_run(log, at, RequestView::Interactive).bind(
        |interactive: bool, n: nat|
            if !interactive {
                Run::Fail(
                    ErrorView::Message(
                        "Found the current Codex login: "@ + label
                            + ". Run `cxa init --yes` when input or output is redirected."@,
                    ),
                    n,
                )
            } else {
                answer_run(log, n, RequestView::Prompt(question_text(label))).bind(
                    |answer: Seq<char>, m: nat|
                        if declines(answer) {
                            Run::Fail(ErrorView::Message("Initialization cancelled."@), m)
                        } else {
                            Run::Done((), m)
                        },
                )
            },
    )
}

/// Imports the current login as the first account.
pub open spec fn import_current_run(config: Config, assume_yes: bool, log: Seq<Reply>, at: nat) -> Run<
    (),
> {
    flag_run(log, at, RequestView::IsFile(config.session_auth@)).bind(
        |there: bool, n: nat|
            if !there {
                Run::Fail(
                    ErrorView::Message(
                        "No current Codex login was found. Run `codex login`, then run `cxa init`."@,
                    ),
                    n,
                )
            } else {
                auth_run(log, n, config.session_auth@).bind(
                    |current: AuthDocument, m: nat|
                        (if assume_yes {
                            Run::Done((), m)
                        } else {
                            confirm_run(current.identity@.label(), log, m)
                        }).next(
                            |k: nat|
                                enroll_run(config, config.session_auth@, log, k).bind(
                                    |account: (u32, AuthDocument), p: nat|
                                        print_run(log, p, imported_text(account)).next(
                                            |q: nat|
                                                print_run(
                                                    log,
                                                    q,
                                                    now_selected_text(account),
                                                ).next(|z: nat| print_run(log, z, add_hint())),
                                        ),
                                ),
                        ),
                )
            },
    )
}

/// Imports the current login, where no account is enrolled yet.
pub open spec fn init_run(config: Config, assume_yes: bool, log: Seq<Reply>, at: nat) -> Run<()> {
    locked_run(config, log, at).next(
        |n: nat|
            profiles_run(log, n).bind(
                |accounts: Vec<Profile>, m: nat|
                    if accounts@.len() > 0 {
                        selected_run(config, log, m).bind(
                            |selected: Option<u32>, k: nat|
                                match selected {
                                    Some(slot) => resolve_run(
                                        config,
                                        decimal_text(slot as nat),
                                        log,
                                        k,
                                    ).bind(
                                        |profile: Profile, p: nat|
                                            print_run(log, p, already_text(profile, slot)),
                                    ),
                                    None => Run::Fail(
                                        ErrorView::Message(
                                            "cxa has enrolled accounts but none is selected. Run `cxa list`, then `cxa <account>`."@,
                                        ),
                                        k,
                                    ),
                                },
                        )
                    } else {
                        import_current_run(config, assume_yes, log, m)
                    },
            ),
    )
}

fn confirm(label: &str, log: &Vec<Reply>, at: &mut usize) -> (r: Result<(), Halt>)
    requires
        *old(at) <= log.len(),
    ensures
        *final(at) <= log.len(),
        told(r, *final(at), confirm_run(label@, log@, *old(at) as nat)),
{
    if !flag(log, at, Request::Interactive)? {
        return Err(
            Halt::Fail(
                Error::Message(
                    "Found the current Codex login: ".to_owned().concat(label).concat(
                        ". Run `cxa init --yes` when input or output is redirected.",
                    ),
                ),
            ),
        );
    }
    let question = paint(ACCENT, "?").concat(" Found the current Codex login: ").concat(
        &paint(EMPHASIS, label),
    ).concat("\n  Import it as account ").concat(&paint(ACCENT, "1")).concat("? ").concat(
        &paint(MUTED, "[Y/n]"),
    ).concat(" ");
    let reply = answer(log, at, Request::Prompt(question))?;
    let word = ascii_lower(&trim(&reply));
    if same(&word, "n") || same(&word, "no") {
        Err(Halt::Fail(Error::message("Initialization cancelled.")))
    } else {
        Ok(())
    }
}

/// Imports the current login, where no account is enrolled yet.
pub fn init(config: &Config, assume_yes: bool, log: &Vec<Reply>, at: &mut usize) -> (r: Result<
    (),
    Halt,
>)
    requires
        *old(at) <= log.len(),
    ensures
        *final(at) <= log.len(),
        told(r, *final(at), init_run(*config, assume_yes, log@, *old(at) as nat)),
{
    let store = Store { config: config.clone() };
    locked(config, log, at)?;
    let accounts = profiles(log, at)?;
    if accounts.len() > 0 {
        return match store.selected(log, at)? {
            Some(slot) => {
                let profile = store.resolve(&decimal(slot as u64), log, at)?;
                let line = check_mark().concat(
                    " cxa is already initialized with account ",
                ).concat(&number(slot)).concat(" (").concat(&name(&profile.auth)).concat(").");
                print(line, log, at)
            },
            None => Err(
                Halt::Fail(
                    Error::message(
                        "cxa has enrolled accounts but none is selected. Run `cxa list`, then `cxa <account>`.",
                    ),
                ),
            ),
        };
    }
    if !flag(log, at, Request::IsFile(config.session_auth.clone()))? {
        return Err(
            Halt::Fail(
                Error::message(
                    "No current Codex login was found. Run `codex login`, then run `cxa init`.",
                ),
            ),
        );
    }
    let current = auth(log, at, &config.session_auth)?;
    if !assume_yes {
        confirm(current.identity.label(), log, at)?;
    }
    let (slot, document) = store.enroll(&config.session_auth, log, at)?;
    let line = check_mark().concat(" Imported ").concat(&name(document)).concat(
        " as account ",
    ).concat(&number(slot)).concat(".");
    print(line, log, at)?;
    let line = check_mark().concat(" Account ").concat(&number(slot)).concat(
        " is now selected.",
    );
    print(line, log, at)?;
    let line = paint(MUTED, "Next:").concat(" add another account with ").concat(
        &paint(ACCENT, "cxa add"),
    );
    print(line, log, at)
}

/// The line about the session's credentials.
pub open spec fn credential_text(credential: Seq<char>) -> Seq<char> {
    "    "@ + styled(Style::Accent, "Credential"@) + "  "@ + styled(
        if "matches"@.is_prefix_of(credential) {
            Style::Success
        } else {
            Style::Warning
        },
        credential,
    )
}

/// Reads the selected account's quota anew, where that is called for, with a sign that something
/// is going on.
pub open spec fn spin_run(
    config: Config,
    refresh: bool,
    profile: Profile,
    slot: u32,
    log: Seq<Reply>,
    at: nat,
) -> Run<bool> {
    (if refresh {
        needs_run(config, slot, false, log, at)
    } else {
        Run::Done(false, at)
    }).bind(
        |stale: bool, n: nat|
            if !stale {
                Run::Done(false, n)
            } else {
                done_run(
                    log,
                    n,
                    RequestView::StartSpinner("Fetching usage [1/1] "@ + label_of(profile)),
                ).next(
                    |m: nat|
                        refresh_run(config, slot, false, log, m).bind(
                            |changed: bool, k: nat|
                                done_run(log, k, RequestView::StopSpinner).next(
                                    |p: nat| Run::Done(changed, p),
                                ),
                        ),
                )
            },
    )
}

/// Shows the selected account.
pub open spec fn show_run(
    config: Config,
    refresh: bool,
    slot: u32,
    log: Seq<Reply>,
    at: nat,
) -> Run<()> {
    resolve_run(config, decimal_text(slot as nat), log, at).bind(
        |profile: Profile, n: nat|
            spin_run(config, refresh, profile, slot, log, n).bind(
                |changed: bool, m: nat|
                    recorded_run(log, m, slot).bind(
                        |usage: Option<UsageRecord>, k: nat|
                            time_run(log, k, RequestView::Now).bind(
                                |now: i64, p: nat|
                                    done_run(
                                        log,
                                        p,
                                        RequestView::Show(
                                            profile_text(profile, true, usage, now),
                                        ),
                                    ).next(
                                        |q: nat|
                                            credential_status_run(config, slot, log, q).bind(
                                                |credential: Seq<char>, y: nat|
                                                    print_run(
                                                        log,
                                                        y,
                                                        credential_text(credential),
                                                    ).next(
                                                        |z: nat|
                                                            if changed {
                                                                print_run(log, z, notice_text())
                                                            } else {
                                                                Run::Done((), z)
                                                            },
                                                    ),
                                            ),
                                    ),
                            ),
                    ),
            ),
    )
}

/// Shows the selected account, or what to do first.
pub open spec fn status_run(config: Config, refresh: bool, log: Seq<Reply>, at: nat) -> Run<()> {
    locked_run(config, log, at).next(
        |n: nat|
            profiles_run(log, n).bind(
                |accounts: Vec<Profile>, m: nat|
                    if accounts@.len() == 0 {
                        guidance_run(config, log, m).bind(
                            |text: Seq<char>, k: nat| print_run(log, k, text),
                        )
                    } else {
                        selected_run(config, log, m).bind(
                            |selected: Option<u32>, k: nat|
                                match selected {
                                    None => Run::Fail(
                                        ErrorView::Message("No Codex account is selected."@),
                                        k,
                                    ),
                                    Some(slot) => show_run(config, refresh, slot, log, k),
                                },
                        )
                    },
            ),
    )
}

fn spin(
    config: &Config,
    refresh: bool,
    profile: &Profile,
    slot: u32,
    log: &Vec<Reply>,
    at: &mut usize,
) -> (r: Result<bool, Halt>)
    requires
        *old(at) <= log.len(),
    ensures
        *final(at) <= log.len(),
        told(
            r,
            *final(at),
            spin_run(*config, refresh, *profile, slot, log@, *old(at) as nat),
        ),
{
    if !refresh {
        return Ok(false);
    }
    if !needs_usage_refresh(config, slot, false, log, at)? {
        return Ok(false);
    }
    let text = "Fetching usage [1/1] ".to_owned().concat(profile.auth.identity.label());
    done(log, at, Request::StartSpinner(text))?;
    let changed = refresh_usage(config, slot, false, log, at)?;
    done(log, at, Request::StopSpinner)?;
    Ok(changed)
}

/// Shows the selected account and the state of its credentials, or what to do first.
pub fn status(config: &Config, refresh: bool, log: &Vec<Reply>, at: &mut usize) -> (r: Result<
    (),
    Halt,
>)
    requires
        *old(at) <= log.len(),
    ensures
        *final(at) <= log.len(),
        told(r, *final(at), status_run(*config, refresh, log@, *old(at) as nat)),
{
    let store = Store { config: config.clone() };
    locked(config, log, at)?;
    if profiles(log, at)?.len() == 0 {
        let text = initialization_guidance(config, log, at)?;
        return print(text, log, at);
    }
    let slot: u32 = match store.selected(log, at)? {
        Some(slot) => slot,
        None => {
            return Err(Halt::Fail(Error::message("No Codex account is selected.")));
        },
    };
    let profile = store.resolve(&decimal(slot as u64), log, at)?;
    let changed = spin(config, refresh, profile, slot, log, at)?;
    let usage = recorded_usage(slot, log, at)?;
    let now: i64 = time(log, at, Request::Now)?;
    done(log, at, Request::Show(profile_lines(profile, true, usage, now)))?;
    let credential = store.credential_status(slot, log, at)?;
    let style = if starts_with(&credential, "matches") {
        SUCCESS
    } else {
        WARNING
    };
    let line = "    ".to_owned().concat(&paint(ACCENT, "Credential")).concat("  ").concat(
        &paint(style, &credential),
    );
    print(line, log, at)?;
    if changed {
        print(restart_notice(), log, at)
    } else {
        Ok(())
    }
}

pub open spec fn exhausted_text(profile: Profile) -> Seq<char> {
    styled(Style::Warning, "warning"@) + ": account "@ + number_text(profile.slot) + " ("@
        + name_text(profile.auth) + ") was last seen exhausted"@
}

pub open spec fn switched_text(account: (u32, AuthDocument)) -> Seq<char> {
    mark() + " Account "@ + number_text(account.0) + " ("@ + name_text(account.1)
        + ") is now selected."@
}

/// Warns where an account was last seen exhausted.
pub open spec fn warn_run(target: Profile, log: Seq<Reply>, at: nat) -> Run<()> {
    recorded_run(log, at, target.slot).bind(
        |usage: Option<UsageRecord>, n: nat|
            match usage {
                None => Run::Done((), n),
                Some(usage) => time_run(log, n, RequestView::Now).bind(
                    |now: i64, m: nat|
                        if usage.exhausted(now) {
                            done_run(log, m, RequestView::Warn(exhausted_text(target)))
                        } else {
                            Run::Done((), m)
                        },
                ),
            },
    )
}

/// Switches to another account.
pub open spec fn switch_run(config: Config, selector: Seq<char>, log: Seq<Reply>, at: nat) -> Run<()> {
    locked_run(config, log, at).next(
        |n: nat|
            resolve_run(config, selector, log, n).bind(
                |target: Profile, m: nat|
                    warn_run(target, log, m).next(
                        |k: nat|
                            switch_to_run(config, target.slot, log, k).bind(
                                |chosen: (u32, AuthDocument), p: nat|
                                    print_run(log, p, switched_text(chosen)).next(
                                        |q: nat| print_run(log, q, notice_text()),
                                    ),
                            ),
                    ),
            ),
    )
}

fn warn(target: &Profile, log: &Vec<Reply>, at: &mut usize) -> (r: Result<(), Halt>)
    requires
        *old(at) <= log.len(),
    ensures
        *final(at) <= log.len(),
        told(r, *final(at), warn_run(*target, log@, *old(at) as nat)),
{
    let usage = match recorded_usage(target.slot, log, at)? {
        Some(usage) => usage,
        None => return Ok(()),
    };
    let now: i64 = time(log, at, Request::Now)?;
    if usage.exhausted_now(now) {
        let line = paint(WARNING, "warning").concat(": account ").concat(
            &number(target.slot),
        ).concat(" (").concat(&name(&target.auth)).concat(") was last seen exhausted");
        done(log, at, Request::Warn(line))
    } else {
        Ok(())
    }
}

/// Switches to another account. One that was last seen exhausted is warned about, and selected
/// all the same.
pub fn switch(config: &Config, selector: &str, log: &Vec<Reply>, at: &mut usize) -> (r: Result<
    (),
    Halt,
>)
    requires
        *old(at) <= log.len(),
    ensures
        *final(at) <= log.len(),
        told(r, *final(at), switch_run(*config, selector@, log@, *old(at) as nat)),
{
    let store = Store { config: config.clone() };
    locked(config, log, at)?;
    let target = store.resolve(selector, log, at)?;
    warn(target, log, at)?;
    let (slot, document) = store.select(target.slot, log, at)?;
    let line = check_mark().concat(" Account ").concat(&number(slot)).concat(" (").concat(
        &name(document),
    ).concat(") is now selected.");
    print(line, log, at)?;
    print(restart_notice(), log, at)
}

// ---------------------------------------------------------------- logging in

/// The arguments that a login is run with.
pub open spec fn login_arguments(options: Seq<Option<Seq<char>>>) -> Seq<Option<Seq<char>>> {
    seq![Some("login"@)] + options + seq![
        Some("-c"@),
        Some("cli_auth_credentials_store=\"file\""@),
    ]
}

/// Logs in on a home of its own: the path of the new credentials.
pub open spec fn login_run(
    config: Config,
    options: Seq<Option<Seq<char>>>,
    log: Seq<Reply>,
    at: nat,
) -> Run<Seq<char>> {
    done_run(log, at, RequestView::PrivateDir(config.account_store@)).next(
        |n: nat|
            answer_run(
                log,
                n,
                RequestView::TempDir { directory: config.account_store@, prefix: ".login-"@ },
            ).bind(
                |home: Seq<char>, m: nat|
                    copy_config_run(config, home, log, m).next(
                        |k: nat|
                            flag_run(
                                log,
                                k,
                                RequestView::Login { arguments: login_arguments(options), home },
                            ).bind(
                                |fine: bool, p: nat|
                                    (if fine {
                                        flag_run(
                                            log,
                                            p,
                                            RequestView::IsFile(joined(home, "auth.json"@)),
                                        )
                                    } else {
                                        Run::Done(false, p)
                                    }).bind(
                                        |there: bool, q: nat|
                                            if there {
                                                Run::Done(joined(home, "auth.json"@), q)
                                            } else {
                                                Run::Fail(
                                                    ErrorView::Message(
                                                        "Codex login failed; nothing was changed."@,
                                                    ),
                                                    q,
                                                )
                                            },
                                    ),
                            ),
                    ),
            ),
    )
}

/// Gives a login's home the settings of Codex, where there are any.
pub open spec fn copy_config_run(config: Config, home: Seq<char>, log: Seq<Reply>, at: nat) -> Run<()> {
    flag_run(log, at, RequestView::IsFile(joined(config.codex_home@, "config.toml"@))).bind(
        |there: bool, n: nat|
            if there {
                done_run(
                    log,
                    n,
                    RequestView::Copy {
                        from: joined(config.codex_home@, "config.toml"@),
                        to: joined(home, "config.toml"@),
                    },
                )
            } else {
                Run::Done((), n)
            },
    )
}

fn arguments_for(options: &Vec<Option<String>>) -> (r: Vec<Option<String>>)
    ensures
        opt_texts(r@) == login_arguments(opt_texts(options@)),
{
    let mut out: Vec<Option<String>> = Vec::new();
    out.push(Some("login".to_owned()));
    let ghost all = opt_texts(options@);
    let mut i: usize = 0;
    proof {
        assert(opt_texts(out@) =~= seq![Some("login"@)] + all.take(0));
    }
    while i < options.len()
        invariant
            i <= options.len(),
            all == opt_texts(options@),
            opt_texts(out@) == seq![Some("login"@)] + all.take(i as int),
        decreases options.len() - i,
    {
        let ghost was = out@;
        out.push(copy_opt(&options[i]));
        i += 1;
        proof {
            assert(opt_texts(out@) =~= opt_texts(was).push(opt_text(options@[i - 1])));
            assert(opt_texts(out@) =~= seq![Some("login"@)] + all.take(i as int));
        }
    }
    let ghost was = out@;
    out.push(Some("-c".to_owned()));
    out.push(Some("cli_auth_credentials_store=\"file\"".to_owned()));
    proof {
        assert(all.take(i as int) =~= all);
        assert(opt_texts(out@) =~= opt_texts(was) + seq![
            Some("-c"@),
            Some("cli_auth_credentials_store=\"file\""@),
        ]);
        assert(opt_texts(out@) =~= login_arguments(all));
    }
    out
}

fn login(config: &Config, options: &Vec<Option<String>>, log: &Vec<Reply>, at: &mut usize) -> (r:
    Result<String, Halt>)
    requires
        *old(at) <= log.len(),
    ensures
        *final(at) <= log.len(),
        told_text(r, *final(at), login_run(*config, opt_texts(options@), log@, *old(at) as nat)),
{
    done(log, at, Request::PrivateDir(config.account_store.clone()))?;
    let home = answer(
        log,
        at,
        Request::TempDir {
            directory: config.account_store.clone(),
            prefix: ".login-".to_owned(),
        },
    )?;
    let settings = join(&config.codex_home, "config.toml");
    if flag(log, at, Request::IsFile(settings.clone()))? {
        done(log, at, Request::Copy { from: settings, to: join(&home, "config.toml") })?;
    }
    let credentials = join(&home, "auth.json");
    let fine = flag(
        log,
        at,
        Request::Login { arguments: arguments_for(options), home },
    )?;
    let there = if fine {
        flag(log, at, Request::IsFile(credentials.clone()))?
    } else {
        false
    };
    if there {
        Ok(credentials)
    } else {
        Err(Halt::Fail(Error::message("Codex login failed; nothing was changed.")))
    }
}

fn copy_options(options: &Vec<Option<String>>) -> (r: Vec<Option<String>>)
    ensures
        r@ == options@,
{
    let mut out: Vec<Option<String>> = Vec::new();
    let mut i: usize = 0;
    while i < options.len()
        invariant
            i <= options.len(),
            out@ == options@.take(i as int),
        decreases options.len() - i,
    {
        out.push(copy_opt(&options[i]));
        i += 1;
        proof {
            assert(out@ =~= options@.take(i as int));
        }
    }
    proof {
        assert(options@.take(i as int) =~= options@);
    }
    out
}

pub open spec fn enrolled_text(account: (u32, AuthDocument)) -> Seq<char> {
    "\n"@ + mark() + " Enrolled "@ + name_text(account.1) + " as account "@ + number_text(account.0) + "."@
}

/// The options of a login for a new account.
pub open spec fn add_options(device_auth: bool, options: Seq<Option<String>>) -> Seq<
    Option<Seq<char>>,
> {
    if device_auth {
        opt_texts(options).push(Some("--device-auth"@))
    } else {
        opt_texts(options)
    }
}

/// Logs in and enrolls a new account.
pub open spec fn add_run(
    config: Config,
    device_auth: bool,
    options: Seq<Option<String>>,
    log: Seq<Reply>,
    at: nat,
) -> Run<()> {
    match first_foreign(options) {
        Some(name) => Run::Fail(ErrorView::Message(foreign_text(name)), at),
        None => locked_run(config, log, at).next(
            |n: nat|
                login_run(config, add_options(device_auth, options), log, n).bind(
                    |credentials: Seq<char>, m: nat|
                        enroll_run(config, credentials, log, m).bind(
                            |account: (u32, AuthDocument), k: nat|
                                print_run(log, k, enrolled_text(account)).next(
                                    |p: nat| print_run(log, p, switch_hint(account.0)),
                                ),
                        ),
                ),
        ),
    }
}

fn hint(slot: u32) -> (r: String)
    ensures
        r@ == switch_hint(slot),
{
    paint(MUTED, "Next:").concat(" switch to it with ").concat(
        &paint(ACCENT, &"cxa ".to_owned().concat(&decimal(slot as u64))),
    )
}

/// Logs in and enrolls a new account.
pub fn add(
    config: &Config,
    device_auth: bool,
    options: &Vec<Option<String>>,
    log: &Vec<Reply>,
    at: &mut usize,
) -> (r: Result<(), Halt>)
    requires
        *old(at) <= log.len(),
    ensures
        *final(at) <= log.len(),
        told(r, *final(at), add_run(*config, device_auth, options@, log@, *old(at) as nat)),
{
    if let Err(error) = reject_non_oauth(options) {
        return Err(Halt::Fail(error));
    }
    let mut chosen = copy_options(options);
    if device_auth {
        let ghost was = chosen@;
        chosen.push(Some("--device-auth".to_owned()));
        proof {
            assert(opt_texts(chosen@) =~= opt_texts(was).push(Some("--device-auth"@)));
        }
    }
    locked(config, log, at)?;
    let credentials = login(config, &chosen, log, at)?;
    let (slot, document) = Store::new(config.clone()).enroll(&credentials, log, at)?;
    let line = "\n".to_owned().concat(&check_mark()).concat(" Enrolled ").concat(
        &name(document),
    ).concat(" as account ").concat(&number(slot)).concat(".");
    print(line, log, at)?;
    print(hint(slot), log, at)
}

/// Enrolls the account of an existing credential file.
pub open spec fn import_run(config: Config, auth_file: Seq<char>, log: Seq<Reply>, at: nat) -> Run<()> {
    locked_run(config, log, at).next(
        |n: nat|
            enroll_run(config, auth_file, log, n).bind(
                |account: (u32, AuthDocument), m: nat|
                    print_run(log, m, imported_text(account)).next(
                        |k: nat| print_run(log, k, switch_hint(account.0)),
                    ),
            ),
    )
}

/// Enrolls the account of an existing credential file.
pub fn import(config: &Config, auth_file: &str, log: &Vec<Reply>, at: &mut usize) -> (r: Result<
    (),
    Halt,
>)
    requires
        *old(at) <= log.len(),
    ensures
        *final(at) <= log.len(),
        told(r, *final(at), import_run(*config, auth_file@, log@, *old(at) as nat)),
{
    locked(config, log, at)?;
    let (slot, document) = Store::new(config.clone()).enroll(auth_file, log, at)?;
    let line = check_mark().concat(" Imported ").concat(&name(document)).concat(
        " as account ",
    ).concat(&number(slot)).concat(".");
    print(line, log, at)?;
    print(hint(slot), log, at)
}

pub open spec fn relogin_text(profile: Profile) -> Seq<char> {
    styled(
        Style::Accent,
        "Re-authenticating account "@ + decimal_text(profile.slot as nat),
    ) + " ("@ + name_text(profile.auth) + ").\n"@
}

pub open spec fn relogged_text(account: (u32, AuthDocument)) -> Seq<char> {
    mark() + " Re-authenticated "@ + name_text(account.1) + " as account "@ + number_text(account.0) + "."@
}

/// Selects an account anew, where it is the selected one.
pub open spec fn reselect_run(config: Config, slot: u32, log: Seq<Reply>, at: nat) -> Run<()> {
    selected_run(config, log, at).bind(
        |selected: Option<u32>, n: nat|
            if selected == Some(slot) {
                switch_to_run(config, slot, log, n).next(
                    |m: nat| print_run(log, m, notice_text()),
                )
            } else {
                Run::Done((), n)
            },
    )
}

/// Logs in to an enrolled account anew.
pub open spec fn relogin_run(
    config: Config,
    selector: Seq<char>,
    options: Seq<Option<String>>,
    log: Seq<Reply>,
    at: nat,
) -> Run<()> {
    match first_foreign(options) {
        Some(name) => Run::Fail(ErrorView::Message(foreign_text(name)), at),
        None => locked_run(config, log, at).next(
            |n: nat|
                resolve_run(config, selector, log, n).bind(
                    |target: Profile, m: nat|
                        print_run(log, m, relogin_text(target)).next(
                            |k: nat|
                                login_run(config, opt_texts(options), log, k).bind(
                                    |credentials: Seq<char>, p: nat|
                                        replace_run(
                                            config,
                                            target.slot,
                                            credentials,
                                            log,
                                            p,
                                        ).bind(
                                            |account: (u32, AuthDocument), q: nat|
                                                done_run(
                                                    log,
                                                    q,
                                                    RequestView::Remove(
                                                        config.profile_usage_path(target.slot),
                                                    ),
                                                ).next(
                                                    |y: nat|
                                                        reselect_run(
                                                            config,
                                                            target.slot,
                                                            log,
                                                            y,
                                                        ).next(
                                                            |z: nat|
                                                                print_run(
                                                                    log,
                                                                    z,
                                                                    relogged_text(account),
                                                                ),
                                                        ),
                                                ),
                                        ),
                                ),
                        ),
                ),
        ),
    }
}

/// Logs in to an enrolled account anew.
pub fn relogin(
    config: &Config,
    selector: &str,
    options: &Vec<Option<String>>,
    log: &Vec<Reply>,
    at: &mut usize,
) -> (r: Result<(), Halt>)
    requires
        *old(at) <= log.len(),
    ensures
        *final(at) <= log.len(),
        told(r, *final(at), relogin_run(*config, selector@, options@, log@, *old(at) as nat)),
{
    if let Err(error) = reject_non_oauth(options) {
        return Err(Halt::Fail(error));
    }
    let store = Store { config: config.clone() };
    locked(config, log, at)?;
    let target = store.resolve(selector, log, at)?;
    let line = paint(
        ACCENT,
        &"Re-authenticating account ".to_owned().concat(&decimal(target.slot as u64)),
    ).concat(" (").concat(&name(&target.auth)).concat(").\n");
    print(line, log, at)?;
    let credentials = login(config, options, log, at)?;
    let (slot, document) = store.replace(target.slot, &credentials, log, at)?;
    done(log, at, Request::Remove(config.profile_usage(target.slot)))?;
    if store.selected(log, at)? == Some(target.slot) {
        let _ = store.select(target.slot, log, at)?;
        print(restart_notice(), log, at)?;
    }
    let line = check_mark().concat(" Re-authenticated ").concat(&name(document)).concat(
        " as account ",
    ).concat(&number(slot)).concat(".");
    print(line, log, at)
}

// ---------------------------------------------------------------- the list

/// Shows the list: whether the session changed, or `None` where the list was closed.
pub open spec fn refresh_list_run(force: bool, watch: bool, log: Seq<Reply>, at: nat) -> Run<
    Option<bool>,
> {
    reply_run(log, at, RequestView::RefreshList { force, watch }).bind(
        |reply: Reply, n: nat|
            match reply {
                Reply::Flag(changed) => Run::Done(Some(changed), n),
                Reply::Closed => Run::Done(None, n),
                Reply::Failed(error) => Run::Fail(error@, n),
                _ => Run::Fail(mismatch(), n),
            },
    )
}

fn refresh_list(force: bool, watch: bool, log: &Vec<Reply>, at: &mut usize) -> (r: Result<
    Option<bool>,
    Halt,
>)
    requires
        *old(at) <= log.len(),
    ensures
        *final(at) <= log.len(),
        told(r, *final(at), refresh_list_run(force, watch, log@, *old(at) as nat)),
{
    match ask(log, at, Request::RefreshList { force, watch })? {
        Reply::Flag(changed) => Ok(Some(*changed)),
        Reply::Closed => Ok(None),
        Reply::Failed(error) => Err(Halt::Fail(error.clone())),
        _ => Err(mismatched()),
    }
}

/// Shows the list once, or sees that it can be watched: how often it is to be refreshed.
pub open spec fn list_run(watch: bool, interval: u64, log: Seq<Reply>, at: nat) -> Run<Option<u64>> {
    if watch {
        flag_run(log, at, RequestView::Interactive).bind(
            |interactive: bool, n: nat|
                if interactive {
                    Run::Done(Some(interval), n)
                } else {
                    Run::Fail(
                        ErrorView::Message("Watch mode requires an interactive terminal."@),
                        n,
                    )
                },
        )
    } else {
        refresh_list_run(false, false, log, at).bind(
            |changed: Option<bool>, n: nat|
                if changed == Some(true) {
                    print_run(log, n, notice_text()).next(|m: nat| Run::Done(None, m))
                } else {
                    Run::Done(None, n)
                },
        )
    }
}

/// Shows the list once. One that is to be watched is not shown yet: the result says how often it
/// is to be refreshed, and `watch_round` does that.
pub fn list(watch: bool, interval: u64, log: &Vec<Reply>, at: &mut usize) -> (r: Result<
    Option<u64>,
    Halt,
>)
    requires
        *old(at) <= log.len(),
    ensures
        *final(at) <= log.len(),
        told(r, *final(at), list_run(watch, interval, log@, *old(at) as nat)),
{
    if watch {
        if flag(log, at, Request::Interactive)? {
            return Ok(Some(interval));
        }
        return Err(
            Halt::Fail(Error::message("Watch mode requires an interactive terminal.")),
        );
    }
    if refresh_list(false, false, log, at)? == Some(true) {
        print(restart_notice(), log, at)?;
    }
    Ok(None)
}

/// One round of a watched list.
pub open spec fn watch_round_run(
    restart_required: bool,
    interval: u64,
    log: Seq<Reply>,
    at: nat,
) -> Run<Option<bool>> {
    refresh_list_run(true, true, log, at).bind(
        |changed: Option<bool>, n: nat|
            match changed {
                None => Run::Done(None, n),
                Some(changed) => countdown_run(
                    interval,
                    restart_required || changed,
                    log,
                    n,
                ).bind(
                    |asked: bool, m: nat|
                        Run::Done(
                            if asked {
                                None
                            } else {
                                Some(restart_required || changed)
                            },
                            m,
                        ),
                ),
            },
    )
}

/// One round of a watched list: refreshes it and counts down to the next time. The result says
/// whether a running session has to be restarted, or `None` where the watch is to end.
pub fn watch_round(restart_required: bool, interval: u64, log: &Vec<Reply>, at: &mut usize) -> (r:
    Result<Option<bool>, Halt>)
    requires
        *old(at) <= log.len(),
    ensures
        *final(at) <= log.len(),
        told(
            r,
            *final(at),
            watch_round_run(restart_required, interval, log@, *old(at) as nat),
        ),
{
    match refresh_list(true, true, log, at)? {
        None => Ok(None),
        Some(changed) => {
            let restart = restart_required || changed;
            if countdown(interval, restart, log, at)? {
                Ok(None)
            } else {
                Ok(Some(restart))
            }
        },
    }
}

/// The position of an account, or the length where it is not there.
pub open spec fn position_of(accounts: Seq<Profile>, slot: u32) -> int
    decreases accounts.len(),
{
    if accounts.len() == 0 || accounts[0].slot == slot {
        0
    } else {
        1 + position_of(accounts.skip(1), slot)
    }
}

/// Puts down the quota that was read for an account. Accounts that are not listed are left out.
pub fn mark_ready(
    accounts: &Vec<Profile>,
    states: &mut Vec<ProfileUsage>,
    slot: u32,
    usage: Option<UsageRecord>,
)
    requires
        old(states).len() == accounts.len(),
    ensures
        final(states).len() == old(states).len(),
        final(states)@ == (if position_of(accounts@, slot) < accounts.len() {
            old(states)@.update(position_of(accounts@, slot), ProfileUsage::Ready(usage))
        } else {
            old(states)@
        }),
{
    let mut i: usize = 0;
    proof {
        assert(accounts@.skip(0) =~= accounts@);
    }
    while i < accounts.len() && accounts[i].slot != slot
        invariant
            i <= accounts.len(),
            position_of(accounts@, slot) == i + position_of(accounts@.skip(i as int), slot),
        decreases accounts.len() - i,
    {
        proof {
            assert(accounts@.skip(i as int)[0] == accounts@[i as int]);
            assert(accounts@.skip(i as int).skip(1) =~= accounts@.skip(i + 1));
        }
        i += 1;
    }
    proof {
        if i < accounts.len() {
            assert(accounts@.skip(i as int)[0] == accounts@[i as int]);
        }
    }
    if i < accounts.len() {
        states.set(i, ProfileUsage::Ready(usage));
    }
}

// ---------------------------------------------------------------- the program

/// What a command does: how often a list is to be refreshed, where one is to be watched.
pub open spec fn command_run(cli: Cli, config: Config, log: Seq<Reply>, at: nat) -> Run<Option<u64>> {
    match (cli.command, cli.account) {
        (Some(CliCommand::Init { yes }), _) => init_run(config, yes, log, at).next(
            |n: nat| Run::Done(None, n),
        ),
        (Some(CliCommand::List { watch, interval }), _) => list_run(watch, interval, log, at),
        (Some(CliCommand::Watch { interval }), _) => list_run(true, interval, log, at),
        (Some(CliCommand::Status), _) | (None, None) => status_run(config, true, log, at).next(
            |n: nat| Run::Done(None, n),
        ),
        (Some(CliCommand::Use { account }), _) | (None, Some(account)) => switch_run(
            config,
            account@,
            log,
            at,
        ).next(|n: nat| Run::Done(None, n)),
        (Some(CliCommand::Add { device_auth, options }), _) => add_run(
            config,
            device_auth,
            options@,
            log,
            at,
        ).next(|n: nat| Run::Done(None, n)),
        (Some(CliCommand::Import { auth_file }), _) => import_run(
            config,
            auth_file@,
            log,
            at,
        ).next(|n: nat| Run::Done(None, n)),
        (Some(CliCommand::Relogin { account, options }), _) => relogin_run(
            config,
            account@,
            options@,
            log,
            at,
        ).next(|n: nat| Run::Done(None, n)),
    }
}

/// Does what the command line asks for, where Codex keeps its credentials in a file. Without a
/// command that is to switch to an account, or to show the status. Where a list is to be watched
/// the result says how often it is to be refreshed.
pub fn run(
    cli: &Cli,
    config: &Config,
    access_token: &Option<String>,
    log: &Vec<Reply>,
    at: &mut usize,
) -> (r: Result<Option<u64>, Halt>)
    requires
        *old(at) <= log.len(),
    ensures
        *final(at) <= log.len(),
        told(
            r,
            *final(at),
            credentials_run(*config, opt_text(*access_token), log@, *old(at) as nat).next(
                |n: nat| command_run(*cli, *config, log@, n),
            ),
        ),
{
    require_file_credentials(config, access_token, log, at)?;
    match (&cli.command, &cli.account) {
        (Some(CliCommand::Init { yes }), _) => init(config, *yes, log, at)?,
        (Some(CliCommand::List { watch, interval }), _) => {
            return list(*watch, *interval, log, at);
        },
        (Some(CliCommand::Watch { interval }), _) => {
            return list(true, *interval, log, at);
        },
        (Some(CliCommand::Status), _) => status(config, true, log, at)?,
        (None, None) => status(config, true, log, at)?,
        (Some(CliCommand::Use { account }), _) => switch(config, account, log, at)?,
        (None, Some(account)) => switch(config, account, log, at)?,
        (Some(CliCommand::Add { device_auth, options }), _) => self::add(
            config,
            *device_auth,
            options,
            log,
            at,
        )?,
        (Some(CliCommand::Import { auth_file }), _) => import(config, auth_file, log, at)?,
        (Some(CliCommand::Relogin { account, options }), _) => relogin(
            config,
            account,
            options,
            log,
            at,
        )?,
    }
    Ok(None)
}

// ---------------------------------------------------------------- laws

/// Credentials of another kind are refused before anything is asked for or changed.
pub proof fn law_foreign_logins_change_nothing(
    config: Config,
    device_auth: bool,
    selector: Seq<char>,
    options: Seq<Option<String>>,
    log: Seq<Reply>,
    at: nat,
)
    requires
        first_foreign(options) is Some,
    ensures
        add_run(config, device_auth, options, log, at) is Fail,
        relogin_run(config, selector, options, log, at) is Fail,
{
}

}
