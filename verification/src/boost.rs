//! Boosting the tasks of app servers until a quota starts anew or a deadline comes.
use crate::account_store::Profile;
use crate::app_server::{baseline_run, later, set_baseline_defaults};
use crate::boost_policy::{
    deadline_of, has_weekly_quota, parse_deadline, reset_detected, weekly_quota,
    weekly_reset_detected,
};
use crate::boost_state::{
    all_rooted, chosen_sockets, copy_tasks, enrolled, insert_task, insert_tasks, law_task_order,
    law_tasks_stay_ordered, lock_path, log_path, ordered, preparing_state, remove_task, sockets,
    sorted_paths, state_path, stop_path, task_views, with_task, with_tasks, without_task, Files,
    Observation, Phase, State, StateView, Task, TaskView,
};
use crate::boost_tasks::{
    boost_run, boost_task, connect, connect_run, cutoff, cutoff_run, interrupt, interrupt_run,
    live_settings, loaded_run, loaded_tasks, preflight, preflight_run, set_run,
    set_task_settings, settings_run,
};
use crate::config::Config;
use crate::effects::{
    ask, clock, clock_run, done, done_run, flag, flag_run, mismatch, mismatched, profiles,
    profiles_run, reply_run, time, time_run, told, told_lines, told_opt, Halt, Reply, Request,
    RequestView, Run,
};
use crate::error::{Error, ErrorView};
use crate::json::JsonView;
use crate::text::{copy_all, decimal, decimal_text, holds, opt_text, same, texts};
use crate::usage::{in_calendar, UsageRecord};
use vstd::prelude::*;

verus! {

/// How long reading all quotas waits before the next time, in nanoseconds.
pub const POLL_INTERVAL: u64 = 15_000_000_000;

/// How long a call on a control connection may take, in nanoseconds.
pub const CONTROL_TIMEOUT: u64 = 3_000_000_000;

/// How long to wait for a change before looking for a reason to end, in nanoseconds.
pub const SHORT_WAIT: u64 = 100_000_000;

/// How long a boost goes on without a fresh reading of the quotas, in nanoseconds.
pub const QUOTA_AGE: u64 = 60_000_000_000;

// ---------------------------------------------------------------- state on the way

/// What a procedure that changes the state of a boost comes to: the state is told whether it
/// succeeds or fails.
pub enum Step<T> {
    Done(T, StateView, nat),
    Fail(ErrorView, StateView, nat),
    Ask(RequestView),
}

impl<T> Step<T> {
    /// Continues with the result and the state of this step.
    pub open spec fn bind<U>(self, next: spec_fn(T, StateView, nat) -> Step<U>) -> Step<U> {
        match self {
            Step::Done(value, state, at) => next(value, state, at),
            Step::Fail(error, state, at) => Step::Fail(error, state, at),
            Step::Ask(request) => Step::Ask(request),
        }
    }

    /// Continues with the state of this step, whose result is of no further use.
    pub open spec fn next<U>(self, next: spec_fn(StateView, nat) -> Step<U>) -> Step<U> {
        match self {
            Step::Done(_, state, at) => next(state, at),
            Step::Fail(error, state, at) => Step::Fail(error, state, at),
            Step::Ask(request) => Step::Ask(request),
        }
    }
}

/// A procedure that leaves the state as it is.
pub open spec fn held<T>(run: Run<T>, state: StateView) -> Step<T> {
    match run {
        Run::Done(value, at) => Step::Done(value, state, at),
        Run::Fail(error, at) => Step::Fail(error, state, at),
        Run::Ask(request) => Step::Ask(request),
    }
}

/// Whether the outcome of a procedure, which left the state as `state` and used replies up to
/// `at`, is what `step` says.
pub open spec fn told_step<T>(
    r: Result<T, Halt>,
    state: StateView,
    at: usize,
    step: Step<T>,
) -> bool {
    match r {
        Ok(value) => step == Step::Done(value, state, at as nat),
        Err(Halt::Fail(error)) => step == Step::<T>::Fail(error@, state, at as nat),
        Err(Halt::Ask(request)) => step == Step::<T>::Ask(request@),
    }
}

/// Records the state.
pub open spec fn save_run(config: Config, state: StateView, log: Seq<Reply>, at: nat) -> Run<()> {
    done_run(log, at, RequestView::WriteBoost { path: state_path(config), boost: state })
}

fn save(config: &Config, files: &Files, state: &State, log: &Vec<Reply>, at: &mut usize) -> (r:
    Result<(), Halt>)
    requires
        files.of(*config),
        *old(at) <= log.len(),
    ensures
        *final(at) <= log.len(),
        told(r, *final(at), save_run(*config, state@, log@, *old(at) as nat)),
{
    done(log, at, Request::WriteBoost { path: files.state.clone(), boost: state.copy() })
}

/// The recorded state, if there is one.
pub open spec fn read_run(config: Config, log: Seq<Reply>, at: nat) -> Run<Option<State>> {
    reply_run(log, at, RequestView::ReadBoost(state_path(config))).bind(
        |reply: Reply, n: nat|
            match reply {
                Reply::Boost(state) => Run::Done(Some(state), n),
                Reply::Missing => Run::Done(None, n),
                Reply::Failed(error) => Run::Fail(error@, n),
                _ => Run::Fail(mismatch(), n),
            },
    )
}

fn read<'a>(config: &Config, files: &Files, log: &'a Vec<Reply>, at: &mut usize) -> (r: Result<
    Option<&'a State>,
    Halt,
>)
    requires
        files.of(*config),
        *old(at) <= log.len(),
    ensures
        *final(at) <= log.len(),
        told_opt(r, *final(at), read_run(*config, log@, *old(at) as nat)),
{
    match ask(log, at, Request::ReadBoost(files.state.clone()))? {
        Reply::Boost(state) => Ok(Some(state)),
        Reply::Missing => Ok(None),
        Reply::Failed(error) => Err(Halt::Fail(error.clone())),
        _ => Err(mismatched()),
    }
}

// ---------------------------------------------------------------- quotas

/// The reading of an account among readings.
pub open spec fn reading_of(readings: Seq<Observation>, slot: u32) -> Option<UsageRecord>
    decreases readings.len(),
{
    if readings.len() == 0 {
        None
    } else if readings[0].slot == slot {
        Some(readings[0].usage)
    } else {
        reading_of(readings.skip(1), slot)
    }
}

/// Whether an account's weekly quota started anew between two readings.
pub open spec fn account_reset(previous: Seq<Observation>, current: Observation) -> bool {
    match reading_of(previous, current.slot) {
        Some(old) => reset_detected(old, current.usage),
        None => false,
    }
}

/// The first account whose weekly quota started anew between two readings.
pub open spec fn first_reset(previous: Seq<Observation>, current: Seq<Observation>) -> Option<u32>
    decreases current.len(),
{
    if current.len() == 0 {
        None
    } else if account_reset(previous, current[0]) {
        Some(current[0].slot)
    } else {
        first_reset(previous, current.skip(1))
    }
}

fn find_reading(readings: &Vec<Observation>, slot: u32) -> (r: Option<&UsageRecord>)
    ensures
        match r {
            Some(usage) => reading_of(readings@, slot) == Some(*usage),
            None => reading_of(readings@, slot) is None,
        },
{
    let mut i: usize = 0;
    proof {
        assert(readings@.skip(0) =~= readings@);
    }
    while i < readings.len()
        invariant
            i <= readings.len(),
            reading_of(readings@, slot) == reading_of(readings@.skip(i as int), slot),
        decreases readings.len() - i,
    {
        proof {
            assert(readings@.skip(i as int)[0] == readings@[i as int]);
            assert(readings@.skip(i as int).skip(1) =~= readings@.skip(i + 1));
        }
        if readings[i].slot == slot {
            return Some(&readings[i].usage);
        }
        i += 1;
    }
    None
}

/// The first account whose weekly quota started anew between two readings.
pub fn reset_account(previous: &Vec<Observation>, current: &Vec<Observation>) -> (r: Option<u32>)
    ensures
        r == first_reset(previous@, current@),
{
    let mut i: usize = 0;
    proof {
        assert(current@.skip(0) =~= current@);
    }
    while i < current.len()
        invariant
            i <= current.len(),
            first_reset(previous@, current@) == first_reset(previous@, current@.skip(i as int)),
        decreases current.len() - i,
    {
        proof {
            assert(current@.skip(i as int)[0] == current@[i as int]);
            assert(current@.skip(i as int).skip(1) =~= current@.skip(i + 1));
        }
        if let Some(old) = find_reading(previous, current[i].slot) {
            if weekly_reset_detected(old, &current[i].usage) {
                return Some(current[i].slot);
            }
        }
        i += 1;
    }
    None
}

/// Takes the lock of the account store, unless reading the quotas is called off.
pub open spec fn store_lock_run(config: Config, log: Seq<Reply>, at: nat) -> Run<()>
    decreases log.len() - at,
{
    flag_run(log, at, RequestView::Cancelled).bind(
        |stop: bool, n: nat|
            if stop {
                Run::Fail(ErrorView::Cancelled, n)
            } else {
                flag_run(log, n, RequestView::TryLock(config.switch_lock@)).bind(
                    |taken: bool, m: nat|
                        if taken {
                            Run::Done((), m)
                        } else {
                            done_run(log, m, RequestView::Sleep(SHORT_WAIT)).next(
                                |k: nat|
                                    if at < k <= log.len() {
                                        store_lock_run(config, log, k)
                                    } else {
                                        Run::Fail(mismatch(), k)
                                    },
                            )
                        },
                )
            },
    )
}

/// The reading of one account, whose quota has to have a weekly window.
pub open spec fn observation_run(log: Seq<Reply>, at: nat, slot: u32) -> Run<UsageRecord> {
    reply_run(log, at, RequestView::Observation(slot)).bind(
        |reply: Reply, n: nat|
            match reply {
                Reply::Usage(usage) => if weekly_quota(usage) {
                    Run::Done(usage, n)
                } else {
                    Run::Fail(
                        ErrorView::Message(
                            "Codex weekly quota unavailable for account "@ + decimal_text(
                                slot as nat,
                            ) + "; stopping boost."@,
                        ),
                        n,
                    )
                },
                Reply::Failed(error) => Run::Fail(error@, n),
                _ => Run::Fail(mismatch(), n),
            },
    )
}

/// The readings of accounts, one after the other.
pub open spec fn observations_run(log: Seq<Reply>, at: nat, slots: Seq<u32>) -> Run<
    Seq<(u32, UsageRecord)>,
>
    decreases slots.len(),
{
    if slots.len() == 0 {
        Run::Done(Seq::empty(), at)
    } else {
        observations_run(log, at, slots.drop_last()).bind(
            |before: Seq<(u32, UsageRecord)>, n: nat|
                observation_run(log, n, slots.last()).bind(
                    |usage: UsageRecord, m: nat| Run::Done(before.push((slots.last(), usage)), m),
                ),
        )
    }
}

pub open spec fn slots_of(accounts: Seq<Profile>) -> Seq<u32> {
    accounts.map_values(|p: Profile| p.slot)
}

/// Reads the quotas of all accounts.
pub open spec fn collect_run(config: Config, log: Seq<Reply>, at: nat) -> Run<
    Seq<(u32, UsageRecord)>,
> {
    store_lock_run(config, log, at).next(
        |n: nat|
            profiles_run(log, n).bind(
                |accounts: Vec<Profile>, m: nat|
                    if accounts@.len() == 0 {
                        Run::Fail(
                            ErrorView::Message("No enrolled accounts. Run `cxa init` first."@),
                            m,
                        )
                    } else {
                        done_run(
                            log,
                            m,
                            RequestView::QueryProfiles(slots_of(accounts@)),
                        ).next(|k: nat| observations_run(log, k, slots_of(accounts@)))
                    },
            ),
    )
}

fn store_lock(config: &Config, log: &Vec<Reply>, at: &mut usize) -> (r: Result<(), Halt>)
    requires
        *old(at) <= log.len(),
    ensures
        *final(at) <= log.len(),
        told(r, *final(at), store_lock_run(*config, log@, *old(at) as nat)),
{
    loop
        invariant
            *at <= log.len(),
            store_lock_run(*config, log@, *old(at) as nat) == store_lock_run(
                *config,
                log@,
                *at as nat,
            ),
        decreases log.len() - *at,
    {
        if flag(log, at, Request::Cancelled)? {
            return Err(Halt::Fail(Error::Cancelled));
        }
        if flag(log, at, Request::TryLock(config.switch_lock.clone()))? {
            return Ok(());
        }
        done(log, at, Request::Sleep(SHORT_WAIT))?;
    }
}

fn observation<'a>(slot: u32, log: &'a Vec<Reply>, at: &mut usize) -> (r: Result<
    &'a UsageRecord,
    Halt,
>)
    requires
        *old(at) <= log.len(),
    ensures
        *final(at) <= log.len(),
        crate::effects::told_ref(r, *final(at), observation_run(log@, *old(at) as nat, slot)),
{
    match ask(log, at, Request::Observation(slot))? {
        Reply::Usage(usage) => if has_weekly_quota(usage) {
            Ok(usage)
        } else {
            Err(
                Halt::Fail(
                    Error::Message(
                        "Codex weekly quota unavailable for account ".to_owned().concat(
                            &decimal(slot as u64),
                        ).concat("; stopping boost."),
                    ),
                ),
            )
        },
        Reply::Failed(error) => Err(Halt::Fail(error.clone())),
        _ => Err(mismatched()),
    }
}

/// What is handed out by reference.
pub open spec fn readings_view(readings: Seq<(u32, &UsageRecord)>) -> Seq<(u32, UsageRecord)> {
    readings.map_values(|r: (u32, &UsageRecord)| (r.0, *r.1))
}

/// `told` for a procedure that hands out readings of replies.
pub open spec fn told_readings(
    r: Result<Vec<(u32, &UsageRecord)>, Halt>,
    at: usize,
    run: Run<Seq<(u32, UsageRecord)>>,
) -> bool {
    match r {
        Ok(readings) => run == Run::Done(readings_view(readings@), at as nat),
        Err(Halt::Fail(error)) => run == Run::<Seq<(u32, UsageRecord)>>::Fail(error@, at as nat),
        Err(Halt::Ask(request)) => run == Run::<Seq<(u32, UsageRecord)>>::Ask(request@),
    }
}

proof fn lemma_observations_prefix(log: Seq<Reply>, at: nat, slots: Seq<u32>, k: int)
    requires
        0 <= k <= slots.len(),
    ensures
        observations_run(log, at, slots.take(k)) matches Run::Ask(q) ==> observations_run(
            log,
            at,
            slots,
        ) == Run::<Seq<(u32, UsageRecord)>>::Ask(q),
        observations_run(log, at, slots.take(k)) matches Run::Fail(e, n) ==> observations_run(
            log,
            at,
            slots,
        ) == Run::<Seq<(u32, UsageRecord)>>::Fail(e, n),
    decreases slots.len() - k,
{
    if k < slots.len() {
        lemma_observations_prefix(log, at, slots, k + 1);
        assert(slots.take(k + 1).drop_last() =~= slots.take(k));
    } else {
        assert(slots.take(k) =~= slots);
    }
}

/// Reads the quotas of all accounts. Each of them has to have a weekly window.
pub fn collect_quotas<'a>(config: &Config, log: &'a Vec<Reply>, at: &mut usize) -> (r: Result<
    Vec<(u32, &'a UsageRecord)>,
    Halt,
>)
    requires
        *old(at) <= log.len(),
    ensures
        *final(at) <= log.len(),
        told_readings(r, *final(at), collect_run(*config, log@, *old(at) as nat)),
{
    store_lock(config, log, at)?;
    let accounts = profiles(log, at)?;
    if accounts.len() == 0 {
        return Err(
            Halt::Fail(Error::message("No enrolled accounts. Run `cxa init` first.")),
        );
    }
    let mut slots: Vec<u32> = Vec::new();
    let mut i: usize = 0;
    while i < accounts.len()
        invariant
            i <= accounts.len(),
            slots@ == slots_of(accounts@).take(i as int),
        decreases accounts.len() - i,
    {
        slots.push(accounts[i].slot);
        i += 1;
        proof {
            assert(slots@ =~= slots_of(accounts@).take(i as int));
        }
    }
    let ghost all = slots_of(accounts@);
    proof {
        assert(all.take(i as int) =~= all);
    }
    let asked = slots.clone();
    proof {
        assert(asked@ =~= all);
    }
    done(log, at, Request::QueryProfiles(asked))?;
    let ghost begin = *at as nat;
    let mut readings: Vec<(u32, &UsageRecord)> = Vec::new();
    let mut k: usize = 0;
    proof {
        assert(all.take(0) =~= Seq::empty());
        assert(readings_view(readings@) =~= Seq::empty());
    }
    while k < slots.len()
        invariant
            *at <= log.len(),
            k <= slots.len(),
            slots@ == all,
            observations_run(log@, begin, all.take(k as int)) == Run::Done(
                readings_view(readings@),
                *at as nat,
            ),
            collect_run(*config, log@, *old(at) as nat) == observations_run(log@, begin, all),
        decreases slots.len() - k,
    {
        proof {
            assert(all.take(k + 1).drop_last() =~= all.take(k as int));
            assert(all.take(k + 1).last() == slots@[k as int]);
            lemma_observations_prefix(log@, begin, all, k + 1);
        }
        let usage = observation(slots[k], log, at)?;
        let ghost was = readings@;
        readings.push((slots[k], usage));
        proof {
            assert(readings_view(readings@) =~= readings_view(was).push((slots@[k as int], *usage)));
        }
        k += 1;
    }
    proof {
        assert(all.take(k as int) =~= all);
    }
    Ok(readings)
}

/// Waits until a time, unless reading the quotas is called off.
pub open spec fn pause_run(until: u64, log: Seq<Reply>, at: nat) -> Run<()>
    decreases log.len() - at,
{
    clock_run(log, at).bind(
        |now: u64, n: nat|
            if now >= until {
                Run::Done((), n)
            } else {
                flag_run(log, n, RequestView::Cancelled).bind(
                    |stop: bool, m: nat|
                        if stop {
                            Run::Done((), m)
                        } else {
                            done_run(log, m, RequestView::Sleep(SHORT_WAIT)).next(
                                |k: nat|
                                    if at < k <= log.len() {
                                        pause_run(until, log, k)
                                    } else {
                                        Run::Fail(mismatch(), k)
                                    },
                            )
                        },
                )
            },
    )
}

/// One reading of all quotas for whoever takes it, and the pause behind it: whether another one
/// follows. A reading that nobody has taken yet does not hold up the next one.
pub open spec fn monitor_run(log: Seq<Reply>, at: nat) -> Run<bool> {
    flag_run(log, at, RequestView::Cancelled).bind(
        |stop: bool, n: nat|
            if stop {
                Run::Done(false, n)
            } else {
                flag_run(log, n, RequestView::OfferQuotas).bind(
                    |wanted: bool, m: nat|
                        if !wanted {
                            Run::Done(false, m)
                        } else {
                            clock_run(log, m).bind(
                                |now: u64, k: nat|
                                    pause_run(later(now, POLL_INTERVAL), log, k).next(
                                        |l: nat| Run::Done(true, l),
                                    ),
                            )
                        },
                )
            },
    )
}

fn pause(until: u64, log: &Vec<Reply>, at: &mut usize) -> (r: Result<(), Halt>)
    requires
        *old(at) <= log.len(),
    ensures
        *final(at) <= log.len(),
        told(r, *final(at), pause_run(until, log@, *old(at) as nat)),
{
    loop
        invariant
            *at <= log.len(),
            pause_run(until, log@, *old(at) as nat) == pause_run(until, log@, *at as nat),
        decreases log.len() - *at,
    {
        let now: u64 = clock(log, at)?;
        if now >= until {
            return Ok(());
        }
        if flag(log, at, Request::Cancelled)? {
            return Ok(());
        }
        done(log, at, Request::Sleep(SHORT_WAIT))?;
    }
}

/// Reads all quotas once for whoever takes the reading, and pauses: whether to go on.
pub fn monitor(log: &Vec<Reply>, at: &mut usize) -> (r: Result<bool, Halt>)
    requires
        *old(at) <= log.len(),
    ensures
        *final(at) <= log.len(),
        told(r, *final(at), monitor_run(log@, *old(at) as nat)),
{
    if flag(log, at, Request::Cancelled)? {
        return Ok(false);
    }
    if !flag(log, at, Request::OfferQuotas)? {
        return Ok(false);
    }
    let now: u64 = clock(log, at)?;
    pause(now.saturating_add(POLL_INTERVAL), log, at)?;
    Ok(true)
}

// ---------------------------------------------------------------- beginning

/// How a boost begins: it is over already, or it is active and the first reading of the quotas is
/// the reply at this place.
pub enum Begun {
    Over(String),
    Ready(usize),
}

/// What is known of how a boost begins.
pub enum BegunView {
    Over(Seq<char>),
    Ready(nat),
}

impl View for Begun {
    type V = BegunView;

    open spec fn view(&self) -> BegunView {
        match self {
            Begun::Over(reason) => BegunView::Over(reason@),
            Begun::Ready(place) => BegunView::Ready(*place as nat),
        }
    }
}

/// Waits for the first reading of the quotas.
pub open spec fn first_quotas_run(config: Config, deadline: i64, log: Seq<Reply>, at: nat) -> Run<
    BegunView,
>
    decreases log.len() - at,
{
    cutoff_run(config, deadline, log, at).bind(
        |over: Option<Seq<char>>, n: nat|
            match over {
                Some(reason) => Run::Done(BegunView::Over(reason), n),
                None => reply_run(log, n, RequestView::WaitQuotas(SHORT_WAIT)).bind(
                    |reply: Reply, m: nat|
                        match reply {
                            Reply::Quotas(_) => Run::Done(BegunView::Ready(n), m),
                            Reply::Missing => if at < m <= log.len() {
                                first_quotas_run(config, deadline, log, m)
                            } else {
                                Run::Fail(mismatch(), m)
                            },
                            Reply::Closed => Run::Fail(
                                ErrorView::Message("Quota monitor stopped."@),
                                m,
                            ),
                            Reply::Failed(error) => Run::Fail(error@, m),
                            _ => Run::Fail(mismatch(), m),
                        },
                ),
            },
    )
}

/// Records that a boost is active.
pub open spec fn activated_step(
    config: Config,
    state: StateView,
    begun: BegunView,
    log: Seq<Reply>,
    at: nat,
) -> Step<BegunView> {
    let marked = StateView { defaults_pending: true, activated: true, ..state };
    held(save_run(config, marked, log, at), marked).next(
        |_s: StateView, n: nat|
            {
                let active = StateView { phase: Phase::Active, ..marked };
                held(save_run(config, active, log, n), active).next(
                    |_t: StateView, m: nat| Step::Done(begun, active, m),
                )
            },
    )
}

/// Begins a boost: checks the app servers, waits for the first reading of the quotas, and records
/// that the boost is active.
pub open spec fn begin_step(config: Config, state: StateView, log: Seq<Reply>, at: nat) -> Step<
    BegunView,
> {
    held(preflight_run(log, at, state.sockets), state).next(
        |_s: StateView, n: nat|
            held(first_quotas_run(config, state.deadline, log, n), state).bind(
                |begun: BegunView, _t: StateView, m: nat|
                    match begun {
                        BegunView::Over(reason) => Step::Done(BegunView::Over(reason), state, m),
                        BegunView::Ready(place) => held(
                            cutoff_run(config, state.deadline, log, m),
                            state,
                        ).bind(
                            |over: Option<Seq<char>>, _u: StateView, k: nat|
                                match over {
                                    Some(reason) => Step::Done(BegunView::Over(reason), state, k),
                                    None => activated_step(
                                        config,
                                        state,
                                        BegunView::Ready(place),
                                        log,
                                        k,
                                    ),
                                },
                        ),
                    },
            ),
    )
}

/// `told` for a procedure that begins a boost.
pub open spec fn told_begun(r: Result<Begun, Halt>, at: usize, run: Run<BegunView>) -> bool {
    match r {
        Ok(value) => run == Run::Done(value@, at as nat),
        Err(Halt::Fail(error)) => run == Run::<BegunView>::Fail(error@, at as nat),
        Err(Halt::Ask(request)) => run == Run::<BegunView>::Ask(request@),
    }
}

/// `told_begun` with the state of the boost.
pub open spec fn told_begun_step(
    r: Result<Begun, Halt>,
    state: StateView,
    at: usize,
    step: Step<BegunView>,
) -> bool {
    match r {
        Ok(value) => step == Step::Done(value@, state, at as nat),
        Err(Halt::Fail(error)) => step == Step::<BegunView>::Fail(error@, state, at as nat),
        Err(Halt::Ask(request)) => step == Step::<BegunView>::Ask(request@),
    }
}

fn first_quotas(
    config: &Config,
    files: &Files,
    deadline: i64,
    log: &Vec<Reply>,
    at: &mut usize,
) -> (r: Result<Begun, Halt>)
    requires
        files.of(*config),
        *old(at) <= log.len(),
    ensures
        *final(at) <= log.len(),
        told_begun(r, *final(at), first_quotas_run(*config, deadline, log@, *old(at) as nat)),
{
    loop
        invariant
            files.of(*config),
            *at <= log.len(),
            first_quotas_run(*config, deadline, log@, *old(at) as nat) == first_quotas_run(
                *config,
                deadline,
                log@,
                *at as nat,
            ),
        decreases log.len() - *at,
    {
        if let Some(reason) = cutoff(config, files, deadline, log, at)? {
            return Ok(Begun::Over(reason));
        }
        let place: usize = *at;
        match ask(log, at, Request::WaitQuotas(SHORT_WAIT))? {
            Reply::Quotas(_) => return Ok(Begun::Ready(place)),
            Reply::Missing => {},
            Reply::Closed => {
                return Err(Halt::Fail(Error::message("Quota monitor stopped.")));
            },
            Reply::Failed(error) => {
                return Err(Halt::Fail(error.clone()));
            },
            _ => {
                return Err(mismatched());
            },
        }
    }
}

/// Begins a boost: checks the app servers, waits for the first reading of the quotas, and records
/// that the boost is active.
pub fn begin(config: &Config, state: &mut State, log: &Vec<Reply>, at: &mut usize) -> (r: Result<
    Begun,
    Halt,
>)
    requires
        *old(at) <= log.len(),
    ensures
        *final(at) <= log.len(),
        told_begun_step(
            r,
            final(state)@,
            *final(at),
            begin_step(*config, old(state)@, log@, *old(at) as nat),
        ),
        ordered(old(state)@.tasks) ==> ordered(final(state)@.tasks) || (r matches Err(Halt::Ask(_))),
{
    proof {
        if ordered(state@.tasks) {
            law_beginning_keeps_order(*config, state@, log@, *at as nat);
        }
    }
    let files = Files::new(config);
    preflight(&state.sockets, log, at)?;
    let begun = first_quotas(config, &files, state.deadline, log, at)?;
    match begun {
        Begun::Over(reason) => Ok(Begun::Over(reason)),
        Begun::Ready(place) => {
            if let Some(reason) = cutoff(config, &files, state.deadline, log, at)? {
                return Ok(Begun::Over(reason));
            }
            state.defaults_pending = true;
            state.activated = true;
            save(config, &files, state, log, at)?;
            state.phase = Phase::Active;
            save(config, &files, state, log, at)?;
            Ok(Begun::Ready(place))
        },
    }
}

// ---------------------------------------------------------------- one round

/// What a round of a boost comes to: it is over, or it goes on. Where new readings of the quotas
/// came, the last of them is the reply at `latest`; `seen` is when they came.
pub enum Round {
    Over(String),
    Again { latest: Option<usize>, seen: u64 },
}

/// What is known of a round's outcome.
pub enum RoundView {
    Over(Seq<char>),
    Again { latest: Option<nat>, seen: u64 },
}

impl View for Round {
    type V = RoundView;

    open spec fn view(&self) -> RoundView {
        match self {
            Round::Over(reason) => RoundView::Over(reason@),
            Round::Again { latest, seen } => RoundView::Again {
                latest: match latest {
                    Some(place) => Some(*place as nat),
                    None => None,
                },
                seen: *seen,
            },
        }
    }
}

/// `told_step` for a round.
pub open spec fn told_round(
    r: Result<Round, Halt>,
    state: StateView,
    at: usize,
    step: Step<RoundView>,
) -> bool {
    match r {
        Ok(value) => step == Step::Done(value@, state, at as nat),
        Err(Halt::Fail(error)) => step == Step::<RoundView>::Fail(error@, state, at as nat),
        Err(Halt::Ask(request)) => step == Step::<RoundView>::Ask(request@),
    }
}

/// `told` for a part of a round that leaves the state as it is.
pub open spec fn told_round_run(r: Result<Round, Halt>, at: usize, run: Run<RoundView>) -> bool {
    match r {
        Ok(value) => run == Run::Done(value@, at as nat),
        Err(Halt::Fail(error)) => run == Run::<RoundView>::Fail(error@, at as nat),
        Err(Halt::Ask(request)) => run == Run::<RoundView>::Ask(request@),
    }
}

/// Why a boost ends when an account's weekly quota starts anew.
pub open spec fn reset_reason(slot: u32) -> Seq<char> {
    "Codex weekly quota reset observed on account "@ + decimal_text(slot as nat)
}

/// Takes the readings of the quotas that have come, one after the other.
pub open spec fn quotas_run(
    log: Seq<Reply>,
    at: nat,
    previous: Seq<Observation>,
    latest: Option<nat>,
    seen: u64,
) -> Run<RoundView>
    decreases log.len() - at,
{
    reply_run(log, at, RequestView::NextQuotas).bind(
        |reply: Reply, n: nat|
            match reply {
                Reply::Quotas(current) => match first_reset(previous, current@) {
                    Some(slot) => Run::Done(RoundView::Over(reset_reason(slot)), n),
                    None => clock_run(log, n).bind(
                        |now: u64, m: nat|
                            if at < m <= log.len() {
                                quotas_run(log, m, current@, Some(at), now)
                            } else {
                                Run::Fail(mismatch(), m)
                            },
                    ),
                },
                Reply::Missing | Reply::Closed => Run::Done(RoundView::Again { latest, seen }, n),
                Reply::Failed(error) => Run::Fail(error@, n),
                _ => Run::Fail(mismatch(), n),
            },
    )
}

fn next_quotas(
    previous: &Vec<Observation>,
    last: u64,
    log: &Vec<Reply>,
    at: &mut usize,
) -> (r: Result<Round, Halt>)
    requires
        *old(at) <= log.len(),
    ensures
        *final(at) <= log.len(),
        told_round_run(
            r,
            *final(at),
            quotas_run(log@, *old(at) as nat, previous@, None, last),
        ),
{
    let mut readings = previous;
    let mut latest: Option<usize> = None;
    let mut seen: u64 = last;
    loop
        invariant
            *at <= log.len(),
            quotas_run(log@, *old(at) as nat, previous@, None, last) == quotas_run(
                log@,
                *at as nat,
                readings@,
                match latest {
                    Some(place) => Some(place as nat),
                    None => None,
                },
                seen,
            ),
        decreases log.len() - *at,
    {
        let place: usize = *at;
        match ask(log, at, Request::NextQuotas)? {
            Reply::Quotas(current) => {
                if let Some(slot) = reset_account(readings, current) {
                    return Ok(
                        Round::Over(
                            "Codex weekly quota reset observed on account ".to_owned().concat(
                                &decimal(slot as u64),
                            ),
                        ),
                    );
                }
                readings = current;
                latest = Some(place);
                seen = clock(log, at)?;
            },
            Reply::Missing => {
                return Ok(Round::Again { latest, seen });
            },
            Reply::Closed => {
                return Ok(Round::Again { latest, seen });
            },
            Reply::Failed(error) => {
                return Err(Halt::Fail(error.clone()));
            },
            _ => {
                return Err(mismatched());
            },
        }
    }
}

/// Takes a task in and boosts it, where it has settings.
pub open spec fn task_step(
    config: Config,
    state: StateView,
    task: TaskView,
    log: Seq<Reply>,
    at: nat,
) -> Step<Option<Seq<char>>> {
    held(cutoff_run(config, state.deadline, log, at), state).bind(
        |over: Option<Seq<char>>, _s: StateView, n: nat|
            if over is Some {
                Step::Done(over, state, n)
            } else {
                held(settings_run(log, n, task.thread_id), state).bind(
                    |found: Option<JsonView>, _t: StateView, m: nat|
                        match found {
                            None => Step::Done(None, state, m),
                            Some(settings) => {
                                let new = !enrolled(state.tasks, task);
                                let taken = StateView {
                                    tasks: with_task(state.tasks, task),
                                    ..state
                                };
                                let saved = if new {
                                    save_run(config, taken, log, m)
                                } else {
                                    Run::Done((), m)
                                };
                                held(
                                    saved.next(
                                        |k: nat|
                                            boost_run(
                                                config,
                                                state.deadline,
                                                log,
                                                k,
                                                task,
                                                settings,
                                                new,
                                            ).next(|q: nat| Run::Done(None, q)),
                                    ),
                                    taken,
                                )
                            },
                        },
                )
            },
    )
}

/// Takes tasks in and boosts them, until a reason to end shows.
pub open spec fn tasks_step(
    config: Config,
    state: StateView,
    tasks: Seq<TaskView>,
    log: Seq<Reply>,
    at: nat,
) -> Step<Option<Seq<char>>>
    decreases tasks.len(),
{
    if tasks.len() == 0 {
        Step::Done(None, state, at)
    } else {
        task_step(config, state, tasks[0], log, at).bind(
            |over: Option<Seq<char>>, s: StateView, n: nat|
                if over is Some {
                    Step::Done(over, s, n)
                } else {
                    tasks_step(config, s, tasks.skip(1), log, n)
                },
        )
    }
}

/// How many milliseconds are left until a deadline in seconds.
pub open spec fn left_until(deadline: i64, now_ms: i64) -> int {
    let exact = if deadline * 1000 > i64::MAX {
        i64::MAX as int
    } else if deadline * 1000 < i64::MIN {
        i64::MIN as int
    } else {
        deadline * 1000
    };
    let left = exact - now_ms;
    if left < 0 {
        0
    } else if left > i64::MAX {
        i64::MAX as int
    } else {
        left
    }
}

/// Boosts the tasks of one app server.
pub open spec fn server_step(
    config: Config,
    state: StateView,
    path: Seq<char>,
    log: Seq<Reply>,
    at: nat,
) -> Step<Option<Seq<char>>> {
    held(
        connect_run(log, at, path).next(
            |n: nat|
                time_run(log, n, RequestView::Millis).bind(
                    |now: i64, m: nat|
                        done_run(
                            log,
                            m,
                            RequestView::LimitCalls(left_until(state.deadline, now) as u64),
                        ).next(
                            |k: nat|
                                loaded_run(log, k, path, None, Seq::empty(), Seq::empty()),
                        ),
                ),
        ),
        state,
    ).bind(
        |tasks: Seq<TaskView>, _s: StateView, n: nat| tasks_step(config, state, tasks, log, n),
    )
}

/// Boosts the tasks of app servers, until a reason to end shows.
pub open spec fn servers_step(
    config: Config,
    state: StateView,
    paths: Seq<Seq<char>>,
    log: Seq<Reply>,
    at: nat,
) -> Step<Option<Seq<char>>>
    decreases paths.len(),
{
    if paths.len() == 0 {
        Step::Done(None, state, at)
    } else {
        server_step(config, state, paths[0], log, at).bind(
            |over: Option<Seq<char>>, s: StateView, n: nat|
                if over is Some {
                    Step::Done(over, s, n)
                } else {
                    servers_step(config, s, paths.skip(1), log, n)
                },
        )
    }
}

/// Waits `times` short whiles, until a reason to end shows.
pub open spec fn linger_run(config: Config, deadline: i64, times: nat, log: Seq<Reply>, at: nat) -> Run<
    Option<Seq<char>>,
>
    decreases times,
{
    if times == 0 {
        Run::Done(None, at)
    } else {
        cutoff_run(config, deadline, log, at).bind(
            |over: Option<Seq<char>>, n: nat|
                if over is Some {
                    Run::Done(over, n)
                } else {
                    done_run(log, n, RequestView::Sleep(SHORT_WAIT)).next(
                        |m: nat| linger_run(config, deadline, (times - 1) as nat, log, m),
                    )
                },
        )
    }
}

/// The part of a round that follows the readings of the quotas.
pub open spec fn work_step(
    config: Config,
    state: StateView,
    latest: Option<nat>,
    seen: u64,
    log: Seq<Reply>,
    at: nat,
) -> Step<RoundView> {
    held(clock_run(log, at), state).bind(
        |now: u64, _s: StateView, n: nat|
            if now - seen > QUOTA_AGE {
                Step::Fail(
                    ErrorView::Message("No fresh quota observations for 60 seconds."@),
                    state,
                    n,
                )
            } else {
                servers_step(config, state, state.sockets, log, n).bind(
                    |over: Option<Seq<char>>, s: StateView, m: nat|
                        match over {
                            Some(reason) => Step::Done(RoundView::Over(reason), s, m),
                            None => held(
                                linger_run(config, s.deadline, 10, log, m),
                                s,
                            ).bind(
                                |late: Option<Seq<char>>, _t: StateView, k: nat|
                                    Step::Done(
                                        match late {
                                            Some(reason) => RoundView::Over(reason),
                                            None => RoundView::Again { latest, seen },
                                        },
                                        s,
                                        k,
                                    ),
                            ),
                        },
                )
            },
    )
}

/// One round of a boost: looks for a reason to end, takes the readings of the quotas, boosts the
/// tasks of all app servers, and waits a second.
pub open spec fn round_step(
    config: Config,
    state: StateView,
    previous: Seq<Observation>,
    last: u64,
    log: Seq<Reply>,
    at: nat,
) -> Step<RoundView> {
    held(cutoff_run(config, state.deadline, log, at), state).bind(
        |over: Option<Seq<char>>, _s: StateView, n: nat|
            match over {
                Some(reason) => Step::Done(RoundView::Over(reason), state, n),
                None => held(quotas_run(log, n, previous, None, last), state).bind(
                    |round: RoundView, _t: StateView, m: nat|
                        match round {
                            RoundView::Over(reason) => Step::Done(
                                RoundView::Over(reason),
                                state,
                                m,
                            ),
                            RoundView::Again { latest, seen } => work_step(
                                config,
                                state,
                                latest,
                                seen,
                                log,
                                m,
                            ),
                        },
                ),
            },
    )
}

/// `told_step` for a procedure whose result is an optional text.
pub open spec fn told_reason(
    r: Result<Option<String>, Halt>,
    state: StateView,
    at: usize,
    step: Step<Option<Seq<char>>>,
) -> bool {
    match r {
        Ok(value) => step == Step::Done(opt_text(value), state, at as nat),
        Err(Halt::Fail(error)) => step == Step::<Option<Seq<char>>>::Fail(
            error@,
            state,
            at as nat,
        ),
        Err(Halt::Ask(request)) => step == Step::<Option<Seq<char>>>::Ask(request@),
    }
}

fn take_task(
    config: &Config,
    files: &Files,
    state: &mut State,
    task: &Task,
    log: &Vec<Reply>,
    at: &mut usize,
) -> (r: Result<Option<String>, Halt>)
    requires
        files.of(*config),
        *old(at) <= log.len(),
    ensures
        *final(at) <= log.len(),
        told_reason(
            r,
            final(state)@,
            *final(at),
            task_step(*config, old(state)@, task@, log@, *old(at) as nat),
        ),
{
    if let Some(reason) = cutoff(config, files, state.deadline, log, at)? {
        return Ok(Some(reason));
    }
    let settings = match live_settings(&task.thread_id, log, at)? {
        Some(settings) => settings,
        None => return Ok(None),
    };
    let new = insert_task(&mut state.tasks, task.copy());
    if new {
        save(config, files, state, log, at)?;
    }
    boost_task(config, files, task, settings, state.deadline, new, log, at)?;
    Ok(None)
}

fn take_tasks(
    config: &Config,
    files: &Files,
    state: &mut State,
    tasks: &Vec<Task>,
    log: &Vec<Reply>,
    at: &mut usize,
) -> (r: Result<Option<String>, Halt>)
    requires
        files.of(*config),
        *old(at) <= log.len(),
    ensures
        *final(at) <= log.len(),
        told_reason(
            r,
            final(state)@,
            *final(at),
            tasks_step(*config, old(state)@, task_views(tasks@), log@, *old(at) as nat),
        ),
{
    let ghost all = task_views(tasks@);
    let mut i: usize = 0;
    proof {
        assert(all.skip(0) =~= all);
    }
    while i < tasks.len()
        invariant
            files.of(*config),
            *at <= log.len(),
            i <= tasks.len(),
            all == task_views(tasks@),
            tasks_step(*config, old(state)@, all, log@, *old(at) as nat) == tasks_step(
                *config,
                state@,
                all.skip(i as int),
                log@,
                *at as nat,
            ),
        decreases tasks.len() - i,
    {
        proof {
            assert(all.skip(i as int)[0] == tasks@[i as int]@);
            assert(all.skip(i as int).skip(1) =~= all.skip(i + 1));
        }
        if let Some(reason) = take_task(config, files, state, &tasks[i], log, at)? {
            return Ok(Some(reason));
        }
        i += 1;
    }
    Ok(None)
}

fn millis_left(deadline: i64, now_ms: i64) -> (r: u64)
    ensures
        r == left_until(deadline, now_ms),
{
    let product: i128 = deadline as i128 * 1000;
    let exact: i128 = if product > 0x7fff_ffff_ffff_ffff {
        0x7fff_ffff_ffff_ffff
    } else if product < -0x8000_0000_0000_0000 {
        -0x8000_0000_0000_0000
    } else {
        product
    };
    let left: i128 = exact - now_ms as i128;
    if left < 0 {
        0
    } else if left > 0x7fff_ffff_ffff_ffff {
        0x7fff_ffff_ffff_ffff
    } else {
        left as u64
    }
}

fn take_server(
    config: &Config,
    files: &Files,
    state: &mut State,
    path: &str,
    log: &Vec<Reply>,
    at: &mut usize,
) -> (r: Result<Option<String>, Halt>)
    requires
        files.of(*config),
        *old(at) <= log.len(),
    ensures
        *final(at) <= log.len(),
        told_reason(
            r,
            final(state)@,
            *final(at),
            server_step(*config, old(state)@, path@, log@, *old(at) as nat),
        ),
{
    connect(path, log, at)?;
    let now: i64 = time(log, at, Request::Millis)?;
    done(log, at, Request::LimitCalls(millis_left(state.deadline, now)))?;
    let tasks = loaded_tasks(path, log, at)?;
    take_tasks(config, files, state, &tasks, log, at)
}

fn take_servers(
    config: &Config,
    files: &Files,
    state: &mut State,
    log: &Vec<Reply>,
    at: &mut usize,
) -> (r: Result<Option<String>, Halt>)
    requires
        files.of(*config),
        *old(at) <= log.len(),
    ensures
        *final(at) <= log.len(),
        told_reason(
            r,
            final(state)@,
            *final(at),
            servers_step(*config, old(state)@, old(state)@.sockets, log@, *old(at) as nat),
        ),
{
    let paths = copy_all(&state.sockets);
    let ghost all = texts(paths@);
    let mut i: usize = 0;
    proof {
        assert(all.skip(0) =~= all);
    }
    while i < paths.len()
        invariant
            files.of(*config),
            *at <= log.len(),
            i <= paths.len(),
            all == texts(paths@),
            all == old(state)@.sockets,
            servers_step(*config, old(state)@, all, log@, *old(at) as nat) == servers_step(
                *config,
                state@,
                all.skip(i as int),
                log@,
                *at as nat,
            ),
        decreases paths.len() - i,
    {
        proof {
            assert(all.skip(i as int)[0] == paths@[i as int]@);
            assert(all.skip(i as int).skip(1) =~= all.skip(i + 1));
        }
        if let Some(reason) = take_server(config, files, state, &paths[i], log, at)? {
            return Ok(Some(reason));
        }
        i += 1;
    }
    Ok(None)
}

fn linger(
    config: &Config,
    files: &Files,
    deadline: i64,
    log: &Vec<Reply>,
    at: &mut usize,
) -> (r: Result<Option<String>, Halt>)
    requires
        files.of(*config),
        *old(at) <= log.len(),
    ensures
        *final(at) <= log.len(),
        crate::effects::told_opt_text(
            r,
            *final(at),
            linger_run(*config, deadline, 10, log@, *old(at) as nat),
        ),
{
    let mut left: usize = 10;
    while left > 0
        invariant
            files.of(*config),
            *at <= log.len(),
            linger_run(*config, deadline, 10, log@, *old(at) as nat) == linger_run(
                *config,
                deadline,
                left as nat,
                log@,
                *at as nat,
            ),
        decreases left,
    {
        if let Some(reason) = cutoff(config, files, deadline, log, at)? {
            return Ok(Some(reason));
        }
        done(log, at, Request::Sleep(SHORT_WAIT))?;
        left -= 1;
    }
    Ok(None)
}

/// One round of a boost: looks for a reason to end, takes the readings of the quotas, boosts the
/// tasks of all app servers, and waits a second. `previous` are the readings before this round,
/// and `last` is when they came.
pub fn round(
    config: &Config,
    state: &mut State,
    previous: &Vec<Observation>,
    last: u64,
    log: &Vec<Reply>,
    at: &mut usize,
) -> (r: Result<Round, Halt>)
    requires
        *old(at) <= log.len(),
    ensures
        *final(at) <= log.len(),
        told_round(
            r,
            final(state)@,
            *final(at),
            round_step(*config, old(state)@, previous@, last, log@, *old(at) as nat),
        ),
        ordered(old(state)@.tasks) ==> ordered(final(state)@.tasks) || (r matches Err(Halt::Ask(_))),
{
    proof {
        if ordered(state@.tasks) {
            law_rounds_keep_order(*config, state@, previous@, last, log@, *at as nat);
        }
    }
    let files = Files::new(config);
    if let Some(reason) = cutoff(config, &files, state.deadline, log, at)? {
        return Ok(Round::Over(reason));
    }
    let (latest, seen): (Option<usize>, u64) = match next_quotas(previous, last, log, at)? {
        Round::Over(reason) => {
            return Ok(Round::Over(reason));
        },
        Round::Again { latest, seen } => (latest, seen),
    };
    let now: u64 = clock(log, at)?;
    if now > seen && now - seen > QUOTA_AGE {
        return Err(
            Halt::Fail(Error::message("No fresh quota observations for 60 seconds.")),
        );
    }
    if let Some(reason) = take_servers(config, &files, state, log, at)? {
        return Ok(Round::Over(reason));
    }
    if let Some(reason) = linger(config, &files, state.deadline, log, at)? {
        return Ok(Round::Over(reason));
    }
    Ok(Round::Again { latest, seen })
}

// ---------------------------------------------------------------- cleaning up

/// What is noted where the state could not be recorded.
pub open spec fn unsaved_text(error: ErrorView) -> Seq<char> {
    "Recovery state could not be saved: "@ + error.text()
}

/// Records the state as well as it can be: where that fails, the rest of the cleanup goes on.
pub open spec fn saved_step(config: Config, state: StateView, log: Seq<Reply>, at: nat) -> Step<()> {
    match save_run(config, state, log, at) {
        Run::Done(_, n) => Step::Done((), state, n),
        Run::Ask(request) => Step::Ask(request),
        Run::Fail(error, n) => Step::Done(
            (),
            StateView {
                errors: if state.errors.contains(unsaved_text(error)) {
                    state.errors
                } else {
                    state.errors.push(unsaved_text(error))
                },
                phase: Phase::CleanupRequired,
                ..state
            },
            n,
        ),
    }
}

fn push_error(state: &mut State, text: String)
    ensures
        final(state)@ == (StateView { errors: old(state)@.errors.push(text@), ..old(state)@ }),
{
    state.errors.push(text);
    proof {
        assert(texts(state.errors@) =~= texts(old(state).errors@).push(text@));
    }
}

fn save_cleanup(
    config: &Config,
    files: &Files,
    state: &mut State,
    log: &Vec<Reply>,
    at: &mut usize,
) -> (r: Result<(), Halt>)
    requires
        files.of(*config),
        *old(at) <= log.len(),
    ensures
        *final(at) <= log.len(),
        told_step(
            r,
            final(state)@,
            *final(at),
            saved_step(*config, old(state)@, log@, *old(at) as nat),
        ),
{
    match save(config, files, state, log, at) {
        Ok(_) => {},
        Err(Halt::Ask(request)) => {
            return Err(Halt::Ask(request));
        },
        Err(Halt::Fail(error)) => {
            let text = "Recovery state could not be saved: ".to_owned().concat(&error.text());
            if !holds(&state.errors, &text) {
                push_error(state, text);
            }
            state.phase = Phase::CleanupRequired;
        },
    }
    Ok(())
}

/// Looks for tasks that came up just before the end, on all app servers.
pub open spec fn discover_step(
    state: StateView,
    paths: Seq<Seq<char>>,
    log: Seq<Reply>,
    at: nat,
) -> Step<()>
    decreases paths.len(),
{
    if paths.len() == 0 {
        Step::Done((), state, at)
    } else {
        held(
            connect_run(log, at, paths[0]).next(
                |n: nat| loaded_run(log, n, paths[0], None, Seq::empty(), Seq::empty()),
            ).attempt(),
            state,
        ).bind(
            |found: Result<Seq<TaskView>, ErrorView>, _s: StateView, n: nat|
                discover_step(
                    match found {
                        Ok(tasks) => StateView {
                            tasks: with_tasks(state.tasks, tasks),
                            ..state
                        },
                        Err(error) => StateView {
                            errors: state.errors.push(error.text()),
                            ..state
                        },
                    },
                    paths.skip(1),
                    log,
                    n,
                ),
        )
    }
}

/// Stops one task and sets it back to the baseline.
pub open spec fn restore_run(log: Seq<Reply>, at: nat, task: TaskView) -> Run<()> {
    connect_run(log, at, task.socket).next(
        |n: nat|
            settings_run(log, n, task.thread_id).bind(
                |found: Option<JsonView>, m: nat|
                    if found is None {
                        Run::Done((), m)
                    } else {
                        interrupt_run(log, m, task.thread_id).next(
                            |k: nat| set_run(log, k, task.thread_id, false),
                        )
                    },
            ),
    )
}

/// What is noted of a task that could not be set back.
pub open spec fn task_error(task: TaskView, error: ErrorView) -> Seq<char> {
    "Task "@ + task.thread_id + " on "@ + task.socket + ": "@ + error.text()
}

/// Stops tasks and sets them back; those that were set back are struck off.
pub open spec fn restore_step(
    config: Config,
    state: StateView,
    tasks: Seq<TaskView>,
    log: Seq<Reply>,
    at: nat,
) -> Step<()>
    decreases tasks.len(),
{
    if tasks.len() == 0 {
        Step::Done((), state, at)
    } else {
        held(restore_run(log, at, tasks[0]).attempt(), state).bind(
            |outcome: Result<(), ErrorView>, _s: StateView, n: nat|
                saved_step(
                    config,
                    match outcome {
                        Ok(_) => StateView {
                            tasks: without_task(state.tasks, tasks[0]),
                            ..state
                        },
                        Err(error) => StateView {
                            errors: state.errors.push(task_error(tasks[0], error)),
                            ..state
                        },
                    },
                    log,
                    n,
                ).next(|s: StateView, m: nat| restore_step(config, s, tasks.skip(1), log, m)),
        )
    }
}

/// Sets the defaults back, where that is still to be done.
pub open spec fn defaults_step(config: Config, state: StateView, log: Seq<Reply>, at: nat) -> Step<
    (),
> {
    if !state.defaults_pending {
        Step::Done((), state, at)
    } else {
        held(baseline_run(config, log, at).attempt(), state).bind(
            |outcome: Result<(), ErrorView>, _s: StateView, n: nat|
                Step::Done(
                    (),
                    match outcome {
                        Ok(_) => StateView { defaults_pending: false, ..state },
                        Err(error) => StateView {
                            errors: state.errors.push("Global defaults: "@ + error.text()),
                            ..state
                        },
                    },
                    n,
                ),
        )
    }
}

/// The state after all tasks and the defaults were dealt with.
pub open spec fn settled(state: StateView) -> StateView {
    if state.errors.len() == 0 && !state.defaults_pending && state.tasks.len() == 0 {
        StateView { activated: false, phase: Phase::Stopped, ..state }
    } else {
        StateView { phase: Phase::CleanupRequired, ..state }
    }
}

/// Strikes the request to stop.
pub open spec fn unrequest_step(config: Config, state: StateView, log: Seq<Reply>, at: nat) -> Step<
    (),
> {
    held(done_run(log, at, RequestView::Remove(stop_path(config))).attempt(), state).bind(
        |outcome: Result<(), ErrorView>, _s: StateView, n: nat|
            match outcome {
                Ok(_) => Step::Done((), state, n),
                Err(error) => saved_step(
                    config,
                    StateView {
                        errors: state.errors.push(error.text()),
                        phase: Phase::CleanupRequired,
                        ..state
                    },
                    log,
                    n,
                ),
            },
    )
}

pub open spec fn incomplete_text(config: Config) -> Seq<char> {
    "Boost cleanup is incomplete; run `cxa boost status`, restore the server connection, then `cxa boost stop`. See "@
        + state_path(config) + "."@
}

/// Ends a boost: its tasks are stopped and set back, and the defaults with them.
pub open spec fn cleanup_step(config: Config, state: StateView, log: Seq<Reply>, at: nat) -> Step<()> {
    saved_step(
        config,
        StateView { phase: Phase::Stopping, errors: Seq::empty(), ..state },
        log,
        at,
    ).next(
        |s: StateView, n: nat|
            (if s.activated {
                discover_step(s, s.sockets, log, n).next(
                    |t: StateView, m: nat| saved_step(config, t, log, m),
                )
            } else {
                Step::Done((), s, n)
            }).next(
                |t: StateView, m: nat|
                    restore_step(config, t, t.tasks, log, m).next(
                        |u: StateView, k: nat|
                            defaults_step(config, u, log, k).next(
                                |v: StateView, p: nat|
                                    saved_step(config, settled(v), log, p).next(
                                        |w: StateView, q: nat|
                                            unrequest_step(config, w, log, q).next(
                                                |x: StateView, z: nat|
                                                    if x.phase == Phase::Stopped {
                                                        Step::Done((), x, z)
                                                    } else {
                                                        Step::Fail(
                                                            ErrorView::Message(
                                                                incomplete_text(config),
                                                            ),
                                                            x,
                                                            z,
                                                        )
                                                    },
                                            ),
                                    ),
                            ),
                    ),
            ),
    )
}

fn discover(state: &mut State, log: &Vec<Reply>, at: &mut usize) -> (r: Result<(), Halt>)
    requires
        *old(at) <= log.len(),
    ensures
        *final(at) <= log.len(),
        told_step(
            r,
            final(state)@,
            *final(at),
            discover_step(old(state)@, old(state)@.sockets, log@, *old(at) as nat),
        ),
{
    let paths = copy_all(&state.sockets);
    let ghost all = texts(paths@);
    let mut i: usize = 0;
    proof {
        assert(all.skip(0) =~= all);
    }
    while i < paths.len()
        invariant
            *at <= log.len(),
            i <= paths.len(),
            all == texts(paths@),
            all == old(state)@.sockets,
            discover_step(old(state)@, all, log@, *old(at) as nat) == discover_step(
                state@,
                all.skip(i as int),
                log@,
                *at as nat,
            ),
        decreases paths.len() - i,
    {
        proof {
            assert(all.skip(i as int)[0] == paths@[i as int]@);
            assert(all.skip(i as int).skip(1) =~= all.skip(i + 1));
        }
        let found = match connect(&paths[i], log, at) {
            Ok(_) => loaded_tasks(&paths[i], log, at),
            Err(halt) => Err(halt),
        };
        match found {
            Ok(tasks) => {
                insert_tasks(&mut state.tasks, &tasks);
            },
            Err(Halt::Ask(request)) => {
                return Err(Halt::Ask(request));
            },
            Err(Halt::Fail(error)) => {
                push_error(state, error.text());
            },
        }
        i += 1;
    }
    Ok(())
}

fn restore(task: &Task, log: &Vec<Reply>, at: &mut usize) -> (r: Result<(), Halt>)
    requires
        *old(at) <= log.len(),
    ensures
        *final(at) <= log.len(),
        told(r, *final(at), restore_run(log@, *old(at) as nat, task@)),
{
    connect(&task.socket, log, at)?;
    if live_settings(&task.thread_id, log, at)?.is_none() {
        return Ok(());
    }
    let _ = interrupt(&task.thread_id, log, at)?;
    set_task_settings(&task.thread_id, false, log, at)
}

fn restore_all(
    config: &Config,
    files: &Files,
    state: &mut State,
    log: &Vec<Reply>,
    at: &mut usize,
) -> (r: Result<(), Halt>)
    requires
        files.of(*config),
        *old(at) <= log.len(),
    ensures
        *final(at) <= log.len(),
        told_step(
            r,
            final(state)@,
            *final(at),
            restore_step(*config, old(state)@, old(state)@.tasks, log@, *old(at) as nat),
        ),
{
    let tasks = copy_tasks(&state.tasks);
    let ghost all = task_views(tasks@);
    let mut i: usize = 0;
    proof {
        assert(all.skip(0) =~= all);
    }
    while i < tasks.len()
        invariant
            files.of(*config),
            *at <= log.len(),
            i <= tasks.len(),
            all == task_views(tasks@),
            all == old(state)@.tasks,
            restore_step(*config, old(state)@, all, log@, *old(at) as nat) == restore_step(
                *config,
                state@,
                all.skip(i as int),
                log@,
                *at as nat,
            ),
        decreases tasks.len() - i,
    {
        let task = &tasks[i];
        proof {
            assert(all.skip(i as int)[0] == task@);
            assert(all.skip(i as int).skip(1) =~= all.skip(i + 1));
        }
        match restore(task, log, at) {
            Ok(_) => {
                remove_task(&mut state.tasks, task);
            },
            Err(Halt::Ask(request)) => {
                return Err(Halt::Ask(request));
            },
            Err(Halt::Fail(error)) => {
                let text = "Task ".to_owned().concat(&task.thread_id).concat(" on ").concat(
                    &task.socket,
                ).concat(": ").concat(&error.text());
                push_error(state, text);
            },
        }
        save_cleanup(config, files, state, log, at)?;
        i += 1;
    }
    Ok(())
}

fn restore_defaults(config: &Config, state: &mut State, log: &Vec<Reply>, at: &mut usize) -> (r:
    Result<(), Halt>)
    requires
        *old(at) <= log.len(),
    ensures
        *final(at) <= log.len(),
        told_step(
            r,
            final(state)@,
            *final(at),
            defaults_step(*config, old(state)@, log@, *old(at) as nat),
        ),
{
    if state.defaults_pending {
        match set_baseline_defaults(config, log, at) {
            Ok(_) => {
                state.defaults_pending = false;
            },
            Err(Halt::Ask(request)) => {
                return Err(Halt::Ask(request));
            },
            Err(Halt::Fail(error)) => {
                push_error(state, "Global defaults: ".to_owned().concat(&error.text()));
            },
        }
    }
    Ok(())
}

/// Ends a boost: its tasks are stopped and set back, and the defaults with them. What could not
/// be done is recorded, and the rest goes on.
pub fn cleanup(config: &Config, state: &mut State, log: &Vec<Reply>, at: &mut usize) -> (r: Result<
    (),
    Halt,
>)
    requires
        *old(at) <= log.len(),
    ensures
        *final(at) <= log.len(),
        told_step(
            r,
            final(state)@,
            *final(at),
            cleanup_step(*config, old(state)@, log@, *old(at) as nat),
        ),
        ordered(old(state)@.tasks) ==> ordered(final(state)@.tasks) || (r matches Err(Halt::Ask(_))),
{
    proof {
        if ordered(state@.tasks) {
            law_cleanup_keeps_order(*config, state@, log@, *at as nat);
        }
    }
    let files = Files::new(config);
    state.phase = Phase::Stopping;
    state.errors = Vec::new();
    proof {
        assert(state@.errors =~= Seq::empty());
    }
    save_cleanup(config, &files, state, log, at)?;
    if state.activated {
        discover(state, log, at)?;
        save_cleanup(config, &files, state, log, at)?;
    }
    restore_all(config, &files, state, log, at)?;
    restore_defaults(config, state, log, at)?;
    if state.errors.len() == 0 && !state.defaults_pending && state.tasks.len() == 0 {
        state.activated = false;
        state.phase = Phase::Stopped;
    } else {
        state.phase = Phase::CleanupRequired;
    }
    save_cleanup(config, &files, state, log, at)?;
    match done(log, at, Request::Remove(files.stop.clone())) {
        Ok(_) => {},
        Err(Halt::Ask(request)) => {
            return Err(Halt::Ask(request));
        },
        Err(Halt::Fail(error)) => {
            push_error(state, error.text());
            state.phase = Phase::CleanupRequired;
            save_cleanup(config, &files, state, log, at)?;
        },
    }
    if state.phase == Phase::Stopped {
        Ok(())
    } else {
        Err(
            Halt::Fail(
                Error::Message(
                    "Boost cleanup is incomplete; run `cxa boost status`, restore the server connection, then `cxa boost stop`. See ".to_owned().concat(
                        &files.state,
                    ).concat("."),
                ),
            ),
        )
    }
}

// ---------------------------------------------------------------- the controller

/// What a controller does about an earlier boost.
pub open spec fn previous_run(
    config: Config,
    run_id: Seq<char>,
    previous: State,
    log: Seq<Reply>,
    at: nat,
) -> Run<bool> {
    let same_run = previous.run_id@ == run_id;
    if same_run && previous.phase == Phase::Stopped {
        Run::Done(false, at)
    } else if previous.phase != Phase::Stopped && !(same_run && previous.phase == Phase::Preparing
        && !previous.activated) {
        Run::Fail(ErrorView::Message("Previous boost cleanup is incomplete."@), at)
    } else if !same_run && previous.phase == Phase::Stopped {
        done_run(log, at, RequestView::Remove(stop_path(config))).next(|n: nat| Run::Done(true, n))
    } else {
        Run::Done(true, at)
    }
}

/// Takes control of a boost; `None` where it was stopped before it began.
pub open spec fn control_run(
    config: Config,
    deadline: i64,
    paths: Seq<Seq<char>>,
    run_id: Seq<char>,
    log: Seq<Reply>,
    at: nat,
) -> Run<Option<StateView>> {
    flag_run(log, at, RequestView::TryLock(lock_path(config))).bind(
        |taken: bool, n: nat|
            if !taken {
                Run::Fail(
                    ErrorView::Message("Another boost controller won the startup race."@),
                    n,
                )
            } else {
                read_run(config, log, n).bind(
                    |found: Option<State>, m: nat|
                        (match found {
                            Some(previous) => previous_run(config, run_id, previous, log, m),
                            None => Run::Done(true, m),
                        }).bind(
                            |go: bool, k: nat|
                                if !go {
                                    Run::Done(None, k)
                                } else {
                                    done_run(log, k, RequestView::CatchSignals).next(
                                        |p: nat|
                                            {
                                                let state = preparing_state(
                                                    run_id,
                                                    deadline,
                                                    paths,
                                                );
                                                save_run(config, state, log, p).next(
                                                    |q: nat| Run::Done(Some(state), q),
                                                )
                                            },
                                    )
                                },
                        ),
                )
            },
    )
}

/// `told` for a procedure whose result is an optional state.
pub open spec fn told_opt_state(
    r: Result<Option<State>, Halt>,
    at: usize,
    run: Run<Option<StateView>>,
) -> bool {
    match r {
        Ok(value) => run == Run::Done(
            match value {
                Some(state) => Some(state@),
                None => None,
            },
            at as nat,
        ),
        Err(Halt::Fail(error)) => run == Run::<Option<StateView>>::Fail(error@, at as nat),
        Err(Halt::Ask(request)) => run == Run::<Option<StateView>>::Ask(request@),
    }
}

/// Takes control of a boost; `None` where it was stopped before it began.
pub fn take_control(
    config: &Config,
    deadline: i64,
    paths: &Vec<String>,
    run_id: &str,
    log: &Vec<Reply>,
    at: &mut usize,
) -> (r: Result<Option<State>, Halt>)
    requires
        *old(at) <= log.len(),
    ensures
        *final(at) <= log.len(),
        told_opt_state(
            r,
            *final(at),
            control_run(*config, deadline, texts(paths@), run_id@, log@, *old(at) as nat),
        ),
{
    let files = Files::new(config);
    if !flag(log, at, Request::TryLock(files.lock.clone()))? {
        return Err(
            Halt::Fail(Error::message("Another boost controller won the startup race.")),
        );
    }
    if let Some(previous) = read(config, &files, log, at)? {
        let same_run = same(&previous.run_id, run_id);
        if same_run && previous.phase == Phase::Stopped {
            return Ok(None);
        }
        let pending = same_run && previous.phase == Phase::Preparing && !previous.activated;
        if previous.phase != Phase::Stopped && !pending {
            return Err(Halt::Fail(Error::message("Previous boost cleanup is incomplete.")));
        }
        if !same_run && previous.phase == Phase::Stopped {
            done(log, at, Request::Remove(files.stop.clone()))?;
        }
    }
    done(log, at, Request::CatchSignals)?;
    let state = State::preparing(run_id, deadline, paths);
    save(config, &files, &state, log, at)?;
    Ok(Some(state))
}

/// What the rounds of a boost came to, where a failure after the end is an end.
pub open spec fn verdict_run(
    config: Config,
    deadline: i64,
    outcome: Result<Seq<char>, ErrorView>,
    log: Seq<Reply>,
    at: nat,
) -> Run<Result<Seq<char>, ErrorView>> {
    match outcome {
        Ok(reason) => Run::Done(Ok(reason), at),
        Err(error) => cutoff_run(config, deadline, log, at).bind(
            |over: Option<Seq<char>>, n: nat|
                if over is None {
                    Run::Done(Err(error), n)
                } else {
                    cutoff_run(config, deadline, log, n).bind(
                        |again: Option<Seq<char>>, m: nat|
                            Run::Done(
                                Ok(
                                    match again {
                                        Some(reason) => reason,
                                        None => "Cutoff reached"@,
                                    },
                                ),
                                m,
                            ),
                    )
                },
        ),
    }
}

/// Ends a boost whose rounds came to `outcome`: the reason is recorded, and all is set back.
pub open spec fn finish_step(
    config: Config,
    state: StateView,
    outcome: Result<Seq<char>, ErrorView>,
    log: Seq<Reply>,
    at: nat,
) -> Step<()> {
    held(verdict_run(config, state.deadline, outcome, log, at), state).bind(
        |verdict: Result<Seq<char>, ErrorView>, _s: StateView, n: nat|
            cleanup_step(
                config,
                StateView {
                    reason: Some(
                        match verdict {
                            Ok(reason) => reason,
                            Err(error) => "Stopped after error: "@ + error.text(),
                        },
                    ),
                    ..state
                },
                log,
                n,
            ).next(
                |t: StateView, m: nat|
                    match verdict {
                        Ok(_) => Step::Done((), t, m),
                        Err(error) => Step::Fail(error, t, m),
                    },
            ),
    )
}

/// What a result says.
pub open spec fn outcome_view(outcome: Result<String, Error>) -> Result<Seq<char>, ErrorView> {
    match outcome {
        Ok(reason) => Ok(reason@),
        Err(error) => Err(error@),
    }
}

/// Ends a boost whose rounds came to `outcome`: the reason is recorded, and all is set back.
pub fn finish(
    config: &Config,
    state: &mut State,
    outcome: Result<String, Error>,
    log: &Vec<Reply>,
    at: &mut usize,
) -> (r: Result<(), Halt>)
    requires
        *old(at) <= log.len(),
    ensures
        *final(at) <= log.len(),
        told_step(
            r,
            final(state)@,
            *final(at),
            finish_step(*config, old(state)@, outcome_view(outcome), log@, *old(at) as nat),
        ),
{
    let files = Files::new(config);
    let verdict: Result<String, Error> = match outcome {
        Ok(reason) => Ok(reason),
        Err(error) => {
            if cutoff(config, &files, state.deadline, log, at)?.is_some() {
                match cutoff(config, &files, state.deadline, log, at)? {
                    Some(reason) => Ok(reason),
                    None => Ok("Cutoff reached".to_owned()),
                }
            } else {
                Err(error)
            }
        },
    };
    state.reason = Some(
        match &verdict {
            Ok(reason) => reason.clone(),
            Err(error) => "Stopped after error: ".to_owned().concat(&error.text()),
        },
    );
    cleanup(config, state, log, at)?;
    match verdict {
        Ok(_) => Ok(()),
        Err(error) => Err(Halt::Fail(error)),
    }
}

// ---------------------------------------------------------------- status

/// The name of a phase.
pub open spec fn phase_name(phase: Phase) -> Seq<char> {
    match phase {
        Phase::Preparing => "Preparing"@,
        Phase::Active => "Active"@,
        Phase::Stopping => "Stopping"@,
        Phase::Stopped => "Stopped"@,
        Phase::CleanupRequired => "CleanupRequired"@,
    }
}

fn name_of(phase: Phase) -> (r: &'static str)
    ensures
        r@ == phase_name(phase),
{
    match phase {
        Phase::Preparing => "Preparing",
        Phase::Active => "Active",
        Phase::Stopping => "Stopping",
        Phase::Stopped => "Stopped",
        Phase::CleanupRequired => "CleanupRequired",
    }
}

/// How a moment is written in universal time; nothing for one too far away.
pub uninterp spec fn universal_time(seconds: int) -> Option<Seq<char>>;

/// `chrono::DateTime::from_timestamp` and `to_rfc3339`: the text is a function of the moment, and
/// there is one for every moment of the calendar.
#[verifier::external_body]
fn write_time(seconds: i64) -> (r: Option<String>)
    ensures
        r is Some <==> in_calendar(seconds as int),
        match r {
            Some(text) => universal_time(seconds as int) == Some(text@),
            None => universal_time(seconds as int) is None,
        },
{
    chrono::DateTime::from_timestamp(seconds, 0).map(|time| time.to_rfc3339())
}

/// Each text with a prefix.
pub open spec fn prefixed(prefix: Seq<char>, items: Seq<Seq<char>>) -> Seq<Seq<char>> {
    items.map_values(|item: Seq<char>| prefix + item)
}

/// A line, if there is something to say.
pub open spec fn line_if(prefix: Seq<char>, text: Option<Seq<char>>) -> Seq<Seq<char>> {
    match text {
        Some(text) => seq![prefix + text],
        None => Seq::empty(),
    }
}

/// What is shown of a boost whose deadline is written as `time`.
pub open spec fn shown_state(
    state: StateView,
    running: bool,
    time: Option<Seq<char>>,
) -> Seq<Seq<char>> {
    seq![
        "Boost: "@ + phase_name(state.phase) + "; controller "@ + (if running {
            "running"@
        } else {
            "not running"@
        }),
    ] + line_if("Deadline: "@, time) + seq![
        "Tracked tasks: "@ + decimal_text(state.tasks.len())
            + ". Cutoff settings: Astra / Medium / Standard."@,
    ] + prefixed("Server: "@, state.sockets) + line_if("Reason: "@, state.reason) + prefixed(
        "Unfinished: "@,
        state.errors,
    ) + (if !running && state.phase != Phase::Stopped {
        seq![
            "Cleanup is required. Run `cxa boost stop`; do not assume the recorded tasks stopped."@,
        ]
    } else {
        Seq::empty()
    })
}

fn push_prefixed(lines: &mut Vec<String>, prefix: &str, items: &Vec<String>)
    ensures
        texts(final(lines)@) == texts(old(lines)@) + prefixed(prefix@, texts(items@)),
{
    let ghost all = prefixed(prefix@, texts(items@));
    let mut i: usize = 0;
    proof {
        assert(texts(old(lines)@) + all.take(0) =~= texts(old(lines)@));
    }
    while i < items.len()
        invariant
            i <= items.len(),
            all == prefixed(prefix@, texts(items@)),
            texts(lines@) == texts(old(lines)@) + all.take(i as int),
        decreases items.len() - i,
    {
        let ghost was = lines@;
        lines.push(prefix.to_owned().concat(&items[i]));
        i += 1;
        proof {
            assert(texts(lines@) =~= texts(was).push(all[i - 1]));
            assert(texts(lines@) =~= texts(old(lines)@) + all.take(i as int));
        }
    }
    proof {
        assert(all.take(i as int) =~= all);
    }
}

fn push_line(lines: &mut Vec<String>, line: String)
    ensures
        texts(final(lines)@) == texts(old(lines)@).push(line@),
{
    lines.push(line);
    proof {
        assert(texts(lines@) =~= texts(old(lines)@).push(line@));
    }
}

/// What is shown of a boost whose deadline is written as `time`.
pub fn describe(state: &State, running: bool, time: Option<String>) -> (r: Vec<String>)
    ensures
        texts(r@) == shown_state(state@, running, opt_text(time)),
{
    let mut lines: Vec<String> = Vec::new();
    proof {
        assert(texts(lines@) =~= Seq::empty());
    }
    let controller = if running {
        "running"
    } else {
        "not running"
    };
    push_line(
        &mut lines,
        "Boost: ".to_owned().concat(name_of(state.phase)).concat("; controller ").concat(
            controller,
        ),
    );
    if let Some(time) = &time {
        push_line(&mut lines, "Deadline: ".to_owned().concat(time));
    }
    push_line(
        &mut lines,
        "Tracked tasks: ".to_owned().concat(&decimal(state.tasks.len() as u64)).concat(
            ". Cutoff settings: Astra / Medium / Standard.",
        ),
    );
    push_prefixed(&mut lines, "Server: ", &state.sockets);
    if let Some(reason) = &state.reason {
        push_line(&mut lines, "Reason: ".to_owned().concat(reason));
    }
    push_prefixed(&mut lines, "Unfinished: ", &state.errors);
    if !running && state.phase != Phase::Stopped {
        push_line(
            &mut lines,
            "Cleanup is required. Run `cxa boost stop`; do not assume the recorded tasks stopped.".to_owned(),
        );
    }
    proof {
        assert(texts(lines@) =~= shown_state(state@, running, opt_text(time)));
    }
    lines
}

/// The state of a boost, in lines.
pub open spec fn status_run(config: Config, log: Seq<Reply>, at: nat) -> Run<Seq<Seq<char>>> {
    read_run(config, log, at).bind(
        |found: Option<State>, n: nat|
            match found {
                None => Run::Done(
                    seq![
                        "Boost is off. Start it with `cxa boost start --until <RFC3339> --socket <PATH>`. "@,
                    ],
                    n,
                ),
                Some(state) => flag_run(log, n, RequestView::LockHeld(lock_path(config))).bind(
                    |running: bool, m: nat|
                        Run::Done(
                            shown_state(state@, running, universal_time(state.deadline as int)),
                            m,
                        ),
                ),
            },
    )
}

/// The state of a boost, in lines.
pub fn status(config: &Config, log: &Vec<Reply>, at: &mut usize) -> (r: Result<Vec<String>, Halt>)
    requires
        *old(at) <= log.len(),
    ensures
        *final(at) <= log.len(),
        told_lines(r, *final(at), status_run(*config, log@, *old(at) as nat)),
{
    let files = Files::new(config);
    match read(config, &files, log, at)? {
        None => {
            let mut lines: Vec<String> = Vec::new();
            proof {
                assert(texts(lines@) =~= Seq::empty());
            }
            push_line(
                &mut lines,
                "Boost is off. Start it with `cxa boost start --until <RFC3339> --socket <PATH>`. ".to_owned(),
            );
            proof {
                assert(texts(lines@) =~= seq![
                    "Boost is off. Start it with `cxa boost start --until <RFC3339> --socket <PATH>`. "@,
                ]);
            }
            Ok(lines)
        },
        Some(state) => {
            let running = flag(log, at, Request::LockHeld(files.lock.clone()))?;
            Ok(describe(state, running, write_time(state.deadline)))
        },
    }
}

// ---------------------------------------------------------------- stopping

fn one_line(line: &str) -> (r: Vec<String>)
    ensures
        texts(r@) == seq![line@],
{
    let mut lines: Vec<String> = Vec::new();
    lines.push(line.to_owned());
    proof {
        assert(texts(lines@) =~= seq![line@]);
    }
    lines
}

/// The bytes of a request to stop.
pub open spec fn stop_bytes() -> Seq<u8> {
    seq![115u8, 116u8, 111u8, 112u8, 10u8]
}

/// Stops a boost: by asking its controller, or by cleaning up where none is running.
pub open spec fn stop_run(config: Config, log: Seq<Reply>, at: nat) -> Run<Seq<Seq<char>>> {
    flag_run(log, at, RequestView::TryLock(lock_path(config))).bind(
        |taken: bool, n: nat|
            if taken {
                read_run(config, log, n).bind(
                    |found: Option<State>, m: nat|
                        match found {
                            None => Run::Done(seq!["Boost is off."@], m),
                            Some(state) => if state.phase == Phase::Stopped {
                                Run::Done(seq!["Boost is already stopped."@], m)
                            } else {
                                match cleanup_step(
                                    config,
                                    StateView {
                                        reason: Some("Manual stop or recovery"@),
                                        ..state@
                                    },
                                    log,
                                    m,
                                ) {
                                    Step::Done(_, _, k) => Run::Done(
                                        seq![
                                            "Boost stopped. Affected tasks and defaults use Astra / Medium / Standard."@,
                                        ],
                                        k,
                                    ),
                                    Step::Fail(error, _, k) => Run::Fail(error, k),
                                    Step::Ask(request) => Run::Ask(request),
                                }
                            },
                        },
                )
            } else {
                done_run(
                    log,
                    n,
                    RequestView::Write { path: stop_path(config), bytes: stop_bytes() },
                ).next(
                    |m: nat|
                        done_run(
                            log,
                            m,
                            RequestView::Print(
                                "Stop requested. The controller will interrupt tasks and apply Astra / Medium / Standard."@,
                            ),
                        ).next(|k: nat| status_run(config, log, k)),
                )
            },
    )
}

/// Stops a boost: by asking its controller, or by cleaning up where none is running.
pub fn stop(config: &Config, log: &Vec<Reply>, at: &mut usize) -> (r: Result<Vec<String>, Halt>)
    requires
        *old(at) <= log.len(),
    ensures
        *final(at) <= log.len(),
        told_lines(r, *final(at), stop_run(*config, log@, *old(at) as nat)),
{
    let files = Files::new(config);
    if flag(log, at, Request::TryLock(files.lock.clone()))? {
        return match read(config, &files, log, at)? {
            None => Ok(one_line("Boost is off.")),
            Some(state) => {
                if state.phase == Phase::Stopped {
                    return Ok(one_line("Boost is already stopped."));
                }
                let mut state = state.copy();
                state.reason = Some("Manual stop or recovery".to_owned());
                cleanup(config, &mut state, log, at)?;
                Ok(
                    one_line(
                        "Boost stopped. Affected tasks and defaults use Astra / Medium / Standard.",
                    ),
                )
            },
        };
    }
    let bytes: Vec<u8> = vec![115, 116, 111, 112, 10];
    proof {
        assert(bytes@ =~= stop_bytes());
    }
    done(log, at, Request::Write { path: files.stop.clone(), bytes })?;
    done(
        log,
        at,
        Request::Print(
            "Stop requested. The controller will interrupt tasks and apply Astra / Medium / Standard.".to_owned(),
        ),
    )?;
    status(config, log, at)
}

// ---------------------------------------------------------------- starting

/// The arguments of a controller.
pub open spec fn controller_arguments(
    until: Seq<char>,
    run_id: Seq<char>,
    paths: Seq<Seq<char>>,
) -> Seq<Seq<char>>
    decreases paths.len(),
{
    if paths.len() == 0 {
        seq!["boost"@, "run"@, "--until"@, until, "--run-id"@, run_id]
    } else {
        controller_arguments(until, run_id, paths.drop_last()).push("--socket"@).push(
            paths.last(),
        )
    }
}

fn arguments(until: &str, run_id: &str, paths: &Vec<String>) -> (r: Vec<String>)
    ensures
        texts(r@) == controller_arguments(until@, run_id@, texts(paths@)),
{
    let mut out: Vec<String> = Vec::new();
    out.push("boost".to_owned());
    out.push("run".to_owned());
    out.push("--until".to_owned());
    out.push(until.to_owned());
    out.push("--run-id".to_owned());
    out.push(run_id.to_owned());
    let ghost all = texts(paths@);
    proof {
        assert(all.take(0) =~= Seq::empty());
        assert(texts(out@) =~= seq![
            "boost"@,
            "run"@,
            "--until"@,
            until@,
            "--run-id"@,
            run_id@,
        ]);
    }
    let mut i: usize = 0;
    while i < paths.len()
        invariant
            i <= paths.len(),
            all == texts(paths@),
            texts(out@) == controller_arguments(until@, run_id@, all.take(i as int)),
        decreases paths.len() - i,
    {
        proof {
            assert(all.take(i + 1).drop_last() =~= all.take(i as int));
            assert(all.take(i + 1).last() == paths@[i as int]@);
        }
        push_line(&mut out, "--socket".to_owned());
        push_line(&mut out, paths[i].clone());
        i += 1;
    }
    proof {
        assert(all.take(i as int) =~= all);
    }
    out
}

/// What is said once a controller runs.
pub open spec fn started_lines(servers: nat, until: Seq<char>, paths: Seq<Seq<char>>) -> Seq<
    Seq<char>,
> {
    seq![
        "Boost controller started; preparing "@ + decimal_text(servers) + " server(s)."@,
        "Deadline: "@ + until + ". Cutoff: Astra / Medium / Standard."@,
        "Only tasks on these sockets are covered:"@,
    ] + prefixed("  "@, paths) + seq![
        "Run `cxa boost status` to check activation, or `cxa boost stop` to stop early."@,
    ]
}

/// Whether the recorded state is that of a controller which has started.
pub open spec fn has_started(state: State, run_id: Seq<char>, running: bool) -> bool {
    state.run_id@ == run_id && (state.phase != Phase::Preparing || running)
}

/// What a started controller's state comes to.
pub open spec fn started_verdict(
    state: State,
    until: Seq<char>,
    paths: Seq<Seq<char>>,
) -> Result<Seq<Seq<char>>, ErrorView> {
    if state.phase == Phase::Preparing || state.phase == Phase::Active {
        Ok(started_lines(state.sockets@.len(), until, paths))
    } else {
        Err(
            ErrorView::Message(
                "Boost did not activate: "@ + (match state.reason {
                    Some(reason) => reason@,
                    None => "controller stopped"@,
                }) + ". Inspect `cxa boost status`."@,
            ),
        )
    }
}

/// How the controller ended, if it did.
pub open spec fn exit_run(log: Seq<Reply>, at: nat) -> Run<Option<Seq<char>>> {
    reply_run(log, at, RequestView::ChildExit).bind(
        |reply: Reply, n: nat|
            match reply {
                Reply::Text(exit) => Run::Done(Some(exit@), n),
                Reply::Missing => Run::Done(None, n),
                Reply::Failed(error) => Run::Fail(error@, n),
                _ => Run::Fail(mismatch(), n),
            },
    )
}

/// Waits until a controller has started, has ended, or the time is up.
pub open spec fn await_run(
    config: Config,
    until: Seq<char>,
    paths: Seq<Seq<char>>,
    run_id: Seq<char>,
    deadline: int,
    log: Seq<Reply>,
    at: nat,
) -> Run<Seq<Seq<char>>>
    decreases log.len() - at,
{
    flag_run(log, at, RequestView::LockHeld(lock_path(config))).bind(
        |running: bool, n: nat|
            read_run(config, log, n).bind(
                |found: Option<State>, m: nat|
                    if found matches Some(state) && has_started(state, run_id, running) {
                        match started_verdict(found->0, until, paths) {
                            Ok(lines) => Run::Done(lines, m),
                            Err(error) => Run::Fail(error, m),
                        }
                    } else {
                        exit_run(log, m).bind(
                            |exit: Option<Seq<char>>, k: nat|
                                match exit {
                                    Some(exit) => Run::Fail(
                                        ErrorView::Message(
                                            "Boost controller exited ("@ + exit + "); see "@
                                                + log_path(config) + "."@,
                                        ),
                                        k,
                                    ),
                                    None => clock_run(log, k).bind(
                                        |now: u64, p: nat|
                                            if now >= deadline {
                                                Run::Fail(
                                                    ErrorView::Message(
                                                        "Controller startup is not confirmed; inspect `cxa boost status` and "@
                                                            + log_path(config)
                                                            + " before retrying."@,
                                                    ),
                                                    p,
                                                )
                                            } else {
                                                done_run(
                                                    log,
                                                    p,
                                                    RequestView::Sleep(50_000_000),
                                                ).next(
                                                    |q: nat|
                                                        if at < q <= log.len() {
                                                            await_run(
                                                                config,
                                                                until,
                                                                paths,
                                                                run_id,
                                                                deadline,
                                                                log,
                                                                q,
                                                            )
                                                        } else {
                                                            Run::Fail(mismatch(), q)
                                                        },
                                                )
                                            },
                                    ),
                                },
                        )
                    },
            ),
    )
}

/// Starts the controller in the background.
pub open spec fn launch_run(
    config: Config,
    until: Seq<char>,
    deadline: i64,
    paths: Seq<Seq<char>>,
    run_id: Seq<char>,
    log: Seq<Reply>,
    at: nat,
) -> Run<Seq<Seq<char>>> {
    done_run(log, at, RequestView::OpenLog(log_path(config))).next(
        |n: nat|
            done_run(log, n, RequestView::Remove(stop_path(config))).next(
                |m: nat|
                    save_run(config, preparing_state(run_id, deadline, paths), log, m).next(
                        |k: nat|
                            done_run(log, k, RequestView::Unlock(lock_path(config))).next(
                                |p: nat|
                                    done_run(
                                        log,
                                        p,
                                        RequestView::Spawn(
                                            controller_arguments(until, run_id, paths),
                                        ),
                                    ).rescue(
                                        |error: ErrorView, q: nat|
                                            Run::Fail(
                                                ErrorView::Message(
                                                    "Could not start boost controller: "@
                                                        + error.text()
                                                        + ". Run `cxa boost stop` to clear the pending start."@,
                                                ),
                                                q,
                                            ),
                                    ).next(
                                        |q: nat|
                                            clock_run(log, q).bind(
                                                |now: u64, z: nat|
                                                    await_run(
                                                        config,
                                                        until,
                                                        paths,
                                                        run_id,
                                                        now + 5_000_000_000,
                                                        log,
                                                        z,
                                                    ),
                                            ),
                                    ),
                            ),
                    ),
            ),
    )
}

/// What names a run: the process and the moment that it was started by.
pub open spec fn run_name(process: u64, micros: i64) -> Seq<char> {
    decimal_text(process as nat) + "-"@ + crate::text::signed_text(micros as int)
}

/// The number of this process.
pub open spec fn process_run(log: Seq<Reply>, at: nat) -> Run<u64> {
    reply_run(log, at, RequestView::ProcessId).bind(
        |reply: Reply, n: nat|
            match reply {
                Reply::Number(process) => Run::Done(process, n),
                Reply::Failed(error) => Run::Fail(error@, n),
                _ => Run::Fail(mismatch(), n),
            },
    )
}

/// Starts a boost with these sockets: no controller may be running, no earlier boost unfinished,
/// and the app servers have to be fit for it.
pub open spec fn start_checked_run(
    config: Config,
    until: Seq<char>,
    deadline: i64,
    paths: Seq<Seq<char>>,
    log: Seq<Reply>,
    at: nat,
) -> Run<Seq<Seq<char>>> {
    flag_run(log, at, RequestView::TryLock(lock_path(config))).bind(
        |taken: bool, n: nat|
            if !taken {
                Run::Fail(
                    ErrorView::Message(
                        "Boost already has a running controller. Use `cxa boost status`."@,
                    ),
                    n,
                )
            } else {
                read_run(config, log, n).bind(
                    |found: Option<State>, m: nat|
                        if found matches Some(state) && state.phase != Phase::Stopped {
                            Run::Fail(
                                ErrorView::Message(
                                    "An earlier boost needs cleanup. Run `cxa boost stop` before starting another."@,
                                ),
                                m,
                            )
                        } else {
                            preflight_run(log, m, paths).next(
                                |k: nat|
                                    time_run(log, k, RequestView::Now).bind(
                                        |now: i64, p: nat|
                                            if deadline <= now {
                                                Run::Fail(
                                                    ErrorView::Message(
                                                        "Boost deadline passed during preflight; nothing was changed."@,
                                                    ),
                                                    p,
                                                )
                                            } else {
                                                process_run(log, p).bind(
                                                    |process: u64, q: nat|
                                                        time_run(
                                                            log,
                                                            q,
                                                            RequestView::Micros,
                                                        ).bind(
                                                            |micros: i64, z: nat|
                                                                launch_run(
                                                                    config,
                                                                    until,
                                                                    deadline,
                                                                    paths,
                                                                    run_name(process, micros),
                                                                    log,
                                                                    z,
                                                                ),
                                                        ),
                                                )
                                            },
                                    ),
                            )
                        },
                )
            },
    )
}

/// Starts a boost.
pub open spec fn start_run(
    config: Config,
    until: Seq<char>,
    supplied: Seq<Seq<char>>,
    log: Seq<Reply>,
    at: nat,
) -> Run<Seq<Seq<char>>> {
    time_run(log, at, RequestView::Now).bind(
        |now: i64, n: nat|
            match deadline_of(until, now) {
                Err(error) => Run::Fail(error, n),
                Ok(deadline) => {
                    let chosen = chosen_sockets(config, supplied);
                    if !all_rooted(chosen) {
                        Run::Fail(ErrorView::Message("Boost socket paths must be absolute."@), n)
                    } else {
                        start_checked_run(
                            config,
                            until,
                            deadline as i64,
                            sorted_paths(chosen),
                            log,
                            n,
                        )
                    }
                },
            },
    )
}

fn say_started(state: &State, until: &str, paths: &Vec<String>) -> (r: Result<Vec<String>, Error>)
    ensures
        match r {
            Ok(lines) => started_verdict(*state, until@, texts(paths@)) == Ok::<
                Seq<Seq<char>>,
                ErrorView,
            >(texts(lines@)),
            Err(error) => started_verdict(*state, until@, texts(paths@)) == Err::<
                Seq<Seq<char>>,
                ErrorView,
            >(error@),
        },
{
    if state.phase != Phase::Preparing && state.phase != Phase::Active {
        let reason = match &state.reason {
            Some(reason) => reason.as_str(),
            None => "controller stopped",
        };
        return Err(
            Error::Message(
                "Boost did not activate: ".to_owned().concat(reason).concat(
                    ". Inspect `cxa boost status`.",
                ),
            ),
        );
    }
    let mut lines: Vec<String> = Vec::new();
    proof {
        assert(texts(lines@) =~= Seq::empty());
    }
    push_line(
        &mut lines,
        "Boost controller started; preparing ".to_owned().concat(
            &decimal(state.sockets.len() as u64),
        ).concat(" server(s)."),
    );
    push_line(
        &mut lines,
        "Deadline: ".to_owned().concat(until).concat(". Cutoff: Astra / Medium / Standard."),
    );
    push_line(&mut lines, "Only tasks on these sockets are covered:".to_owned());
    push_prefixed(&mut lines, "  ", paths);
    push_line(
        &mut lines,
        "Run `cxa boost status` to check activation, or `cxa boost stop` to stop early.".to_owned(),
    );
    proof {
        assert(texts(lines@) =~= started_lines(
            state.sockets@.len(),
            until@,
            texts(paths@),
        ));
    }
    Ok(lines)
}

fn await_start(
    config: &Config,
    files: &Files,
    until: &str,
    paths: &Vec<String>,
    run_id: &str,
    begun: u64,
    log: &Vec<Reply>,
    at: &mut usize,
) -> (r: Result<Vec<String>, Halt>)
    requires
        files.of(*config),
        *old(at) <= log.len(),
    ensures
        *final(at) <= log.len(),
        told_lines(
            r,
            *final(at),
            await_run(
                *config,
                until@,
                texts(paths@),
                run_id@,
                begun + 5_000_000_000,
                log@,
                *old(at) as nat,
            ),
        ),
{
    loop
        invariant
            files.of(*config),
            *at <= log.len(),
            await_run(
                *config,
                until@,
                texts(paths@),
                run_id@,
                begun + 5_000_000_000,
                log@,
                *old(at) as nat,
            ) == await_run(
                *config,
                until@,
                texts(paths@),
                run_id@,
                begun + 5_000_000_000,
                log@,
                *at as nat,
            ),
        decreases log.len() - *at,
    {
        let running = flag(log, at, Request::LockHeld(files.lock.clone()))?;
        if let Some(state) = read(config, files, log, at)? {
            if same(&state.run_id, run_id) && (state.phase != Phase::Preparing || running) {
                return match say_started(state, until, paths) {
                    Ok(lines) => Ok(lines),
                    Err(error) => Err(Halt::Fail(error)),
                };
            }
        }
        match ask(log, at, Request::ChildExit)? {
            Reply::Text(exit) => {
                return Err(
                    Halt::Fail(
                        Error::Message(
                            "Boost controller exited (".to_owned().concat(exit).concat(
                                "); see ",
                            ).concat(&files.log).concat("."),
                        ),
                    ),
                );
            },
            Reply::Missing => {},
            Reply::Failed(error) => {
                return Err(Halt::Fail(error.clone()));
            },
            _ => {
                return Err(mismatched());
            },
        }
        let now: u64 = clock(log, at)?;
        if now >= begun && now - begun >= 5_000_000_000 {
            return Err(
                Halt::Fail(
                    Error::Message(
                        "Controller startup is not confirmed; inspect `cxa boost status` and ".to_owned().concat(
                            &files.log,
                        ).concat(" before retrying."),
                    ),
                ),
            );
        }
        done(log, at, Request::Sleep(50_000_000))?;
    }
}

fn launch(
    config: &Config,
    files: &Files,
    until: &str,
    deadline: i64,
    paths: &Vec<String>,
    run_id: &str,
    log: &Vec<Reply>,
    at: &mut usize,
) -> (r: Result<Vec<String>, Halt>)
    requires
        files.of(*config),
        *old(at) <= log.len(),
    ensures
        *final(at) <= log.len(),
        told_lines(
            r,
            *final(at),
            launch_run(
                *config,
                until@,
                deadline,
                texts(paths@),
                run_id@,
                log@,
                *old(at) as nat,
            ),
        ),
{
    done(log, at, Request::OpenLog(files.log.clone()))?;
    done(log, at, Request::Remove(files.stop.clone()))?;
    save(config, files, &State::preparing(run_id, deadline, paths), log, at)?;
    done(log, at, Request::Unlock(files.lock.clone()))?;
    match done(log, at, Request::Spawn(arguments(until, run_id, paths))) {
        Ok(_) => {},
        Err(Halt::Ask(request)) => {
            return Err(Halt::Ask(request));
        },
        Err(Halt::Fail(error)) => {
            return Err(
                Halt::Fail(
                    Error::Message(
                        "Could not start boost controller: ".to_owned().concat(
                            &error.text(),
                        ).concat(". Run `cxa boost stop` to clear the pending start."),
                    ),
                ),
            );
        },
    }
    let begun: u64 = clock(log, at)?;
    await_start(config, files, until, paths, run_id, begun, log, at)
}

/// Starts a boost with these sockets: no controller may be running, no earlier boost unfinished,
/// and the app servers have to be fit for it.
fn start_checked(
    config: &Config,
    until: &str,
    deadline: i64,
    paths: &Vec<String>,
    log: &Vec<Reply>,
    at: &mut usize,
) -> (r: Result<Vec<String>, Halt>)
    requires
        *old(at) <= log.len(),
    ensures
        *final(at) <= log.len(),
        told_lines(
            r,
            *final(at),
            start_checked_run(
                *config,
                until@,
                deadline,
                texts(paths@),
                log@,
                *old(at) as nat,
            ),
        ),
{
    let files = Files::new(config);
    if !flag(log, at, Request::TryLock(files.lock.clone()))? {
        return Err(
            Halt::Fail(
                Error::message("Boost already has a running controller. Use `cxa boost status`."),
            ),
        );
    }
    if let Some(state) = read(config, &files, log, at)? {
        if state.phase != Phase::Stopped {
            return Err(
                Halt::Fail(
                    Error::message(
                        "An earlier boost needs cleanup. Run `cxa boost stop` before starting another.",
                    ),
                ),
            );
        }
    }
    preflight(paths, log, at)?;
    let now: i64 = time(log, at, Request::Now)?;
    if deadline <= now {
        return Err(
            Halt::Fail(
                Error::message("Boost deadline passed during preflight; nothing was changed."),
            ),
        );
    }
    let process: u64 = match ask(log, at, Request::ProcessId)? {
        Reply::Number(process) => *process,
        Reply::Failed(error) => {
            return Err(Halt::Fail(error.clone()));
        },
        _ => {
            return Err(mismatched());
        },
    };
    let micros: i64 = time(log, at, Request::Micros)?;
    let run_id = decimal(process).concat("-").concat(&crate::text::signed(micros));
    launch(config, &files, until, deadline, paths, &run_id, log, at)
}

/// Starts a boost: what is said once its controller runs.
pub fn start(
    config: &Config,
    until: &str,
    supplied: &Vec<String>,
    log: &Vec<Reply>,
    at: &mut usize,
) -> (r: Result<Vec<String>, Halt>)
    requires
        *old(at) <= log.len(),
    ensures
        *final(at) <= log.len(),
        told_lines(
            r,
            *final(at),
            start_run(*config, until@, texts(supplied@), log@, *old(at) as nat),
        ),
{
    let now: i64 = time(log, at, Request::Now)?;
    let deadline: i64 = match parse_deadline(until, now) {
        Ok(deadline) => deadline,
        Err(error) => {
            return Err(Halt::Fail(error));
        },
    };
    let paths = match sockets(config, supplied) {
        Ok(paths) => paths,
        Err(error) => {
            return Err(Halt::Fail(error));
        },
    };
    start_checked(config, until, deadline, &paths, log, at)
}

// ---------------------------------------------------------------- commands

/// What the program can be asked to do about a boost.
pub enum BoostCommand {
    /// Boost tasks on connected Codex servers until a reset or deadline.
    Start { until: String, socket: Vec<String> },
    /// Show controller state, deadline, and any unfinished cleanup.
    Status,
    /// Interrupt affected tasks and set Astra, Medium, and Standard everywhere.
    Stop,
    /// Control a boost that was started in the background.
    Run { until: String, socket: Vec<String>, run_id: String },
}

/// What a command comes to: lines to print, or a boost to control until this moment.
pub enum Job {
    Print(Vec<String>),
    Control(i64),
}

/// What is known of a command's outcome.
pub enum JobView {
    Print(Seq<Seq<char>>),
    Control(i64),
}

impl View for Job {
    type V = JobView;

    open spec fn view(&self) -> JobView {
        match self {
            Job::Print(lines) => JobView::Print(texts(lines@)),
            Job::Control(deadline) => JobView::Control(*deadline),
        }
    }
}

/// Carries a command out.
pub open spec fn command_run(config: Config, command: BoostCommand, log: Seq<Reply>, at: nat) -> Run<
    JobView,
> {
    match command {
        BoostCommand::Start { until, socket } => start_run(
            config,
            until@,
            texts(socket@),
            log,
            at,
        ).bind(|lines: Seq<Seq<char>>, n: nat| Run::Done(JobView::Print(lines), n)),
        BoostCommand::Status => status_run(config, log, at).bind(
            |lines: Seq<Seq<char>>, n: nat| Run::Done(JobView::Print(lines), n),
        ),
        BoostCommand::Stop => stop_run(config, log, at).bind(
            |lines: Seq<Seq<char>>, n: nat| Run::Done(JobView::Print(lines), n),
        ),
        BoostCommand::Run { until, .. } => time_run(log, at, RequestView::Now).bind(
            |now: i64, n: nat|
                match deadline_of(until@, now) {
                    Ok(deadline) => Run::Done(JobView::Control(deadline as i64), n),
                    Err(error) => Run::Fail(error, n),
                },
        ),
    }
}

/// `told` for a command.
pub open spec fn told_job(r: Result<Job, Halt>, at: usize, run: Run<JobView>) -> bool {
    match r {
        Ok(value) => run == Run::Done(value@, at as nat),
        Err(Halt::Fail(error)) => run == Run::<JobView>::Fail(error@, at as nat),
        Err(Halt::Ask(request)) => run == Run::<JobView>::Ask(request@),
    }
}

/// Carries a command out.
pub fn run(command: &BoostCommand, config: &Config, log: &Vec<Reply>, at: &mut usize) -> (r: Result<
    Job,
    Halt,
>)
    requires
        *old(at) <= log.len(),
    ensures
        *final(at) <= log.len(),
        told_job(r, *final(at), command_run(*config, *command, log@, *old(at) as nat)),
{
    match command {
        BoostCommand::Start { until, socket } => Ok(
            Job::Print(start(config, until, socket, log, at)?),
        ),
        BoostCommand::Status => Ok(Job::Print(status(config, log, at)?)),
        BoostCommand::Stop => Ok(Job::Print(stop(config, log, at)?)),
        BoostCommand::Run { until, .. } => {
            let now: i64 = time(log, at, Request::Now)?;
            match parse_deadline(until, now) {
                Ok(deadline) => Ok(Job::Control(deadline)),
                Err(error) => Err(Halt::Fail(error)),
            }
        },
    }
}

// ---------------------------------------------------------------- laws

proof fn lemma_saved(config: Config, state: StateView, log: Seq<Reply>, at: nat)
    ensures
        saved_step(config, state, log, at) matches Step::Done(_, s, _) ==> s == state || s.phase
            == Phase::CleanupRequired,
        saved_step(config, state, log, at) !is Fail,
{
}

/// Errors that were noted stay noted.
proof fn lemma_errors_stay(config: Config, state: StateView, log: Seq<Reply>, at: nat)
    ensures
        saved_step(config, state, log, at) matches Step::Done(_, s, _) ==> s.tasks == state.tasks
            && s.defaults_pending == state.defaults_pending && s.errors.len() >= state.errors.len()
            && (s.phase == state.phase || s.errors.len() > 0),
{
}

/// Setting back tasks ends with none of them, or with an error.
proof fn lemma_restored(
    config: Config,
    state: StateView,
    tasks: Seq<TaskView>,
    log: Seq<Reply>,
    at: nat,
)
    requires
        state.errors.len() == 0 ==> state.tasks == tasks,
    ensures
        restore_step(config, state, tasks, log, at) matches Step::Done(_, s, _) ==> s.errors.len()
            > 0 || s.tasks.len() == 0,
        restore_step(config, state, tasks, log, at) !is Fail,
    decreases tasks.len(),
{
    if tasks.len() > 0 {
        if let Step::Done(outcome, _, n) = held(
            restore_run(log, at, tasks[0]).attempt(),
            state,
        ) {
            let after = match outcome {
                Ok(_) => StateView { tasks: without_task(state.tasks, tasks[0]), ..state },
                Err(error) => StateView {
                    errors: state.errors.push(task_error(tasks[0], error)),
                    ..state
                },
            };
            lemma_saved(config, after, log, n);
            lemma_errors_stay(config, after, log, n);
            if let Step::Done(_, s, m) = saved_step(config, after, log, n) {
                if s.errors.len() == 0 {
                    law_task_order(tasks[0], tasks[0], tasks[0]);
                    assert(without_task(tasks, tasks[0]) =~= tasks.skip(1));
                }
                lemma_restored(config, s, tasks.skip(1), log, m);
            }
        }
    }
}

/// Discovering tasks always ends, whatever the app servers say.
proof fn lemma_discovered(state: StateView, paths: Seq<Seq<char>>, log: Seq<Reply>, at: nat)
    ensures
        discover_step(state, paths, log, at) !is Fail,
    decreases paths.len(),
{
    if paths.len() > 0 {
        if let Step::Done(found, _, n) = held(
            connect_run(log, at, paths[0]).next(
                |n: nat| loaded_run(log, n, paths[0], None, Seq::empty(), Seq::empty()),
            ).attempt(),
            state,
        ) {
            let after = match found {
                Ok(tasks) => StateView { tasks: with_tasks(state.tasks, tasks), ..state },
                Err(error) => StateView { errors: state.errors.push(error.text()), ..state },
            };
            lemma_discovered(after, paths.skip(1), log, n);
        }
    }
}

/// The last part of a cleanup, from the point on at which the tasks were dealt with.
pub open spec fn last_step(config: Config, state: StateView, log: Seq<Reply>, at: nat) -> Step<()> {
    defaults_step(config, state, log, at).next(
        |v: StateView, p: nat|
            saved_step(config, settled(v), log, p).next(
                |w: StateView, q: nat|
                    unrequest_step(config, w, log, q).next(
                        |x: StateView, z: nat|
                            if x.phase == Phase::Stopped {
                                Step::Done((), x, z)
                            } else {
                                Step::Fail(ErrorView::Message(incomplete_text(config)), x, z)
                            },
                    ),
            ),
    )
}

proof fn lemma_last(config: Config, state: StateView, log: Seq<Reply>, at: nat)
    requires
        state.errors.len() > 0 || state.tasks.len() == 0,
    ensures
        match last_step(config, state, log, at) {
            Step::Done(_, s, _) => s.phase == Phase::Stopped && s.tasks.len() == 0
                && s.errors.len() == 0 && !s.defaults_pending && !s.activated,
            Step::Fail(error, s, _) => error == ErrorView::Message(incomplete_text(config))
                && s.phase == Phase::CleanupRequired && s.errors.len() > 0,
            Step::Ask(_) => true,
        },
{
    if let Step::Done(_, v, p) = defaults_step(config, state, log, at) {
        assert(v.errors.len() > 0 || (v.tasks.len() == 0 && !v.defaults_pending));
        lemma_saved(config, settled(v), log, p);
        lemma_errors_stay(config, settled(v), log, p);
        if let Step::Done(_, w, q) = saved_step(config, settled(v), log, p) {
            assert(w.phase == Phase::Stopped ==> w == settled(v));
            assert(w.phase != Phase::Stopped ==> w.phase == Phase::CleanupRequired
                && w.errors.len() > 0);
            if let Step::Done(outcome, _, z) = held(
                done_run(log, q, RequestView::Remove(stop_path(config))).attempt(),
                w,
            ) {
                if let Err(error) = outcome {
                    let noted = StateView {
                        errors: w.errors.push(error.text()),
                        phase: Phase::CleanupRequired,
                        ..w
                    };
                    lemma_saved(config, noted, log, z);
                    lemma_errors_stay(config, noted, log, z);
                }
            }
        }
    }
}

/// A cleanup that succeeds leaves nothing behind: no task, no error, no default to set back, and
/// the boost is stopped. One that fails says so in one way, and what it leaves behind says that a
/// cleanup is still required and why.
pub proof fn law_cleanup_is_complete(config: Config, state: StateView, log: Seq<Reply>, at: nat)
    ensures
        match cleanup_step(config, state, log, at) {
            Step::Done(_, s, _) => s.phase == Phase::Stopped && s.tasks.len() == 0
                && s.errors.len() == 0 && !s.defaults_pending && !s.activated,
            Step::Fail(error, s, _) => error == ErrorView::Message(incomplete_text(config))
                && s.phase == Phase::CleanupRequired && s.errors.len() > 0,
            Step::Ask(_) => true,
        },
{
    let begun = StateView { phase: Phase::Stopping, errors: Seq::empty(), ..state };
    lemma_saved(config, begun, log, at);
    if let Step::Done(_, s, n) = saved_step(config, begun, log, at) {
        lemma_discovered(s, s.sockets, log, n);
        let found: Step<()> = if s.activated {
            discover_step(s, s.sockets, log, n).next(
                |t: StateView, m: nat| saved_step(config, t, log, m),
            )
        } else {
            Step::Done((), s, n)
        };
        if let Step::Done(_, d, m) = discover_step(s, s.sockets, log, n) {
            lemma_saved(config, d, log, m);
        }
        if let Step::Done(_, t, m) = found {
            lemma_restored(config, t, t.tasks, log, m);
            if let Step::Done(_, u, k) = restore_step(config, t, t.tasks, log, m) {
                lemma_last(config, u, log, k);
            }
        }
    }
}

/// Whether what a procedure comes to leaves the tasks of a boost in order.
pub open spec fn in_order<T>(step: Step<T>) -> bool {
    match step {
        Step::Done(_, s, _) => ordered(s.tasks),
        Step::Fail(_, s, _) => ordered(s.tasks),
        Step::Ask(_) => true,
    }
}

proof fn lemma_tasks_in_order(
    config: Config,
    state: StateView,
    tasks: Seq<TaskView>,
    log: Seq<Reply>,
    at: nat,
)
    requires
        ordered(state.tasks),
    ensures
        in_order(tasks_step(config, state, tasks, log, at)),
    decreases tasks.len(),
{
    if tasks.len() > 0 {
        law_tasks_stay_ordered(state.tasks, tasks[0]);
        assert(in_order(task_step(config, state, tasks[0], log, at)));
        if let Step::Done(over, s, n) = task_step(config, state, tasks[0], log, at) {
            lemma_tasks_in_order(config, s, tasks.skip(1), log, n);
        }
    }
}

proof fn lemma_servers_in_order(
    config: Config,
    state: StateView,
    paths: Seq<Seq<char>>,
    log: Seq<Reply>,
    at: nat,
)
    requires
        ordered(state.tasks),
    ensures
        in_order(servers_step(config, state, paths, log, at)),
    decreases paths.len(),
{
    if paths.len() > 0 {
        assert forall|tasks: Seq<TaskView>, n: nat| in_order(
            #[trigger] tasks_step(config, state, tasks, log, n),
        ) by {
            lemma_tasks_in_order(config, state, tasks, log, n);
        }
        assert(in_order(server_step(config, state, paths[0], log, at)));
        if let Step::Done(over, s, n) = server_step(config, state, paths[0], log, at) {
            lemma_servers_in_order(config, s, paths.skip(1), log, n);
        }
    }
}

proof fn lemma_more_tasks_in_order(tasks: Seq<TaskView>, more: Seq<TaskView>)
    requires
        ordered(tasks),
    ensures
        ordered(with_tasks(tasks, more)),
    decreases more.len(),
{
    if more.len() > 0 {
        lemma_more_tasks_in_order(tasks, more.drop_last());
        law_tasks_stay_ordered(with_tasks(tasks, more.drop_last()), more.last());
    }
}

proof fn lemma_discover_in_order(state: StateView, paths: Seq<Seq<char>>, log: Seq<Reply>, at: nat)
    requires
        ordered(state.tasks),
    ensures
        in_order(discover_step(state, paths, log, at)),
    decreases paths.len(),
{
    if paths.len() > 0 {
        if let Step::Done(found, _, n) = held(
            connect_run(log, at, paths[0]).next(
                |n: nat| loaded_run(log, n, paths[0], None, Seq::empty(), Seq::empty()),
            ).attempt(),
            state,
        ) {
            let after = match found {
                Ok(tasks) => StateView { tasks: with_tasks(state.tasks, tasks), ..state },
                Err(error) => StateView { errors: state.errors.push(error.text()), ..state },
            };
            if let Ok(tasks) = found {
                lemma_more_tasks_in_order(state.tasks, tasks);
            }
            lemma_discover_in_order(after, paths.skip(1), log, n);
        }
    }
}

proof fn lemma_restore_in_order(
    config: Config,
    state: StateView,
    tasks: Seq<TaskView>,
    log: Seq<Reply>,
    at: nat,
)
    requires
        ordered(state.tasks),
    ensures
        in_order(restore_step(config, state, tasks, log, at)),
    decreases tasks.len(),
{
    if tasks.len() > 0 {
        law_tasks_stay_ordered(state.tasks, tasks[0]);
        if let Step::Done(outcome, _, n) = held(
            restore_run(log, at, tasks[0]).attempt(),
            state,
        ) {
            let after = match outcome {
                Ok(_) => StateView { tasks: without_task(state.tasks, tasks[0]), ..state },
                Err(error) => StateView {
                    errors: state.errors.push(task_error(tasks[0], error)),
                    ..state
                },
            };
            lemma_errors_stay(config, after, log, n);
            lemma_saved(config, after, log, n);
            if let Step::Done(_, s, m) = saved_step(config, after, log, n) {
                lemma_restore_in_order(config, s, tasks.skip(1), log, m);
            }
        }
    }
}

/// The tasks of a boost stay in order while it begins.
pub proof fn law_beginning_keeps_order(config: Config, state: StateView, log: Seq<Reply>, at: nat)
    requires
        ordered(state.tasks),
    ensures
        in_order(begin_step(config, state, log, at)),
{
}

/// The tasks of a boost stay in order in every round.
pub proof fn law_rounds_keep_order(
    config: Config,
    state: StateView,
    previous: Seq<Observation>,
    last: u64,
    log: Seq<Reply>,
    at: nat,
)
    requires
        ordered(state.tasks),
    ensures
        in_order(round_step(config, state, previous, last, log, at)),
{
    assert forall|n: nat| in_order(
        #[trigger] servers_step(config, state, state.sockets, log, n),
    ) by {
        lemma_servers_in_order(config, state, state.sockets, log, n);
    }
}

/// The tasks of a boost stay in order while it is cleaned up.
pub proof fn law_cleanup_keeps_order(config: Config, state: StateView, log: Seq<Reply>, at: nat)
    requires
        ordered(state.tasks),
    ensures
        in_order(cleanup_step(config, state, log, at)),
{
    let begun = StateView { phase: Phase::Stopping, errors: Seq::empty(), ..state };
    lemma_saved(config, begun, log, at);
    lemma_errors_stay(config, begun, log, at);
    if let Step::Done(_, s, n) = saved_step(config, begun, log, at) {
        lemma_discovered(s, s.sockets, log, n);
        lemma_discover_in_order(s, s.sockets, log, n);
        let found: Step<()> = if s.activated {
            discover_step(s, s.sockets, log, n).next(
                |t: StateView, m: nat| saved_step(config, t, log, m),
            )
        } else {
            Step::Done((), s, n)
        };
        if let Step::Done(_, d, m) = discover_step(s, s.sockets, log, n) {
            lemma_saved(config, d, log, m);
            lemma_errors_stay(config, d, log, m);
        }
        if let Step::Done(_, t, m) = found {
            lemma_restored(config, t, t.tasks, log, m);
            lemma_restore_in_order(config, t, t.tasks, log, m);
            if let Step::Done(_, u, k) = restore_step(config, t, t.tasks, log, m) {
                lemma_last_in_order(config, u, log, k);
            }
        }
    }
}

proof fn lemma_last_in_order(config: Config, state: StateView, log: Seq<Reply>, at: nat)
    requires
        ordered(state.tasks),
    ensures
        in_order(last_step(config, state, log, at)),
{
}

/// Where a boost has to end, no task is boosted: nothing is asked for but whether it has to end.
pub proof fn law_no_boost_after_cutoff(
    config: Config,
    state: StateView,
    task: TaskView,
    log: Seq<Reply>,
    at: nat,
    reason: Seq<char>,
    n: nat,
)
    requires
        cutoff_run(config, state.deadline, log, at) == Run::Done(Some(reason), n),
    ensures
        task_step(config, state, task, log, at) == Step::Done(Some(reason), state, n),
{
}

}
