//! The conversation with the Codex app server, and the quota that it reports.
use crate::auth::{copy_to_same_run, AuthDocument, AuthView};
use crate::boost_policy::{BASELINE_EFFORT, BASELINE_TIER, BOOST_MODEL};
use crate::config::Config;
use crate::effects::{
    answer, answer_run, ask, auth, auth_if_valid, auth_if_valid_run, auth_run, clock, clock_run,
    done, done_run, flag, flag_run, mismatch, mismatched, reply_run, told, told_json, told_text,
    Halt, Reply, Request, RequestView, Run,
};
use crate::error::{error_kind, Error, ErrorView};
use crate::json::{
    field, field_views, lemma_object, object1, object2, object3, one_line, parse, plain, reads_as,
    render, text_under, text_under_is, views, Field, Json, JsonView,
};
use crate::paths::{join, joined};
use crate::percent::{complement, rest_of_hundred, Percent};
use crate::text::{before, opt_text, same, text_before};
use crate::usage::{bucket_views, BucketView, UsageBucket, UsageRecord, UsageWindow};
use vstd::prelude::*;
use vstd::utf8::{char_is_scalar, encode_scalar, encode_utf8};

verus! {

/// The longest message that either side may send.
pub const MAX_MESSAGE_SIZE: usize = 4_194_304;

/// How long the response to a request may take, in nanoseconds.
pub const REQUEST_TIMEOUT: u64 = 20_000_000_000;

/// How long to wait for a message before looking for a reason to give up, in nanoseconds.
pub const LOOK_AGAIN: u64 = 80_000_000;

/// How long an app server that is asked to end has for it, in nanoseconds.
pub const STOP_TIMEOUT: u64 = 1_000_000_000;

/// How long to wait before looking again whether an app server has ended, in nanoseconds.
pub const STOP_WAIT: u64 = 10_000_000;

// ---------------------------------------------------------------- reading quota

/// A percentage from its encoding.
pub open spec fn percent_of(bits: Option<int>) -> Option<Percent> {
    match bits {
        Some(bits) => Some(Percent { bits: bits as u64 }),
        None => None,
    }
}

pub open spec fn as_i64(n: Option<int>) -> Option<i64> {
    match n {
        Some(n) => Some(n as i64),
        None => None,
    }
}

/// A quota window as the service describes it.
pub open spec fn window_of(limits: JsonView, name: Seq<char>) -> Option<UsageWindow> {
    match limits.object_at(name) {
        Some(value) => Some(
            UsageWindow {
                used_percent: percent_of(value.number_at("usedPercent"@)),
                resets_at: as_i64(value.integer_at("resetsAt"@)),
                window_minutes: as_i64(value.integer_at("windowDurationMins"@)),
            },
        ),
        None => None,
    }
}

/// The spending limit as the service describes it: by what remains of it, else by what is used.
pub open spec fn individual_of(limits: JsonView) -> Option<UsageWindow> {
    match limits.object_at("individualLimit"@) {
        Some(value) => Some(
            UsageWindow {
                used_percent: match percent_of(value.number_at("remainingPercent"@)) {
                    Some(remaining) => Some(Percent { bits: rest_of_hundred(remaining) as u64 }),
                    None => percent_of(value.number_at("usedPercent"@)),
                },
                resets_at: as_i64(value.integer_at("resetsAt"@)),
                window_minutes: as_i64(value.integer_at("windowDurationMins"@)),
            },
        ),
        None => None,
    }
}

/// A group of models as the service describes it under an identifier.
pub open spec fn bucket_of(limit_id: Seq<char>, limits: JsonView) -> BucketView {
    let spend = limits.bool_at("spendControlReached"@) == Some(true);
    let reached_type = limits.text_at("rateLimitReachedType"@);
    BucketView {
        limit_id: match limits.text_at("limitId"@) {
            Some(id) => id,
            None => limit_id,
        },
        limit_name: limits.text_at("limitName"@),
        primary_window: window_of(limits, "primary"@),
        secondary_window: window_of(limits, "secondary"@),
        individual_window: individual_of(limits),
        reached: reached_type is Some || spend,
        reached_type,
        spend_control_reached: spend,
        plan_type: limits.text_at("planType"@),
    }
}

/// Groups with one more in its place: after every group whose identifier does not stand after.
pub open spec fn placed(buckets: Seq<BucketView>, bucket: BucketView) -> Seq<BucketView>
    decreases buckets.len(),
{
    if buckets.len() == 0 || !text_before(bucket.limit_id, buckets.last().limit_id) {
        buckets.push(bucket)
    } else {
        placed(buckets.drop_last(), bucket).push(buckets.last())
    }
}

/// The groups that are described by objects, in the order of their identifiers.
pub open spec fn groups_of(fields: Seq<(Seq<char>, JsonView)>) -> Seq<BucketView>
    decreases fields.len(),
{
    if fields.len() == 0 {
        Seq::empty()
    } else {
        let (id, value) = fields.last();
        let others = groups_of(fields.drop_last());
        if value is Object {
            placed(others, bucket_of(id, value))
        } else {
            others
        }
    }
}

/// The groups of models in the service's answer: by identifier where it gives them so, else the
/// one group that it describes.
pub open spec fn limits_of(result: JsonView) -> Option<Seq<BucketView>> {
    match result.object_at("rateLimitsByLimitId"@) {
        Some(JsonView::Object(fields)) if fields.len() > 0 => Some(groups_of(fields)),
        _ => match result.object_at("rateLimits"@) {
            Some(limits) => Some(seq![bucket_of("codex"@, limits)]),
            None => None,
        },
    }
}

/// A record that holds nothing but groups of models.
pub open spec fn only_groups(usage: UsageRecord, now: i64) -> bool {
    &&& usage.observed_at == now
    &&& usage.last_attempted_at == now
    &&& usage.primary_window is None
    &&& usage.secondary_window is None
    &&& usage.individual_window is None
    &&& !usage.reached
    &&& usage.reached_type is None
    &&& !usage.spend_control_reached
    &&& usage.has_credits is None
    &&& usage.unlimited is None
    &&& usage.balance is None
    &&& usage.plan_type is None
}

fn parse_window(limits: &Json, name: &str) -> (r: Option<UsageWindow>)
    ensures
        r == window_of(limits@, name@),
{
    match limits.object_at(name) {
        Some(value) => Some(
            UsageWindow {
                used_percent: value.number_at("usedPercent"),
                resets_at: value.integer_at("resetsAt"),
                window_minutes: value.integer_at("windowDurationMins"),
            },
        ),
        None => None,
    }
}

fn parse_individual(limits: &Json) -> (r: Option<UsageWindow>)
    ensures
        r == individual_of(limits@),
{
    match limits.object_at("individualLimit") {
        Some(value) => {
            let used_percent = match value.number_at("remainingPercent") {
                Some(remaining) => Some(complement(remaining)),
                None => value.number_at("usedPercent"),
            };
            Some(
                UsageWindow {
                    used_percent,
                    resets_at: value.integer_at("resetsAt"),
                    window_minutes: value.integer_at("windowDurationMins"),
                },
            )
        },
        None => None,
    }
}

fn owned(text: Option<&String>) -> (r: Option<String>)
    ensures
        opt_text(r) == crate::auth::ref_text(text),
{
    match text {
        Some(text) => Some(text.clone()),
        None => None,
    }
}

/// Reads a group of models as the service describes it under an identifier.
pub fn parse_bucket(limit_id: &str, limits: &Json) -> (r: UsageBucket)
    ensures
        r@ == bucket_of(limit_id@, limits@),
{
    let reached_type = owned(limits.text_at("rateLimitReachedType"));
    let spend_control_reached = match limits.bool_at("spendControlReached") {
        Some(reached) => reached,
        None => false,
    };
    UsageBucket {
        limit_id: match limits.text_at("limitId") {
            Some(id) => id.clone(),
            None => limit_id.to_owned(),
        },
        limit_name: owned(limits.text_at("limitName")),
        primary_window: parse_window(limits, "primary"),
        secondary_window: parse_window(limits, "secondary"),
        individual_window: parse_individual(limits),
        reached: reached_type.is_some() || spend_control_reached,
        reached_type,
        spend_control_reached,
        plan_type: owned(limits.text_at("planType")),
    }
}

fn place(buckets: &mut Vec<UsageBucket>, bucket: UsageBucket)
    ensures
        bucket_views(final(buckets)@) == placed(bucket_views(old(buckets)@), bucket@),
{
    let ghost all = bucket_views(buckets@);
    let ghost view = bucket@;
    let mut n: usize = buckets.len();
    proof {
        assert(all.take(n as int) =~= all);
        assert(placed(all, view) =~= placed(all, view) + all.skip(n as int));
    }
    while n > 0 && before(&bucket.limit_id, &buckets[n - 1].limit_id)
        invariant
            n <= buckets.len(),
            all == bucket_views(buckets@),
            view == bucket@,
            placed(all, view) == placed(all.take(n as int), view) + all.skip(n as int),
        decreases n,
    {
        proof {
            assert(all.take(n as int).last() == buckets@[n - 1]@);
            assert(all.take(n as int).drop_last() =~= all.take(n - 1));
            assert(placed(all.take(n - 1), view).push(all[n - 1]) + all.skip(n as int) =~= placed(
                all.take(n - 1),
                view,
            ) + all.skip(n - 1));
        }
        n -= 1;
    }
    proof {
        if n > 0 {
            assert(all.take(n as int).last() == buckets@[n - 1]@);
        }
        assert(placed(all.take(n as int), view) == all.take(n as int).push(view));
        assert(all.take(n as int).push(view) + all.skip(n as int) =~= all.insert(n as int, view));
        assert(bucket_views(buckets@.insert(n as int, bucket)) =~= all.insert(n as int, view));
    }
    buckets.insert(n, bucket);
}

fn parse_groups(fields: &Vec<Field>) -> (r: Vec<UsageBucket>)
    ensures
        bucket_views(r@) == groups_of(field_views(fields@)),
{
    let ghost all = field_views(fields@);
    let mut buckets: Vec<UsageBucket> = Vec::new();
    let mut i: usize = 0;
    proof {
        assert(all.take(0) =~= Seq::<(Seq<char>, JsonView)>::empty());
        assert(bucket_views(buckets@) =~= Seq::<BucketView>::empty());
    }
    while i < fields.len()
        invariant
            i <= fields.len(),
            all == field_views(fields@),
            bucket_views(buckets@) == groups_of(all.take(i as int)),
        decreases fields.len() - i,
    {
        proof {
            assert(all.take(i + 1).drop_last() =~= all.take(i as int));
            assert(all.take(i + 1).last() == (fields@[i as int].name@, fields@[i as int].value@));
        }
        if let Json::Object(_) = &fields[i].value {
            let bucket = parse_bucket(&fields[i].name, &fields[i].value);
            place(&mut buckets, bucket);
        }
        i += 1;
    }
    proof {
        assert(all.take(i as int) =~= all);
    }
    buckets
}

/// Reads the service's answer to a question for the quota, observed at `now`.
pub fn parse_usage(result: &Json, now: i64) -> (r: Result<UsageRecord, Error>)
    ensures
        match r {
            Ok(usage) => limits_of(result@) == Some(bucket_views(usage.buckets@)) && only_groups(
                usage,
                now,
            ) && usage.error is None,
            Err(error) => limits_of(result@) is None && error@ == ErrorView::Protocol(
                "account/rateLimits/read returned no limits"@,
            ),
        },
{
    let mut usage = UsageRecord::default();
    usage.observed_at = now;
    usage.last_attempted_at = now;
    if let Some(Json::Object(fields)) = result.object_at("rateLimitsByLimitId") {
        proof {
            lemma_object(*fields);
            assert(field_views(fields@).len() == fields.len());
        }
        if fields.len() > 0 {
            usage.buckets = parse_groups(fields);
            return Ok(usage);
        }
    }
    match result.object_at("rateLimits") {
        Some(limits) => {
            usage.buckets.push(parse_bucket("codex", limits));
            proof {
                assert(bucket_views(usage.buckets@) =~= seq![bucket_of("codex"@, limits@)]);
            }
            Ok(usage)
        },
        None => Err(Error::protocol("account/rateLimits/read returned no limits")),
    }
}

/// The mark of a quota that could not be read.
pub open spec fn unavailable(error: ErrorView) -> Seq<char> {
    "quota unavailable ("@ + error.kind() + ")"@
}

/// The record of a quota that could not be read.
pub fn unavailable_usage(error: &Error, now: i64) -> (r: UsageRecord)
    ensures
        only_groups(r, now),
        r.buckets@ == Seq::<UsageBucket>::empty(),
        opt_text(r.error) == Some(unavailable(error@)),
{
    let mut usage = UsageRecord::default();
    usage.observed_at = now;
    usage.last_attempted_at = now;
    usage.error = Some("quota unavailable (".to_owned().concat(error_kind(error)).concat(")"));
    usage
}

/// Whether a quota reading changed the session's credentials.
pub open spec fn session_touched(
    result: Result<(Result<UsageRecord, Error>, bool), Error>,
) -> bool {
    result matches Ok((_, changed)) && changed
}

/// Why there is no quota after a reading, if there is none.
pub open spec fn reading_fault(
    result: Result<(Result<UsageRecord, Error>, bool), Error>,
) -> Option<ErrorView> {
    match result {
        Ok((Ok(_), _)) => None,
        Ok((Err(error), _)) => Some(error@),
        Err(error) => Some(error@),
    }
}

/// Turns every failure of a quota reading but its cancellation into a record that says so.
pub fn normalize_cancellable_query(
    result: Result<(Result<UsageRecord, Error>, bool), Error>,
    now: i64,
) -> (r: Result<(UsageRecord, bool), Error>)
    ensures
        match result {
            Ok((Ok(usage), changed)) => r == Ok::<(UsageRecord, bool), Error>((usage, changed)),
            Ok((Err(error), changed)) => if error is Cancelled {
                r is Err && r->Err_0 is Cancelled
            } else {
                r is Ok && r->Ok_0.1 == changed && only_groups(r->Ok_0.0, now) && opt_text(
                    r->Ok_0.0.error,
                ) == Some(unavailable(error@)) && r->Ok_0.0.buckets@.len() == 0
            },
            Err(error) => if error is Cancelled {
                r is Err && r->Err_0 is Cancelled
            } else {
                r is Ok && !r->Ok_0.1 && only_groups(r->Ok_0.0, now) && opt_text(r->Ok_0.0.error)
                    == Some(unavailable(error@)) && r->Ok_0.0.buckets@.len() == 0
            },
        },
        r is Err <==> reading_fault(result) == Some(ErrorView::Cancelled),
        r matches Ok(pair) ==> pair.1 == session_touched(result) && (reading_fault(result) matches
            Some(error) ==> opt_text(pair.0.error) == Some(unavailable(error))),
{
    match result {
        Ok((Err(Error::Cancelled), _)) => Err(Error::Cancelled),
        Err(Error::Cancelled) => Err(Error::Cancelled),
        Ok((Ok(usage), changed)) => Ok((usage, changed)),
        Ok((Err(error), changed)) => Ok((unavailable_usage(&error, now), changed)),
        Err(error) => Ok((unavailable_usage(&error, now), false)),
    }
}

/// The outcome of a quota reading that cannot be cancelled: a record in every case.
pub fn query_profile(result: Result<(Result<UsageRecord, Error>, bool), Error>, now: i64) -> (r: (
    UsageRecord,
    bool,
))
    ensures
        match result {
            Ok((Ok(usage), changed)) => r == (usage, changed),
            Ok((Err(error), changed)) => r.1 == changed && only_groups(r.0, now) && opt_text(
                r.0.error,
            ) == Some(unavailable(error@)) && r.0.buckets@.len() == 0,
            Err(error) => !r.1 && only_groups(r.0, now) && opt_text(r.0.error) == Some(
                unavailable(error@),
            ) && r.0.buckets@.len() == 0,
        },
        r.1 == session_touched(result),
        reading_fault(result) matches Some(error) ==> opt_text(r.0.error) == Some(
            unavailable(error),
        ),
{
    match result {
        Ok((Ok(usage), changed)) => (usage, changed),
        Ok((Err(error), changed)) => (unavailable_usage(&error, now), changed),
        Err(error) => (unavailable_usage(&error, now), false),
    }
}

/// Says whether the work it was given to is called off.
pub struct CancellationToken {
    pub cancelled: bool,
}

impl CancellationToken {
    /// A token of work that goes on.
    pub fn new() -> (r: CancellationToken)
        ensures
            !r.cancelled,
    {
        CancellationToken { cancelled: false }
    }

    /// Calls the work off, for good.
    pub fn cancel(&mut self)
        ensures
            final(self).cancelled,
    {
        self.cancelled = true;
    }

    /// Whether the work is called off.
    pub fn is_cancelled(&self) -> (r: bool)
        ensures
            r == self.cancelled,
    {
        self.cancelled
    }
}

// ---------------------------------------------------------------- waiting

/// How long to wait for a message at most: up to the deadline, and no longer than until the next
/// look for a reason to give up.
pub open spec fn message_wait(deadline: u64, now: u64) -> u64 {
    if deadline - now < LOOK_AGAIN {
        (deadline - now) as u64
    } else {
        LOOK_AGAIN
    }
}

/// Waits for the next message until a deadline, unless the work is called off.
pub open spec fn next_message_run(deadline: u64, log: Seq<Reply>, at: nat) -> Run<JsonView>
    decreases log.len() - at,
{
    flag_run(log, at, RequestView::Cancelled).bind(
        |cancelled: bool, n: nat|
            if cancelled {
                Run::Fail(ErrorView::Cancelled, n)
            } else {
                clock_run(log, n).bind(
                    |now: u64, m: nat|
                        if now >= deadline {
                            Run::Fail(ErrorView::Timeout, m)
                        } else {
                            reply_run(
                                log,
                                m,
                                RequestView::WaitMessage(message_wait(deadline, now)),
                            ).bind(
                                |reply: Reply, k: nat|
                                    match reply {
                                        Reply::Message(message) => Run::Done(message@, k),
                                        Reply::Missing => if at < k <= log.len() {
                                            next_message_run(deadline, log, k)
                                        } else {
                                            Run::Fail(mismatch(), k)
                                        },
                                        Reply::Closed => Run::Fail(
                                            ErrorView::Protocol("app server closed its output"@),
                                            k,
                                        ),
                                        Reply::Failed(error) => Run::Fail(error@, k),
                                        _ => Run::Fail(mismatch(), k),
                                    },
                            )
                        },
                )
            },
    )
}

/// Waits until an app server has ended, and makes it end once its time is over.
pub open spec fn await_stop_run(deadline: u64, log: Seq<Reply>, at: nat) -> Run<()>
    decreases log.len() - at,
{
    clock_run(log, at).bind(
        |now: u64, n: nat|
            if now >= deadline {
                done_run(log, n, RequestView::SignalServer { force: true }).next(
                    |m: nat| done_run(log, m, RequestView::AwaitServer),
                )
            } else {
                flag_run(log, n, RequestView::ServerExited).bind(
                    |exited: bool, m: nat|
                        if exited {
                            Run::Done((), m)
                        } else {
                            done_run(log, m, RequestView::Sleep(STOP_WAIT)).next(
                                |k: nat|
                                    if at < k <= log.len() {
                                        await_stop_run(deadline, log, k)
                                    } else {
                                        Run::Fail(mismatch(), k)
                                    },
                            )
                        },
                )
            },
    )
}

/// The time after a while, as late as the clock can tell it.
pub open spec fn later(now: u64, time: u64) -> u64 {
    if now + time <= u64::MAX {
        (now + time) as u64
    } else {
        u64::MAX
    }
}

/// Stops an app server: it is asked to end, and made to where it does not in time.
pub open spec fn stop_server_run(log: Seq<Reply>, at: nat) -> Run<()> {
    done_run(log, at, RequestView::SignalServer { force: false }).next(
        |n: nat|
            clock_run(log, n).bind(
                |now: u64, m: nat| await_stop_run(later(now, STOP_TIMEOUT), log, m),
            ),
    )
}

/// The time by which the response to a request that was sent now has to be there.
pub fn response_deadline(now: u64) -> (r: u64)
    ensures
        r == later(now, REQUEST_TIMEOUT),
{
    now.saturating_add(REQUEST_TIMEOUT)
}

/// Waits for the next message until a deadline.
pub fn next_message(deadline: u64, log: &Vec<Reply>, at: &mut usize) -> (r: Result<Json, Halt>)
    requires
        *old(at) <= log.len(),
    ensures
        *final(at) <= log.len(),
        told_json(r, *final(at), next_message_run(deadline, log@, *old(at) as nat)),
{
    loop
        invariant
            *at <= log.len(),
            next_message_run(deadline, log@, *old(at) as nat) == next_message_run(
                deadline,
                log@,
                *at as nat,
            ),
        decreases log.len() - *at,
    {
        if flag(log, at, Request::Cancelled)? {
            return Err(Halt::Fail(Error::Cancelled));
        }
        let now: u64 = clock(log, at)?;
        if now >= deadline {
            return Err(Halt::Fail(Error::Timeout));
        }
        let remaining: u64 = deadline - now;
        let wait: u64 = if remaining < LOOK_AGAIN {
            remaining
        } else {
            LOOK_AGAIN
        };
        match ask(log, at, Request::WaitMessage(wait))? {
            Reply::Message(message) => return Ok(message.copy()),
            Reply::Missing => {},
            Reply::Closed => {
                return Err(Halt::Fail(Error::protocol("app server closed its output")));
            },
            Reply::Failed(error) => return Err(Halt::Fail(error.clone())),
            _ => return Err(mismatched()),
        }
    }
}

fn await_stop(deadline: u64, log: &Vec<Reply>, at: &mut usize) -> (r: Result<(), Halt>)
    requires
        *old(at) <= log.len(),
    ensures
        *final(at) <= log.len(),
        told(r, *final(at), await_stop_run(deadline, log@, *old(at) as nat)),
{
    loop
        invariant
            *at <= log.len(),
            await_stop_run(deadline, log@, *old(at) as nat) == await_stop_run(
                deadline,
                log@,
                *at as nat,
            ),
        decreases log.len() - *at,
    {
        let now: u64 = clock(log, at)?;
        if now >= deadline {
            done(log, at, Request::SignalServer { force: true })?;
            return done(log, at, Request::AwaitServer);
        }
        if flag(log, at, Request::ServerExited)? {
            return Ok(());
        }
        done(log, at, Request::Sleep(STOP_WAIT))?;
    }
}

/// Stops an app server.
pub fn stop_server(log: &Vec<Reply>, at: &mut usize) -> (r: Result<(), Halt>)
    requires
        *old(at) <= log.len(),
    ensures
        *final(at) <= log.len(),
        told(r, *final(at), stop_server_run(log@, *old(at) as nat)),
{
    done(log, at, Request::SignalServer { force: false })?;
    let now: u64 = clock(log, at)?;
    await_stop(now.saturating_add(STOP_TIMEOUT), log, at)
}

/// Waiting for a message never goes beyond its deadline: it is asked for before the deadline, for
/// some time that ends by it and soon enough to look for a reason to give up.
pub proof fn law_a_wait_keeps_its_deadline(deadline: u64, log: Seq<Reply>, at: nat, time: u64)
    requires
        next_message_run(deadline, log, at) == Run::<JsonView>::Ask(RequestView::WaitMessage(time)),
    ensures
        log.len() > at,
        log.last() matches Reply::Number(now) && now < deadline && now + time <= deadline,
        0 < time <= LOOK_AGAIN,
    decreases log.len() - at,
{
    if at + 2 < log.len() {
        law_a_wait_keeps_its_deadline(deadline, log, at + 3, time);
    }
}

/// The reply to a request tells that the app server has ended: it is seen to have, or was waited
/// for.
pub open spec fn tells_the_end(asked: Run<()>, reply: Reply) -> bool {
    match asked {
        Run::Ask(RequestView::ServerExited) => reply == Reply::Flag(true),
        Run::Ask(RequestView::AwaitServer) => reply is Done,
        _ => false,
    }
}

/// An app server that was stopped has ended: it was seen to have, or waited for after it was made
/// to.
pub proof fn law_a_stopped_server_has_ended(log: Seq<Reply>, at: nat, m: nat)
    requires
        stop_server_run(log, at) == Run::Done((), m),
    ensures
        at < m <= log.len(),
        tells_the_end(stop_server_run(log.take(m - 1), at), log[m - 1]),
{
    lemma_stop_ended(later(log[at + 1int]->Number_0, STOP_TIMEOUT), log, at + 2, m);
}

proof fn lemma_stop_ended(deadline: u64, log: Seq<Reply>, at: nat, m: nat)
    requires
        await_stop_run(deadline, log, at) == Run::Done((), m),
    ensures
        at < m <= log.len(),
        tells_the_end(await_stop_run(deadline, log.take(m - 1), at), log[m - 1]),
    decreases log.len() - at,
{
    match log[at as int] {
        Reply::Number(now) if now < deadline => if log[at + 1int] == Reply::Flag(false) {
            lemma_stop_ended(deadline, log, at + 3, m);
        },
        _ => {},
    }
}

// ---------------------------------------------------------------- requests and responses

/// A request to the app server.
pub open spec fn request_message(id: int, method: Seq<char>, params: Option<JsonView>) -> JsonView {
    match params {
        Some(params) => JsonView::Object(
            seq![
                ("id"@, JsonView::Integer(id)),
                ("method"@, JsonView::Text(method)),
                ("params"@, params),
            ],
        ),
        None => JsonView::Object(
            seq![("id"@, JsonView::Integer(id)), ("method"@, JsonView::Text(method))],
        ),
    }
}

/// The refusal of a request that the app server makes of this side.
pub open spec fn refusal(id: JsonView, method: Seq<char>) -> JsonView {
    JsonView::Object(
        seq![
            (
                "error"@,
                JsonView::Object(
                    seq![
                        ("code"@, JsonView::Integer(-32601)),
                        ("message"@, JsonView::Text("unsupported server request: "@ + method)),
                    ],
                ),
            ),
            ("id"@, id),
        ],
    )
}

/// What a response to `method` comes to. A failure carries what the server said about it where
/// `detailed` asks for that.
pub open spec fn outcome(response: JsonView, method: Seq<char>, detailed: bool) -> Result<
    JsonView,
    ErrorView,
> {
    match response.get("error"@) {
        Some(error) if error !is Null => Err(
            ErrorView::Protocol(
                match error.text_at("message"@) {
                    Some(message) if detailed => method + " failed"@ + ": "@ + message,
                    _ => method + " failed"@,
                },
            ),
        ),
        _ => Ok(
            match response.get("result"@) {
                Some(result) => result,
                None => JsonView::Object(Seq::empty()),
            },
        ),
    }
}

/// The refusal that a message calls for: where it is a request, and requests are answered.
pub open spec fn refusal_due(message: JsonView, answer: bool) -> Option<JsonView> {
    if !answer {
        None
    } else {
        match (message.text_at("method"@), message.get("id"@)) {
            (Some(method), Some(id)) => Some(refusal(id, method)),
            _ => None,
        }
    }
}

/// Waits for the response to a request; messages in between are passed over, or refused where
/// they are requests and `answer` says so.
pub open spec fn response_run(
    id: int,
    method: Seq<char>,
    answer: bool,
    log: Seq<Reply>,
    at: nat,
) -> Run<JsonView>
    decreases log.len() - at,
{
    if at >= log.len() {
        Run::Ask(RequestView::Receive)
    } else {
        match log[at as int] {
            Reply::Message(message) => if message@.integer_at("id"@) == Some(id) {
                match outcome(message@, method, answer) {
                    Ok(result) => Run::Done(result, at + 1),
                    Err(error) => Run::Fail(error, at + 1),
                }
            } else {
                match refusal_due(message@, answer) {
                    Some(reply) => if at + 1 >= log.len() {
                        Run::Ask(RequestView::Send(reply))
                    } else {
                        match log[at + 1int] {
                            Reply::Done => response_run(id, method, answer, log, at + 2),
                            Reply::Failed(error) => Run::Fail(error@, at + 2),
                            _ => Run::Fail(mismatch(), at + 2),
                        }
                    },
                    None => response_run(id, method, answer, log, at + 1),
                }
            },
            Reply::Failed(error) => Run::Fail(error@, at + 1),
            _ => Run::Fail(mismatch(), at + 1),
        }
    }
}

/// Sends a request and waits for its response.
pub open spec fn call_run(
    id: int,
    method: Seq<char>,
    params: Option<JsonView>,
    answer: bool,
    log: Seq<Reply>,
    at: nat,
) -> Run<JsonView> {
    done_run(log, at, RequestView::Send(request_message(id, method, params))).next(
        |n: nat| response_run(id, method, answer, log, n),
    )
}

fn make_request(id: i64, method: &str, params: Option<Json>) -> (r: Json)
    ensures
        r@ == request_message(
            id as int,
            method@,
            match params {
                Some(params) => Some(params@),
                None => None,
            },
        ),
{
    let id_field = field("id", integer(id));
    let method_field = field("method", Json::of(method));
    match params {
        Some(params) => object3(id_field, method_field, field("params", params)),
        None => object2(id_field, method_field),
    }
}

/// A whole number as a JSON value.
pub fn integer(n: i64) -> (r: Json)
    ensures
        r@ == JsonView::Integer(n as int),
{
    if n >= 0 {
        Json::Unsigned(n as u64)
    } else {
        Json::Negative(n)
    }
}

fn make_refusal(id: Json, method: &str) -> (r: Json)
    ensures
        r@ == refusal(id@, method@),
{
    let text = "unsupported server request: ".to_owned().concat(method);
    let error = object2(field("code", integer(-32601)), field("message", Json::of(&text)));
    object2(field("error", error), field("id", id))
}

fn respond(response: &Json, method: &str, detailed: bool) -> (r: Result<Json, Error>)
    ensures
        match r {
            Ok(result) => outcome(response@, method@, detailed) == Ok::<JsonView, ErrorView>(result@),
            Err(error) => outcome(response@, method@, detailed) == Err::<JsonView, ErrorView>(error@),
        },
{
    if let Some(error) = response.get("error") {
        let null = match error {
            Json::Null => true,
            _ => false,
        };
        if !null {
            let mut text = method.to_owned().concat(" failed");
            if detailed {
                if let Some(message) = error.text_at("message") {
                    text = text.concat(": ").concat(message);
                }
            }
            return Err(Error::Protocol(text));
        }
    }
    match response.get("result") {
        Some(result) => Ok(result.copy()),
        None => {
            let empty: Vec<Field> = Vec::new();
            proof {
                lemma_object(empty);
                assert(field_views(empty@) =~= Seq::empty());
            }
            Ok(Json::Object(empty))
        },
    }
}

/// Waits for the response to a request.
pub fn await_response(
    id: i64,
    method: &str,
    answer_requests: bool,
    log: &Vec<Reply>,
    at: &mut usize,
) -> (r: Result<Json, Halt>)
    requires
        *old(at) <= log.len(),
    ensures
        *final(at) <= log.len(),
        told_json(
            r,
            *final(at),
            response_run(id as int, method@, answer_requests, log@, *old(at) as nat),
        ),
{
    while *at < log.len()
        invariant
            *at <= log.len(),
            response_run(id as int, method@, answer_requests, log@, *old(at) as nat)
                == response_run(id as int, method@, answer_requests, log@, *at as nat),
        decreases log.len() - *at,
    {
        let message = match &log[*at] {
            Reply::Message(message) => message,
            Reply::Failed(error) => {
                *at = *at + 1;
                return Err(Halt::Fail(error.clone()));
            },
            _ => {
                *at = *at + 1;
                return Err(mismatched());
            },
        };
        *at = *at + 1;
        if message.integer_at("id") == Some(id) {
            return match respond(message, method, answer_requests) {
                Ok(result) => Ok(result),
                Err(error) => Err(Halt::Fail(error)),
            };
        }
        if answer_requests {
            if let Some(foreign) = message.text_at("method") {
                if let Some(foreign_id) = message.get("id") {
                    let reply = make_refusal(foreign_id.copy(), foreign);
                    done(log, at, Request::Send(reply))?;
                }
            }
        }
    }
    Err(Halt::Ask(Request::Receive))
}

/// Sends a request and waits for its response.
pub fn call(
    id: i64,
    method: &str,
    params: Option<Json>,
    answer_requests: bool,
    log: &Vec<Reply>,
    at: &mut usize,
) -> (r: Result<Json, Halt>)
    requires
        *old(at) <= log.len(),
    ensures
        *final(at) <= log.len(),
        told_json(
            r,
            *final(at),
            call_run(
                id as int,
                method@,
                match params {
                    Some(params) => Some(params@),
                    None => None,
                },
                answer_requests,
                log@,
                *old(at) as nat,
            ),
        ),
{
    done(log, at, Request::Send(make_request(id, method, params)))?;
    await_response(id, method, answer_requests, log, at)
}

/// How this program introduces itself.
pub open spec fn client_info() -> JsonView {
    JsonView::Object(
        seq![
            ("name"@, JsonView::Text("cxa"@)),
            ("title"@, JsonView::Text("Codex Account Switcher"@)),
            ("version"@, JsonView::Text("1"@)),
        ],
    )
}

pub open spec fn initialized_message() -> JsonView {
    JsonView::Object(seq![("method"@, JsonView::Text("initialized"@))])
}

/// Opens the conversation.
pub open spec fn initialize_run(log: Seq<Reply>, at: nat) -> Run<()> {
    call_run(
        0,
        "initialize"@,
        Some(JsonView::Object(seq![("clientInfo"@, client_info())])),
        false,
        log,
        at,
    ).next(|n: nat| done_run(log, n, RequestView::Send(initialized_message())))
}

/// Asks for the quota.
pub open spec fn query_run(log: Seq<Reply>, at: nat) -> Run<JsonView> {
    initialize_run(log, at).next(
        |n: nat|
            call_run(
                1,
                "account/read"@,
                Some(JsonView::Object(seq![("refreshToken"@, JsonView::Bool(false))])),
                false,
                log,
                n,
            ).next(
                |m: nat| call_run(2, "account/rateLimits/read"@, None, false, log, m),
            ),
    )
}

/// Asks where Codex keeps its credentials.
pub open spec fn credential_store_run(log: Seq<Reply>, at: nat) -> Run<Seq<char>> {
    initialize_run(log, at).next(
        |n: nat|
            call_run(
                1,
                "config/read"@,
                Some(JsonView::Object(seq![("includeLayers"@, JsonView::Bool(false))])),
                false,
                log,
                n,
            ).bind(
                |result: JsonView, m: nat|
                    match store_of(result) {
                        Some(mode) => Run::Done(mode, m),
                        None => Run::Fail(
                            ErrorView::Protocol(
                                "config/read returned no effective cli_auth_credentials_store"@,
                            ),
                            m,
                        ),
                    },
            ),
    )
}

/// The credential store that an effective configuration names.
pub open spec fn store_of(result: JsonView) -> Option<Seq<char>> {
    match result.get("config"@) {
        Some(config) => config.text_at("cli_auth_credentials_store"@),
        None => None,
    }
}

/// How this program introduces itself.
pub fn client_information() -> (r: Json)
    ensures
        r@ == client_info(),
{
    object3(
        field("name", Json::of("cxa")),
        field("title", Json::of("Codex Account Switcher")),
        field("version", Json::of("1")),
    )
}

fn initialize(log: &Vec<Reply>, at: &mut usize) -> (r: Result<(), Halt>)
    requires
        *old(at) <= log.len(),
    ensures
        *final(at) <= log.len(),
        told(r, *final(at), initialize_run(log@, *old(at) as nat)),
{
    let params = object1(field("clientInfo", client_information()));
    let _ = call(0, "initialize", Some(params), false, log, at)?;
    done(log, at, Request::Send(object1(field("method", Json::of("initialized")))))
}

/// Asks for the quota.
pub fn query(log: &Vec<Reply>, at: &mut usize) -> (r: Result<Json, Halt>)
    requires
        *old(at) <= log.len(),
    ensures
        *final(at) <= log.len(),
        told_json(r, *final(at), query_run(log@, *old(at) as nat)),
{
    initialize(log, at)?;
    let params = object1(field("refreshToken", Json::Bool(false)));
    let _ = call(1, "account/read", Some(params), false, log, at)?;
    call(2, "account/rateLimits/read", None, false, log, at)
}

/// Asks where Codex keeps its credentials.
pub fn effective_credential_store(log: &Vec<Reply>, at: &mut usize) -> (r: Result<String, Halt>)
    requires
        *old(at) <= log.len(),
    ensures
        *final(at) <= log.len(),
        told_text(r, *final(at), credential_store_run(log@, *old(at) as nat)),
{
    initialize(log, at)?;
    let params = object1(field("includeLayers", Json::Bool(false)));
    let result = call(1, "config/read", Some(params), false, log, at)?;
    let mode = match result.get("config") {
        Some(config) => config.text_at("cli_auth_credentials_store"),
        None => None,
    };
    match mode {
        Some(mode) => Ok(mode.clone()),
        None => Err(
            Halt::Fail(
                Error::protocol("config/read returned no effective cli_auth_credentials_store"),
            ),
        ),
    }
}

// ---------------------------------------------------------------- defaults

/// The version of the person's own configuration: that of the first layer of theirs.
pub open spec fn user_version(layers: Seq<JsonView>) -> Option<Seq<char>>
    decreases layers.len(),
{
    if layers.len() == 0 {
        None
    } else if text_under(layers[0], "name"@, "type"@) == Some("user"@) {
        layers[0].text_at("version"@)
    } else {
        user_version(layers.skip(1))
    }
}

/// The version of the person's own configuration that an effective configuration names.
pub open spec fn version_of(result: JsonView) -> Option<Seq<char>> {
    match result.list_at("layers"@) {
        Some(layers) => user_version(layers),
        None => None,
    }
}

/// One change of the configuration.
pub open spec fn edit_of(path: Seq<char>, value: JsonView) -> JsonView {
    JsonView::Object(
        seq![
            ("keyPath"@, JsonView::Text(path)),
            ("mergeStrategy"@, JsonView::Text("replace"@)),
            ("value"@, value),
        ],
    )
}

/// The changes that set the defaults of Codex back to the baseline.
pub open spec fn baseline_edits() -> Seq<JsonView> {
    seq![
        edit_of("model"@, JsonView::Text(BOOST_MODEL@)),
        edit_of("model_reasoning_effort"@, JsonView::Text(BASELINE_EFFORT@)),
        edit_of("plan_mode_reasoning_effort"@, JsonView::Text(BASELINE_EFFORT@)),
        edit_of("service_tier"@, JsonView::Text(BASELINE_TIER@)),
        edit_of("features.fast_mode"@, JsonView::Bool(true)),
    ]
}

/// Sets the defaults back, where nobody changed them since they were read.
pub open spec fn write_baseline_run(log: Seq<Reply>, at: nat) -> Run<()> {
    initialize_run(log, at).next(
        |n: nat|
            call_run(
                1,
                "config/read"@,
                Some(JsonView::Object(seq![("includeLayers"@, JsonView::Bool(true))])),
                false,
                log,
                n,
            ).bind(
                |result: JsonView, m: nat|
                    match version_of(result) {
                        None => Run::Fail(
                            ErrorView::Protocol("config/read returned no user configuration version"@),
                            m,
                        ),
                        Some(version) => call_run(
                            2,
                            "config/batchWrite"@,
                            Some(
                                JsonView::Object(
                                    seq![
                                        ("edits"@, JsonView::List(baseline_edits())),
                                        ("expectedVersion"@, JsonView::Text(version)),
                                    ],
                                ),
                            ),
                            false,
                            log,
                            m,
                        ).next(|k: nat| Run::Done((), k)),
                    },
            ),
    )
}

/// Starts an app server, sets the defaults of Codex back to the baseline, and stops it again.
pub open spec fn baseline_run(c: Config, log: Seq<Reply>, at: nat) -> Run<()> {
    done_run(log, at, RequestView::StartServer { home: c.codex_home@, force_file: false }).next(
        |n: nat|
            write_baseline_run(log, n).attempt().bind(
                |written: Result<(), ErrorView>, m: nat|
                    done_run(log, m, RequestView::StopServer).attempt().bind(
                        |stopped: Result<(), ErrorView>, k: nat|
                            match (written, stopped) {
                                (Err(error), _) => Run::Fail(error, k),
                                (Ok(_), Err(error)) => Run::Fail(error, k),
                                (Ok(_), Ok(_)) => Run::Done((), k),
                            },
                    ),
            ),
    )
}

fn read_version(result: &Json) -> (r: Option<String>)
    ensures
        opt_text(r) == version_of(result@),
{
    let layers = match result.list_at("layers") {
        Some(layers) => layers,
        None => return None,
    };
    let mut i: usize = 0;
    proof {
        assert(views(layers@).skip(0) =~= views(layers@));
    }
    while i < layers.len()
        invariant
            i <= layers.len(),
            version_of(result@) == user_version(views(layers@).skip(i as int)),
        decreases layers.len() - i,
    {
        proof {
            assert(views(layers@).skip(i as int)[0] == layers@[i as int]@);
            assert(views(layers@).skip(i as int).skip(1) =~= views(layers@).skip(i + 1));
        }
        if text_under_is(&layers[i], "name", "type", "user") {
            return match layers[i].text_at("version") {
                Some(version) => Some(version.clone()),
                None => None,
            };
        }
        i += 1;
    }
    None
}

fn edit(path: &str, value: Json) -> (r: Json)
    ensures
        r@ == edit_of(path@, value@),
{
    object3(
        field("keyPath", Json::of(path)),
        field("mergeStrategy", Json::of("replace")),
        field("value", value),
    )
}

fn baseline(version: &str) -> (r: Json)
    ensures
        r@ == JsonView::Object(
            seq![
                ("edits"@, JsonView::List(baseline_edits())),
                ("expectedVersion"@, JsonView::Text(version@)),
            ],
        ),
{
    let edits = vec![
        edit("model", Json::of(BOOST_MODEL)),
        edit("model_reasoning_effort", Json::of(BASELINE_EFFORT)),
        edit("plan_mode_reasoning_effort", Json::of(BASELINE_EFFORT)),
        edit("service_tier", Json::of(BASELINE_TIER)),
        edit("features.fast_mode", Json::Bool(true)),
    ];
    let list = Json::List(edits);
    proof {
        assert(list@->List_0 =~= baseline_edits());
    }
    object2(field("edits", list), field("expectedVersion", Json::of(version)))
}

fn write_baseline(log: &Vec<Reply>, at: &mut usize) -> (r: Result<(), Halt>)
    requires
        *old(at) <= log.len(),
    ensures
        *final(at) <= log.len(),
        told(r, *final(at), write_baseline_run(log@, *old(at) as nat)),
{
    initialize(log, at)?;
    let params = object1(field("includeLayers", Json::Bool(true)));
    let result = call(1, "config/read", Some(params), false, log, at)?;
    let version = match read_version(&result) {
        Some(version) => version,
        None => {
            return Err(
                Halt::Fail(
                    Error::protocol("config/read returned no user configuration version"),
                ),
            );
        },
    };
    let _ = call(2, "config/batchWrite", Some(baseline(&version)), false, log, at)?;
    Ok(())
}

/// Sets the defaults of Codex back to the baseline, where nobody changed its configuration
/// meanwhile.
pub fn set_baseline_defaults(config: &Config, log: &Vec<Reply>, at: &mut usize) -> (r: Result<
    (),
    Halt,
>)
    requires
        *old(at) <= log.len(),
    ensures
        *final(at) <= log.len(),
        told(r, *final(at), baseline_run(*config, log@, *old(at) as nat)),
{
    done(
        log,
        at,
        Request::StartServer { home: config.codex_home.clone(), force_file: false },
    )?;
    let written = write_baseline(log, at);
    if let Err(Halt::Ask(request)) = written {
        return Err(Halt::Ask(request));
    }
    let stopped = done(log, at, Request::StopServer);
    if let Err(Halt::Ask(request)) = stopped {
        return Err(Halt::Ask(request));
    }
    written?;
    stopped
}

// ---------------------------------------------------------------- whole conversations

pub open spec fn wrong_store_text(mode: Seq<char>) -> Seq<char> {
    "cxa requires Codex's file credential store, but Codex is configured to use `"@ + mode
        + "`. Set `cli_auth_credentials_store = \"file\"`, run `codex login` again, then run cxa."@
}

/// Checks that Codex keeps its credentials in a file.
pub open spec fn check_store_run(log: Seq<Reply>, at: nat) -> Run<()> {
    credential_store_run(log, at).bind(
        |mode: Seq<char>, n: nat|
            if mode == "file"@ {
                Run::Done((), n)
            } else {
                Run::Fail(ErrorView::Message(wrong_store_text(mode)), n)
            },
    )
}

/// Starts an app server, checks where Codex keeps its credentials, and stops it again; the
/// result of the check comes before that of stopping.
pub open spec fn require_file_run(c: Config, log: Seq<Reply>, at: nat) -> Run<()> {
    done_run(log, at, RequestView::StartServer { home: c.codex_home@, force_file: false }).next(
        |n: nat|
            check_store_run(log, n).attempt().bind(
                |checked: Result<(), ErrorView>, m: nat|
                    done_run(log, m, RequestView::StopServer).attempt().bind(
                        |stopped: Result<(), ErrorView>, k: nat|
                            match (checked, stopped) {
                                (Err(error), _) => Run::Fail(error, k),
                                (Ok(_), Err(error)) => Run::Fail(error, k),
                                (Ok(_), Ok(_)) => Run::Done((), k),
                            },
                    ),
            ),
    )
}

/// Puts an account's credentials, and Codex's configuration where there is one, into a temporary
/// home.
pub open spec fn prepare_home_run(c: Config, source: Seq<char>, log: Seq<Reply>, at: nat) -> Run<
    Seq<char>,
> {
    answer_run(
        log,
        at,
        RequestView::TempDir { directory: c.account_store@, prefix: ".quota-"@ },
    ).bind(
        |home: Seq<char>, n: nat|
            done_run(
                log,
                n,
                RequestView::Copy { from: source, to: joined(home, "auth.json"@) },
            ).next(
                |m: nat|
                    flag_run(
                        log,
                        m,
                        RequestView::IsFile(joined(c.codex_home@, "config.toml"@)),
                    ).bind(
                        |configured: bool, k: nat|
                            if configured {
                                done_run(
                                    log,
                                    k,
                                    RequestView::Copy {
                                        from: joined(c.codex_home@, "config.toml"@),
                                        to: joined(home, "config.toml"@),
                                    },
                                ).next(|j: nat| Run::Done(home, j))
                            } else {
                                Run::Done(home, k)
                            },
                    ),
            ),
    )
}

/// Saves credentials that were refreshed during a quota reading: to their account, and to the
/// session where that still holds the ones from before. The answer says whether the session
/// changed.
pub open spec fn save_refreshed_run(
    c: Config,
    source: Seq<char>,
    original: AuthView,
    home: Seq<char>,
    log: Seq<Reply>,
    at: nat,
) -> Run<bool> {
    auth_run(log, at, joined(home, "auth.json"@)).bind(
        |refreshed: AuthDocument, n: nat|
            copy_to_same_run(refreshed@, source, log, n).next(
                |m: nat|
                    auth_if_valid_run(log, m, c.session_auth@).bind(
                        |session: Option<AuthDocument>, k: nat|
                            if session is Some && refreshed@.identity.same_account(
                                session->0@.identity,
                            ) && session->0@.same_credentials(original) {
                                copy_to_same_run(refreshed@, c.session_auth@, log, k)
                            } else {
                                Run::Done(false, k)
                            },
                    ),
            ),
    )
}

/// Reads an account's quota in an isolated home: the service's answer, or why there is none, and
/// whether the session's credentials changed.
pub open spec fn read_quota_run(c: Config, source: Seq<char>, log: Seq<Reply>, at: nat) -> Run<
    (Result<JsonView, ErrorView>, bool),
> {
    done_run(log, at, RequestView::PrivateDir(c.account_store@)).next(
        |n: nat|
            auth_run(log, n, source).bind(
                |original: AuthDocument, m: nat|
                    prepare_home_run(c, source, log, m).bind(
                        |home: Seq<char>, k: nat|
                            done_run(
                                log,
                                k,
                                RequestView::StartServer { home, force_file: true },
                            ).next(
                                |j: nat|
                                    query_run(log, j).attempt().bind(
                                        |usage: Result<JsonView, ErrorView>, i: nat|
                                            done_run(log, i, RequestView::StopServer).next(
                                                |h: nat|
                                                    save_refreshed_run(
                                                        c,
                                                        source,
                                                        original@,
                                                        home,
                                                        log,
                                                        h,
                                                    ).bind(
                                                        |changed: bool, g: nat|
                                                            Run::Done((usage, changed), g),
                                                    ),
                                            ),
                                    ),
                            ),
                    ),
            ),
    )
}

/// Checks that Codex takes its credentials from a file, and not from the environment.
pub open spec fn credentials_run(
    c: Config,
    access_token: Option<Seq<char>>,
    log: Seq<Reply>,
    at: nat,
) -> Run<()> {
    if crate::config::set(access_token) {
        Run::Fail(
            ErrorView::Message(
                "cxa requires file-backed ChatGPT OAuth credentials. Unset CODEX_ACCESS_TOKEN, then run cxa again."@,
            ),
            at,
        )
    } else {
        require_file_run(c, log, at)
    }
}

/// Checks that Codex keeps its credentials in a file.
pub fn require_file_credentials(
    config: &Config,
    access_token: &Option<String>,
    log: &Vec<Reply>,
    at: &mut usize,
) -> (r: Result<(), Halt>)
    requires
        *old(at) <= log.len(),
    ensures
        *final(at) <= log.len(),
        told(
            r,
            *final(at),
            credentials_run(*config, opt_text(*access_token), log@, *old(at) as nat),
        ),
{
    if let Err(error) = config.require_no_credential_override(access_token) {
        return Err(Halt::Fail(error));
    }
    done(
        log,
        at,
        Request::StartServer { home: config.codex_home.clone(), force_file: false },
    )?;
    let checked = check_store(log, at);
    if let Err(Halt::Ask(request)) = checked {
        return Err(Halt::Ask(request));
    }
    let stopped = done(log, at, Request::StopServer);
    if let Err(Halt::Ask(request)) = stopped {
        return Err(Halt::Ask(request));
    }
    checked?;
    stopped
}

fn check_store(log: &Vec<Reply>, at: &mut usize) -> (r: Result<(), Halt>)
    requires
        *old(at) <= log.len(),
    ensures
        *final(at) <= log.len(),
        told(r, *final(at), check_store_run(log@, *old(at) as nat)),
{
    let mode = effective_credential_store(log, at)?;
    if same(&mode, "file") {
        Ok(())
    } else {
        Err(
            Halt::Fail(
                Error::Message(
                    "cxa requires Codex's file credential store, but Codex is configured to use `".to_owned().concat(
                        &mode,
                    ).concat(
                        "`. Set `cli_auth_credentials_store = \"file\"`, run `codex login` again, then run cxa.",
                    ),
                ),
            ),
        )
    }
}

fn prepare_home(config: &Config, source: &str, log: &Vec<Reply>, at: &mut usize) -> (r: Result<
    String,
    Halt,
>)
    requires
        *old(at) <= log.len(),
    ensures
        *final(at) <= log.len(),
        told_text(r, *final(at), prepare_home_run(*config, source@, log@, *old(at) as nat)),
{
    let home = answer(
        log,
        at,
        Request::TempDir {
            directory: config.account_store.clone(),
            prefix: ".quota-".to_owned(),
        },
    )?;
    done(log, at, Request::Copy { from: source.to_owned(), to: join(&home, "auth.json") })?;
    let configuration = join(&config.codex_home, "config.toml");
    if flag(log, at, Request::IsFile(configuration.clone()))? {
        done(log, at, Request::Copy { from: configuration, to: join(&home, "config.toml") })?;
    }
    Ok(home)
}

fn save_refreshed(
    config: &Config,
    source: &str,
    original: &AuthDocument,
    home: &str,
    log: &Vec<Reply>,
    at: &mut usize,
) -> (r: Result<bool, Halt>)
    requires
        *old(at) <= log.len(),
    ensures
        *final(at) <= log.len(),
        told(
            r,
            *final(at),
            save_refreshed_run(*config, source@, original@, home@, log@, *old(at) as nat),
        ),
{
    let refreshed = auth(log, at, &join(home, "auth.json"))?;
    let _ = refreshed.copy_to_same_account(source, log, at)?;
    let session = match auth_if_valid(log, at, &config.session_auth)? {
        Some(session) => session,
        None => {
            return Ok(false);
        },
    };
    if refreshed.identity.same_account(&session.identity) && session.same_credentials(original) {
        refreshed.copy_to_same_account(&config.session_auth, log, at)
    } else {
        Ok(false)
    }
}

/// `told` for a quota reading.
pub open spec fn told_quota(
    r: Result<(Result<Json, Error>, bool), Halt>,
    at: usize,
    run: Run<(Result<JsonView, ErrorView>, bool)>,
) -> bool {
    match r {
        Ok((Ok(answer), changed)) => run == Run::Done(
            (Ok::<JsonView, ErrorView>(answer@), changed),
            at as nat,
        ),
        Ok((Err(error), changed)) => run == Run::Done(
            (Err::<JsonView, ErrorView>(error@), changed),
            at as nat,
        ),
        Err(Halt::Fail(error)) => run == Run::<(Result<JsonView, ErrorView>, bool)>::Fail(
            error@,
            at as nat,
        ),
        Err(Halt::Ask(request)) => run == Run::<(Result<JsonView, ErrorView>, bool)>::Ask(request@),
    }
}

/// Reads an account's quota in an isolated home.
pub fn query_profile_inner(config: &Config, source: &str, log: &Vec<Reply>, at: &mut usize) -> (r:
    Result<(Result<Json, Error>, bool), Halt>)
    requires
        *old(at) <= log.len(),
    ensures
        *final(at) <= log.len(),
        told_quota(r, *final(at), read_quota_run(*config, source@, log@, *old(at) as nat)),
{
    done(log, at, Request::PrivateDir(config.account_store.clone()))?;
    let original = auth(log, at, source)?;
    let home = prepare_home(config, source, log, at)?;
    done(log, at, Request::StartServer { home: home.clone(), force_file: true })?;
    let usage = match query(log, at) {
        Ok(result) => Ok(result),
        Err(Halt::Fail(error)) => Err(error),
        Err(Halt::Ask(request)) => {
            return Err(Halt::Ask(request));
        },
    };
    done(log, at, Request::StopServer)?;
    let changed = save_refreshed(config, source, original, &home, log, at)?;
    Ok((usage, changed))
}

/// What a quota reading means: the service's answer is read where there is one.
pub fn usage_of(outcome: Result<Json, Error>, now: i64) -> (r: Result<UsageRecord, Error>)
    ensures
        match outcome {
            Ok(answer) => match r {
                Ok(usage) => limits_of(answer@) == Some(bucket_views(usage.buckets@)) && only_groups(
                    usage,
                    now,
                ) && usage.error is None,
                Err(error) => limits_of(answer@) is None && error@ == ErrorView::Protocol(
                    "account/rateLimits/read returned no limits"@,
                ),
            },
            Err(error) => r == Err::<UsageRecord, Error>(error),
        },
{
    match outcome {
        Ok(answer) => parse_usage(&answer, now),
        Err(error) => Err(error),
    }
}

// ---------------------------------------------------------------- lines of output

/// The position of the first line feed, or the length.
pub open spec fn line_end(bytes: Seq<u8>) -> int
    decreases bytes.len(),
{
    if bytes.len() == 0 {
        0
    } else if bytes[0] == 10 {
        0
    } else {
        1 + line_end(bytes.skip(1))
    }
}

/// Whether a byte is ASCII white space.
pub open spec fn is_blank(byte: u8) -> bool {
    byte == 32 || byte == 9 || byte == 10 || byte == 12 || byte == 13
}

pub open spec fn all_blank(bytes: Seq<u8>) -> bool {
    forall|i: int| 0 <= i < bytes.len() ==> is_blank(#[trigger] bytes[i])
}

/// What output comes to: its complete lines that are not blank, the unfinished rest, and whether
/// a line is longer than a message may be.
pub struct Cut {
    pub lines: Seq<Seq<u8>>,
    pub rest: Seq<u8>,
    pub oversized: bool,
}

pub open spec fn cut(bytes: Seq<u8>) -> Cut
    decreases bytes.len(),
{
    let end = line_end(bytes);
    if end >= bytes.len() || end < 0 {
        Cut { lines: Seq::empty(), rest: bytes, oversized: bytes.len() > MAX_MESSAGE_SIZE }
    } else if end + 1 > MAX_MESSAGE_SIZE {
        Cut { lines: Seq::empty(), rest: bytes, oversized: true }
    } else {
        let line = bytes.take(end + 1);
        let after = cut(bytes.skip(end + 1));
        Cut {
            lines: if all_blank(line) {
                after.lines
            } else {
                seq![line] + after.lines
            },
            ..after
        }
    }
}

/// Takes output apart into lines as it comes.
pub struct LineReader {
    pub buffer: Vec<u8>,
}

/// The bytes of each line.
pub open spec fn byte_lines(lines: Seq<Vec<u8>>) -> Seq<Seq<u8>> {
    lines.map_values(|line: Vec<u8>| line@)
}

proof fn lemma_line_end(bytes: Seq<u8>, n: int)
    requires
        0 <= n <= bytes.len(),
        forall|i: int| 0 <= i < n ==> bytes[i] != 10,
    ensures
        line_end(bytes) == n + line_end(bytes.skip(n)),
    decreases n,
{
    if n == 0 {
        assert(bytes.skip(0) =~= bytes);
    } else {
        let tail = bytes.skip(1);
        assert forall|i: int| 0 <= i < n - 1 implies tail[i] != 10 by {
            assert(tail[i] == bytes[i + 1]);
        }
        lemma_line_end(tail, n - 1);
        assert(tail.skip(n - 1) =~= bytes.skip(n));
    }
}

fn find_line_end(bytes: &Vec<u8>, from: usize) -> (r: usize)
    requires
        from <= bytes.len(),
    ensures
        from <= r <= bytes.len(),
        line_end(bytes@.skip(from as int)) == r - from,
        r < bytes.len() ==> bytes@[r as int] == 10,
{
    let ghost tail = bytes@.skip(from as int);
    let mut i: usize = from;
    while i < bytes.len() && bytes[i] != 10
        invariant
            from <= i <= bytes.len(),
            tail == bytes@.skip(from as int),
            forall|k: int| 0 <= k < i - from ==> tail[k] != 10,
        decreases bytes.len() - i,
    {
        i += 1;
    }
    proof {
        lemma_line_end(tail, i - from);
        assert(tail.skip(i - from) =~= bytes@.skip(i as int));
        if i < bytes.len() {
            assert(bytes@.skip(i as int)[0] == 10);
        }
    }
    i
}

fn part(bytes: &Vec<u8>, from: usize, to: usize) -> (r: Vec<u8>)
    requires
        from <= to <= bytes.len(),
    ensures
        r@ == bytes@.subrange(from as int, to as int),
{
    let mut out: Vec<u8> = Vec::new();
    let mut i: usize = from;
    while i < to
        invariant
            from <= i <= to <= bytes.len(),
            out@ == bytes@.subrange(from as int, i as int),
        decreases to - i,
    {
        out.push(bytes[i]);
        i += 1;
    }
    out
}

fn only_blank(bytes: &Vec<u8>) -> (r: bool)
    ensures
        r == all_blank(bytes@),
{
    let mut i: usize = 0;
    while i < bytes.len()
        invariant
            i <= bytes.len(),
            forall|k: int| 0 <= k < i ==> is_blank(#[trigger] bytes@[k]),
        decreases bytes.len() - i,
    {
        let byte: u8 = bytes[i];
        if !(byte == 32 || byte == 9 || byte == 10 || byte == 12 || byte == 13) {
            assert(!is_blank(bytes@[i as int]));
            return false;
        }
        i += 1;
    }
    true
}

impl LineReader {
    /// A reader that has seen nothing.
    pub fn new() -> (r: LineReader)
        ensures
            r.buffer@ == Seq::<u8>::empty(),
    {
        LineReader { buffer: Vec::new() }
    }

    /// Takes in more output: the lines that are complete by now and not blank, and whether the
    /// output has to be given up because of a line longer than a message may be.
    pub fn feed(&mut self, chunk: &Vec<u8>) -> (r: (Vec<Vec<u8>>, bool))
        requires
            old(self).buffer.len() + chunk.len() <= usize::MAX,
        ensures
            byte_lines(r.0@) == cut(old(self).buffer@ + chunk@).lines,
            r.1 == cut(old(self).buffer@ + chunk@).oversized,
            final(self).buffer@ == cut(old(self).buffer@ + chunk@).rest,
    {
        let ghost start = self.buffer@;
        let mut i: usize = 0;
        while i < chunk.len()
            invariant
                i <= chunk.len(),
                self.buffer@ == start + chunk@.take(i as int),
            decreases chunk.len() - i,
        {
            self.buffer.push(chunk[i]);
            i += 1;
            proof {
                assert(self.buffer@ =~= start + chunk@.take(i as int));
            }
        }
        let ghost all = start + chunk@;
        proof {
            assert(chunk@.take(i as int) =~= chunk@);
            assert(all.skip(0) =~= all);
        }
        let mut lines: Vec<Vec<u8>> = Vec::new();
        let mut from: usize = 0;
        proof {
            assert(byte_lines(lines@) + cut(all).lines =~= cut(all).lines);
        }
        loop
            invariant
                from <= self.buffer.len(),
                self.buffer@ == all,
                all == old(self).buffer@ + chunk@,
                cut(all).lines == byte_lines(lines@) + cut(all.skip(from as int)).lines,
                cut(all).rest == cut(all.skip(from as int)).rest,
                cut(all).oversized == cut(all.skip(from as int)).oversized,
            decreases self.buffer.len() - from,
        {
            let end: usize = find_line_end(&self.buffer, from);
            let ghost tail = all.skip(from as int);
            if end == self.buffer.len() || end - from >= MAX_MESSAGE_SIZE {
                let oversized = end < self.buffer.len() || end - from > MAX_MESSAGE_SIZE;
                let rest = part(&self.buffer, from, self.buffer.len());
                proof {
                    assert(rest@ =~= tail);
                    assert(cut(tail).lines =~= Seq::<Seq<u8>>::empty());
                    assert(byte_lines(lines@) + Seq::<Seq<u8>>::empty() =~= byte_lines(lines@));
                }
                self.buffer = rest;
                return (lines, oversized);
            }
            let line = part(&self.buffer, from, end + 1);
            proof {
                assert(line@ =~= tail.take(end - from + 1));
                assert(tail.skip(end - from + 1) =~= all.skip(end + 1));
            }
            if !only_blank(&line) {
                let ghost before = lines@;
                lines.push(line);
                proof {
                    assert(byte_lines(lines@) =~= byte_lines(before).push(line@));
                    assert(byte_lines(lines@) + cut(all.skip(end + 1)).lines =~= byte_lines(before)
                        + (seq![line@] + cut(all.skip(end + 1)).lines));
                }
            }
            from = end + 1;
        }
    }
}

/// A message as a line of input, without its end. Reading it gives a plain message back, with the
/// end of the line or without.
pub fn write_line(message: &Json) -> (r: String)
    ensures
        r@ == crate::json::json_text(message@),
        one_line(r@),
        plain(message@, 127) ==> reads_as(encode_utf8(r@), message@) && reads_as(
            encode_utf8(r@).push(10),
            message@,
        ),
{
    render(message)
}

/// A line of output as a message, or the complaint about it.
pub fn read_line(line: &Vec<u8>) -> (r: Result<Json, String>)
    ensures
        match r {
            Ok(message) => crate::json::json_parsed(line@) == Ok::<JsonView, Seq<char>>(message@),
            Err(complaint) => crate::json::json_parsed(line@) == Err::<JsonView, Seq<char>>(
                complaint@,
            ),
        },
{
    parse(line.as_slice())
}

proof fn lemma_line_end_bound(bytes: Seq<u8>)
    ensures
        0 <= line_end(bytes) <= bytes.len(),
        forall|i: int| 0 <= i < line_end(bytes) ==> bytes[i] != 10,
        line_end(bytes) < bytes.len() ==> bytes[line_end(bytes)] == 10,
    decreases bytes.len(),
{
    if bytes.len() > 0 && bytes[0] != 10 {
        let tail = bytes.skip(1);
        lemma_line_end_bound(tail);
        assert forall|i: int| 0 <= i < line_end(bytes) implies bytes[i] != 10 by {
            if i > 0 {
                assert(tail[i - 1] == bytes[i]);
            }
        }
        if line_end(bytes) < bytes.len() {
            assert(tail[line_end(tail)] == bytes[line_end(bytes)]);
        }
    }
}

proof fn lemma_encoded_char(c: char)
    ensures
        encode_scalar(c as u32).len() > 0,
        c != '\n' ==> !encode_scalar(c as u32).contains(10),
        c > ' ' ==> encode_scalar(c as u32)[0] > 32,
{
    let v = c as u32;
    char_is_scalar(c);
    assert(v <= 0x7f ==> (v & 0x7f) as u8 as u32 == v) by (bit_vector);
    assert(0xc0u8 | ((v >> 6) & 0x1f) as u8 >= 0x80) by (bit_vector);
    assert(0xe0u8 | ((v >> 12) & 0x0f) as u8 >= 0x80) by (bit_vector);
    assert(0xf0u8 | ((v >> 18) & 0x7) as u8 >= 0x80) by (bit_vector);
    assert(0x80u8 | (v & 0x3f) as u8 >= 0x80) by (bit_vector);
    assert(0x80u8 | ((v >> 6) & 0x3f) as u8 >= 0x80) by (bit_vector);
    assert(0x80u8 | ((v >> 12) & 0x3f) as u8 >= 0x80) by (bit_vector);
}

proof fn lemma_encoded_line(text: Seq<char>)
    requires
        forall|i: int| 0 <= i < text.len() ==> #[trigger] text[i] != '\n',
    ensures
        !encode_utf8(text).contains(10),
    decreases text.len(),
{
    if text.len() > 0 {
        let rest = text.drop_first();
        assert forall|i: int| 0 <= i < rest.len() implies #[trigger] rest[i] != '\n' by {
            assert(rest[i] == text[i + 1]);
        }
        lemma_encoded_line(rest);
        lemma_encoded_char(text[0]);
        let head = encode_scalar(text[0] as u32);
        let bytes = encode_utf8(text);
        assert(bytes == head + encode_utf8(rest));
        if bytes.contains(10) {
            let i = bytes.index_of(10);
            if i < head.len() {
                assert(head[i] == 10);
            } else {
                assert(encode_utf8(rest)[i - head.len()] == 10);
            }
        }
    }
}

/// A message that is sent on a line of its own arrives as that line, if it is not longer than a
/// message may be: nothing is left over and nothing is lost.
pub proof fn law_a_line_arrives_whole(text: Seq<char>)
    requires
        one_line(text),
        encode_utf8(text).len() < MAX_MESSAGE_SIZE,
    ensures
        cut(encode_utf8(text).push(10)) == (Cut {
            lines: seq![encode_utf8(text).push(10)],
            rest: Seq::empty(),
            oversized: false,
        }),
{
    let bytes = encode_utf8(text);
    let line = bytes.push(10);
    lemma_encoded_line(text);
    lemma_encoded_char(text[0]);
    assert forall|i: int| 0 <= i < bytes.len() implies line[i] != 10 by {
        assert(bytes.contains(bytes[i]));
    }
    lemma_line_end(line, bytes.len() as int);
    assert(line.skip(bytes.len() as int) =~= seq![10u8]);
    assert(line_end(line) == bytes.len());
    assert(line.take(bytes.len() as int + 1) =~= line);
    assert(line.skip(bytes.len() as int + 1) =~= Seq::empty());
    assert(!is_blank(line[0]));
    assert(cut(Seq::<u8>::empty()).lines =~= Seq::<Seq<u8>>::empty());
    assert(seq![line] + Seq::<Seq<u8>>::empty() =~= seq![line]);
}

/// How output is cut into lines does not depend on how it comes in pieces: what the first piece
/// leaves over, together with the second, comes to the rest of what both come to at once.
pub proof fn law_lines_come_in_any_pieces(a: Seq<u8>, b: Seq<u8>)
    requires
        !cut(a).oversized,
    ensures
        cut(a + b).lines == cut(a).lines + cut(cut(a).rest + b).lines,
        cut(a + b).rest == cut(cut(a).rest + b).rest,
        cut(a + b).oversized == cut(cut(a).rest + b).oversized,
    decreases a.len(),
{
    lemma_line_end_bound(a);
    let end = line_end(a);
    if end >= a.len() {
        assert(cut(a).rest == a);
        assert(cut(a).lines + cut(a + b).lines =~= cut(a + b).lines);
    } else {
        let whole = a + b;
        assert forall|i: int| 0 <= i < end implies whole[i] != 10 by {
            assert(whole[i] == a[i]);
        }
        lemma_line_end(whole, end);
        assert(whole.skip(end)[0] == a[end]);
        assert(line_end(whole) == end);
        let line = a.take(end + 1);
        assert(whole.take(end + 1) =~= line);
        assert(whole.skip(end + 1) =~= a.skip(end + 1) + b);
        law_lines_come_in_any_pieces(a.skip(end + 1), b);
        let next = cut(a.skip(end + 1));
        assert((seq![line] + next.lines) + cut(next.rest + b).lines =~= seq![line] + (next.lines
            + cut(next.rest + b).lines));
    }
}

}
