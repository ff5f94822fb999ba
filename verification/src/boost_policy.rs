//! When a boost may run, and when it has to end.
use crate::auth::{parse_rfc3339, rfc3339};
use crate::error::{Error, ErrorView};
use crate::percent::Percent;
use crate::text::{ascii_lower, contains, has_part, lowered, opt_text, same, starts_with};
use crate::usage::{window_views, UsageBucket, UsageRecord, UsageWindow};
use vstd::prelude::*;

verus! {

/// Model used during both the temporary boost and the post-boost baseline.
pub const BOOST_MODEL: &'static str = "gpt-6-astra";

/// Reasoning effort used while the temporary boost is active.
pub const BOOST_EFFORT: &'static str = "ultra";

/// Reasoning effort restored after the temporary boost ends.
pub const BASELINE_EFFORT: &'static str = "medium";

/// Codex service tier used to enable fast mode during the temporary boost.
pub const FAST_TIER: &'static str = "fast";

/// Explicitly opts out of a model catalog's default Fast tier, like `/fast off`.
pub const BASELINE_TIER: &'static str = "default";

/// The length of a weekly window.
pub const WEEKLY_WINDOW_MINUTES: i64 = 10_080;

/// Whether a bucket is an ordinary Codex one: not Spark, and of Codex.
pub open spec fn regular(bucket: UsageBucket) -> bool {
    let id = lowered(bucket.limit_id@);
    let name = lowered(
        match opt_text(bucket.limit_name) {
            Some(name) => name,
            None => ""@,
        },
    );
    (id == "codex"@ || "codex_"@.is_prefix_of(id)) && id != "codex_bengalfox"@ && !has_part(
        name,
        "spark"@,
    )
}

/// The percentage of a window, where it is one.
pub open spec fn sound_percent(percent: Option<Percent>) -> Option<Percent> {
    match percent {
        Some(value) if value.valid() => Some(value),
        _ => None,
    }
}

/// Whether a window is a weekly one with a sound percentage.
pub open spec fn weekly(window: UsageWindow) -> bool {
    window.window_minutes == Some(WEEKLY_WINDOW_MINUTES) && sound_percent(
        window.used_percent,
    ) is Some
}

/// Whether one of a bucket's windows is weekly.
pub open spec fn has_weekly(bucket: UsageBucket) -> bool {
    exists|j: int|
        0 <= j < bucket.named_windows().len() && weekly((#[trigger] bucket.named_windows()[j]).1)
}

/// Whether an observation holds a usable regular Codex weekly window.
pub open spec fn weekly_quota(usage: UsageRecord) -> bool {
    usage.error is None && exists|i: int|
        0 <= i < usage.buckets@.len() && regular(#[trigger] usage.buckets@[i]) && has_weekly(
            usage.buckets@[i],
        )
}

fn is_regular_codex_bucket(bucket: &UsageBucket) -> (r: bool)
    ensures
        r == regular(*bucket),
{
    let id = ascii_lower(&bucket.limit_id);
    let name = match &bucket.limit_name {
        Some(name) => ascii_lower(name),
        None => ascii_lower(""),
    };
    (same(&id, "codex") || starts_with(&id, "codex_")) && !same(&id, "codex_bengalfox")
        && !contains(&name, "spark")
}

fn valid_percent(percent: Option<Percent>) -> (r: Option<Percent>)
    ensures
        r == sound_percent(percent),
{
    match percent {
        Some(value) => if value.is_valid() {
            Some(value)
        } else {
            None
        },
        None => None,
    }
}

fn bucket_has_weekly(bucket: &UsageBucket) -> (r: bool)
    ensures
        r == has_weekly(*bucket),
{
    let windows = bucket.windows();
    let ghost views = window_views(windows@);
    let mut j: usize = 0;
    while j < windows.len()
        invariant
            j <= windows.len(),
            views == window_views(windows@),
            views == bucket.named_windows(),
            forall|k: int| 0 <= k < j ==> !weekly((#[trigger] views[k]).1),
        decreases windows.len() - j,
    {
        let window = windows[j].1;
        assert(views[j as int].1 == window);
        if window.window_minutes == Some(WEEKLY_WINDOW_MINUTES) && valid_percent(
            window.used_percent,
        ).is_some() {
            assert(weekly(views[j as int].1));
            return true;
        }
        j += 1;
    }
    assert(views.len() == windows.len());
    false
}

/// Whether a fresh snapshot includes a usable regular Codex weekly window.
pub fn has_weekly_quota(usage: &UsageRecord) -> (r: bool)
    ensures
        r == weekly_quota(*usage),
{
    if !usage.succeeded() {
        return false;
    }
    let mut i: usize = 0;
    while i < usage.buckets.len()
        invariant
            i <= usage.buckets.len(),
            usage.error is None,
            forall|k: int|
                0 <= k < i ==> !(regular(#[trigger] usage.buckets@[k]) && has_weekly(
                    usage.buckets@[k],
                )),
        decreases usage.buckets.len() - i,
    {
        if is_regular_codex_bucket(&usage.buckets[i]) && bucket_has_weekly(&usage.buckets[i]) {
            return true;
        }
        i += 1;
    }
    false
}

/// The deadline that a text names, where it lies after `now`.
pub open spec fn deadline_of(value: Seq<char>, now: i64) -> Result<int, ErrorView> {
    match rfc3339(value) {
        Some((seconds, _)) => if seconds <= now {
            Err(ErrorView::Message("Boost deadline must be in the future."@))
        } else {
            Ok(seconds)
        },
        None => Err(
            ErrorView::Message(
                "Boost deadline must be RFC 3339 with a timezone, for example 2026-09-13T09:00:00+10:00."@,
            ),
        ),
    }
}

/// Parses an explicit RFC 3339 deadline and requires it to be later than `now`.
///
/// RFC 3339 requires a numeric UTC offset or `Z`, so a local time without a
/// timezone is rejected rather than interpreted using the machine timezone.
pub fn parse_deadline(value: &str, now: i64) -> (r: Result<i64, Error>)
    ensures
        match r {
            Ok(deadline) => deadline_of(value@, now) == Ok::<int, ErrorView>(deadline as int),
            Err(error) => deadline_of(value@, now) == Err::<int, ErrorView>(error@),
        },
{
    match parse_rfc3339(value) {
        Some((seconds, _)) => check_deadline(seconds, now),
        None => Err(
            Error::message(
                "Boost deadline must be RFC 3339 with a timezone, for example 2026-09-13T09:00:00+10:00.",
            ),
        ),
    }
}

/// Requires a deadline to be later than `now`.
pub fn check_deadline(deadline: i64, now: i64) -> (r: Result<i64, Error>)
    ensures
        match r {
            Ok(value) => value == deadline && deadline > now,
            Err(error) => deadline <= now && error@ == ErrorView::Message(
                "Boost deadline must be in the future."@,
            ),
        },
{
    if deadline <= now {
        Err(Error::message("Boost deadline must be in the future."))
    } else {
        Ok(deadline)
    }
}

/// Whether two observations of one weekly window show that it started anew: its use dropped, or
/// an announced boundary lies between the observations and a later one is announced now.
pub open spec fn window_reset(
    previous: UsageWindow,
    current: UsageWindow,
    previous_at: i64,
    current_at: i64,
) -> bool {
    &&& weekly(previous)
    &&& weekly(current)
    &&& {
        ||| current.used_percent->0.scaled() < previous.used_percent->0.scaled()
        ||| previous.resets_at is Some && current.resets_at is Some && previous_at
            <= previous.resets_at->0 <= current_at && previous.resets_at->0 < current.resets_at->0
    }
}

/// The window under a name.
pub open spec fn window_named(windows: Seq<(Seq<char>, UsageWindow)>, name: Seq<char>) -> Option<
    UsageWindow,
>
    decreases windows.len(),
{
    if windows.len() == 0 {
        None
    } else if windows[0].0 == name {
        Some(windows[0].1)
    } else {
        window_named(windows.skip(1), name)
    }
}

/// Whether two observations of one bucket show that a weekly window started anew.
pub open spec fn bucket_reset(
    previous: UsageBucket,
    current: UsageBucket,
    previous_at: i64,
    current_at: i64,
) -> bool {
    exists|j: int|
        0 <= j < previous.named_windows().len() && pair_reset(
            #[trigger] previous.named_windows()[j],
            current.named_windows(),
            previous_at,
            current_at,
        )
}

pub open spec fn pair_reset(
    previous: (Seq<char>, UsageWindow),
    current: Seq<(Seq<char>, UsageWindow)>,
    previous_at: i64,
    current_at: i64,
) -> bool {
    match window_named(current, previous.0) {
        Some(window) => window_reset(previous.1, window, previous_at, current_at),
        None => false,
    }
}

/// The first regular bucket with an identifier.
pub open spec fn regular_bucket(buckets: Seq<UsageBucket>, id: Seq<char>) -> Option<int>
    decreases buckets.len(),
{
    if buckets.len() == 0 {
        None
    } else {
        match regular_bucket(buckets.drop_last(), id) {
            Some(i) => Some(i),
            None => if buckets.last().limit_id@ == id && regular(buckets.last()) {
                Some(buckets.len() - 1)
            } else {
                None
            },
        }
    }
}

/// Whether a bucket's later observation shows that a weekly window of it started anew.
pub open spec fn reset_since(
    bucket: UsageBucket,
    current: Seq<UsageBucket>,
    previous_at: i64,
    current_at: i64,
) -> bool {
    regular(bucket) && match regular_bucket(current, bucket.limit_id@) {
        Some(i) => bucket_reset(bucket, current[i], previous_at, current_at),
        None => false,
    }
}

/// Whether two observations show that a regular Codex weekly quota started anew.
pub open spec fn reset_detected(previous: UsageRecord, current: UsageRecord) -> bool {
    &&& previous.error is None
    &&& current.error is None
    &&& previous.observed_at < current.observed_at
    &&& exists|i: int|
        0 <= i < previous.buckets@.len() && reset_since(
            #[trigger] previous.buckets@[i],
            current.buckets@,
            previous.observed_at,
            current.observed_at,
        )
}

fn weekly_window_reset(
    previous: &UsageWindow,
    current: &UsageWindow,
    previous_observed_at: i64,
    current_observed_at: i64,
) -> (r: bool)
    ensures
        r == window_reset(*previous, *current, previous_observed_at, current_observed_at),
{
    if previous.window_minutes != Some(WEEKLY_WINDOW_MINUTES) || current.window_minutes != Some(
        WEEKLY_WINDOW_MINUTES,
    ) {
        return false;
    }
    let (before, after) = match (
        valid_percent(previous.used_percent),
        valid_percent(current.used_percent),
    ) {
        (Some(before), Some(after)) => (before, after),
        _ => {
            return false;
        },
    };
    if after.below(before) {
        return true;
    }
    match (previous.resets_at, current.resets_at) {
        (Some(announced), Some(next)) => previous_observed_at <= announced && announced
            <= current_observed_at && next > announced,
        _ => false,
    }
}

fn find_window(windows: &Vec<(&'static str, UsageWindow)>, name: &str) -> (r: Option<UsageWindow>)
    ensures
        r == window_named(window_views(windows@), name@),
{
    let ghost views = window_views(windows@);
    let mut i: usize = 0;
    proof {
        assert(views.skip(0) =~= views);
    }
    while i < windows.len()
        invariant
            i <= windows.len(),
            views == window_views(windows@),
            window_named(views, name@) == window_named(views.skip(i as int), name@),
        decreases windows.len() - i,
    {
        proof {
            assert(views.skip(i as int)[0] == (windows@[i as int].0@, windows@[i as int].1));
            assert(views.skip(i as int).skip(1) =~= views.skip(i + 1));
        }
        if same(windows[i].0, name) {
            return Some(windows[i].1);
        }
        i += 1;
    }
    None
}

fn find_bucket(buckets: &Vec<UsageBucket>, id: &str) -> (r: Option<usize>)
    ensures
        match r {
            Some(i) => regular_bucket(buckets@, id@) == Some(i as int) && i < buckets.len(),
            None => regular_bucket(buckets@, id@) is None,
        },
{
    let mut i: usize = 0;
    proof {
        assert(buckets@.take(0) =~= Seq::<UsageBucket>::empty());
    }
    while i < buckets.len()
        invariant
            i <= buckets.len(),
            regular_bucket(buckets@.take(i as int), id@) is None,
        decreases buckets.len() - i,
    {
        proof {
            assert(buckets@.take(i + 1).drop_last() =~= buckets@.take(i as int));
            assert(buckets@.take(i + 1).last() == buckets@[i as int]);
        }
        if same(&buckets[i].limit_id, id) && is_regular_codex_bucket(&buckets[i]) {
            proof {
                lemma_bucket_prefix(buckets@, i + 1, id@);
            }
            return Some(i);
        }
        i += 1;
    }
    proof {
        assert(buckets@.take(i as int) =~= buckets@);
    }
    None
}

proof fn lemma_bucket_prefix(buckets: Seq<UsageBucket>, i: int, id: Seq<char>)
    requires
        0 <= i <= buckets.len(),
        regular_bucket(buckets.take(i), id) is Some,
    ensures
        regular_bucket(buckets, id) == regular_bucket(buckets.take(i), id),
    decreases buckets.len() - i,
{
    if i == buckets.len() {
        assert(buckets.take(i) =~= buckets);
    } else {
        assert(buckets.take(i + 1).drop_last() =~= buckets.take(i));
        lemma_bucket_prefix(buckets, i + 1, id);
    }
}

fn bucket_was_reset(
    previous: &UsageBucket,
    current: &UsageBucket,
    previous_at: i64,
    current_at: i64,
) -> (r: bool)
    ensures
        r == bucket_reset(*previous, *current, previous_at, current_at),
{
    let before = previous.windows();
    let after = current.windows();
    let ghost views = window_views(before@);
    let mut j: usize = 0;
    while j < before.len()
        invariant
            j <= before.len(),
            views == window_views(before@),
            views == previous.named_windows(),
            window_views(after@) == current.named_windows(),
            forall|k: int|
                0 <= k < j ==> !pair_reset(
                    #[trigger] views[k],
                    current.named_windows(),
                    previous_at,
                    current_at,
                ),
        decreases before.len() - j,
    {
        assert(views[j as int] == (before@[j as int].0@, before@[j as int].1));
        if let Some(window) = find_window(&after, before[j].0) {
            if weekly_window_reset(&before[j].1, &window, previous_at, current_at) {
                assert(pair_reset(
                    views[j as int],
                    current.named_windows(),
                    previous_at,
                    current_at,
                ));
                return true;
            }
        }
        j += 1;
    }
    assert(views.len() == before.len());
    false
}

/// Returns whether two observations provide a conservative signal that a regular
/// Codex weekly quota reset.
///
/// Records with errors, stale or repeated observation times, Spark buckets,
/// non-Codex buckets, non-weekly windows, and invalid percentages provide no
/// reset evidence. Matching windows signal a reset when usage drops, or when a
/// previously announced reset boundary falls between the observations and the
/// new observation announces a later boundary. A backend correction can also
/// lower usage; treating that as a reset deliberately ends the boost early. The
/// boundary rule covers a `0%` to `0%` rollover, which percentage comparison
/// cannot detect. `codex_bengalfox` is excluded because existing usage responses
/// identify it as the Codex Spark bucket even when its display name is absent.
pub fn weekly_reset_detected(previous: &UsageRecord, current: &UsageRecord) -> (r: bool)
    ensures
        r == reset_detected(*previous, *current),
{
    if !previous.succeeded() || !current.succeeded() || current.observed_at
        <= previous.observed_at {
        return false;
    }
    let mut i: usize = 0;
    while i < previous.buckets.len()
        invariant
            i <= previous.buckets.len(),
            previous.error is None,
            current.error is None,
            previous.observed_at < current.observed_at,
            forall|k: int|
                0 <= k < i ==> !reset_since(
                    #[trigger] previous.buckets@[k],
                    current.buckets@,
                    previous.observed_at,
                    current.observed_at,
                ),
        decreases previous.buckets.len() - i,
    {
        let bucket = &previous.buckets[i];
        if is_regular_codex_bucket(bucket) {
            if let Some(found) = find_bucket(&current.buckets, &bucket.limit_id) {
                if bucket_was_reset(
                    bucket,
                    &current.buckets[found],
                    previous.observed_at,
                    current.observed_at,
                ) {
                    return true;
                }
            }
        }
        i += 1;
    }
    false
}

// ---------------------------------------------------------------- laws

/// A repeated or stale observation, or one that failed, is no evidence of a reset.
pub proof fn law_no_reset_without_fresh_success(previous: UsageRecord, current: UsageRecord)
    requires
        previous.error is Some || current.error is Some || current.observed_at
            <= previous.observed_at,
    ensures
        !reset_detected(previous, current),
{
}

/// Records without a usable regular Codex weekly window are no evidence of a reset.
pub proof fn law_no_reset_without_weekly_window(previous: UsageRecord, current: UsageRecord)
    requires
        forall|i: int|
            0 <= i < previous.buckets@.len() ==> !(regular(#[trigger] previous.buckets@[i])
                && has_weekly(previous.buckets@[i])),
    ensures
        !reset_detected(previous, current),
{
    if reset_detected(previous, current) {
        let i = choose|i: int|
            0 <= i < previous.buckets@.len() && reset_since(
                #[trigger] previous.buckets@[i],
                current.buckets@,
                previous.observed_at,
                current.observed_at,
            );
        let bucket = previous.buckets@[i];
        let k = regular_bucket(current.buckets@, bucket.limit_id@)->0;
        let later = current.buckets@[k];
        let j = choose|j: int|
            0 <= j < bucket.named_windows().len() && pair_reset(
                #[trigger] bucket.named_windows()[j],
                later.named_windows(),
                previous.observed_at,
                current.observed_at,
            );
        assert(weekly(bucket.named_windows()[j].1));
    }
}

}
