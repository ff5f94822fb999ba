//! What shows that a weekly quota started anew, and on which account.
use crate::boost::{account_reset, first_reset, quotas_run, reading_of, RoundView};
use crate::boost_policy::{
    bucket_reset, deadline_of, has_weekly, pair_reset, regular, regular_bucket, reset_detected,
    reset_since, weekly, weekly_quota, window_named,
};
use crate::boost_state::Observation;
use crate::effects::{Reply, Run};
use crate::text::{decimal_text, has_part, lemma_has_part, lowered, stands_in};
use crate::usage::{UsageBucket, UsageRecord, UsageWindow};
use vstd::prelude::*;

verus! {

// ---------------------------------------------------------------- buckets

/// A text in lower case differs from the text in its capital letters only.
pub proof fn law_lowering_changes_capital_letters_only(s: Seq<char>, i: int)
    requires
        0 <= i < s.len(),
    ensures
        lowered(s).len() == s.len(),
        'A' <= s[i] <= 'Z' ==> lowered(s)[i] as u32 == s[i] as u32 + 32,
        !('A' <= s[i] <= 'Z') ==> lowered(s)[i] == s[i],
{
}

/// The buckets of Codex are those named `codex` or with `codex_` at the beginning, whatever the case
/// of the letters; Spark is none of them, whether its identifier tells or its display name has the
/// word in it somewhere.
pub proof fn law_spark_is_no_regular_bucket(bucket: UsageBucket)
    ensures
        ({
            let id = lowered(bucket.limit_id@);
            &&& id == "codex_bengalfox"@ ==> !regular(bucket)
            &&& id != "codex"@ && !(exists|rest: Seq<char>| id == #[trigger] ("codex_"@ + rest))
                ==> !regular(bucket)
            &&& (bucket.limit_name matches Some(name) && stands_in("spark"@, lowered(name@)))
                ==> !regular(bucket)
            &&& (id == "codex"@ || exists|rest: Seq<char>|
                id == #[trigger] ("codex_"@ + rest) && rest != "bengalfox"@) && (
            bucket.limit_name matches Some(name) ==> !stands_in("spark"@, lowered(name@)))
                ==> regular(bucket)
        }),
{
    let id = lowered(bucket.limit_id@);
    reveal_strlit("codex");
    reveal_strlit("codex_");
    reveal_strlit("codex_bengalfox");
    reveal_strlit("bengalfox");
    reveal_strlit("spark");
    reveal_strlit("");
    let head = "codex_"@;
    if head.is_prefix_of(id) {
        assert(id =~= head + id.skip(head.len() as int));
    }
    assert forall|rest: Seq<char>| id == #[trigger] (head + rest) implies head.is_prefix_of(id) by {
        assert(id.subrange(0, head.len() as int) =~= head);
    }
    assert(head + "bengalfox"@ =~= "codex_bengalfox"@);
    assert forall|rest: Seq<char>| id == #[trigger] (head + rest) && rest != "bengalfox"@ implies id
        != "codex_bengalfox"@ by {
        assert(id.skip(head.len() as int) =~= rest);
        assert("codex_bengalfox"@.skip(head.len() as int) =~= "bengalfox"@);
    }
    if let Some(name) = bucket.limit_name {
        lemma_has_part(lowered(name@), "spark"@);
    } else {
        assert(lowered(""@).len() == 0);
        assert(!has_part(lowered(""@), "spark"@));
    }
}

// ---------------------------------------------------------------- windows

/// The windows of a bucket: the first, the second and that of the spending limit.
pub open spec fn window_of(bucket: UsageBucket, which: int) -> Option<UsageWindow> {
    if which == 0 {
        bucket.primary_window
    } else if which == 1 {
        bucket.secondary_window
    } else if which == 2 {
        bucket.individual_window
    } else {
        None
    }
}

/// Whether a window lasts a week, and says how much of it is used.
pub open spec fn a_week(window: UsageWindow) -> bool {
    window.window_minutes == Some(10_080i64) && window.used_percent is Some
        && window.used_percent->0.valid()
}

/// Whether two observations of a weekly window show that it started anew.
pub open spec fn started_anew(
    old: UsageWindow,
    new: UsageWindow,
    old_time: i64,
    new_time: i64,
) -> bool {
    &&& a_week(old)
    &&& a_week(new)
    &&& {
        ||| new.used_percent->0.scaled() < old.used_percent->0.scaled()
        ||| old.resets_at matches Some(boundary) && new.resets_at matches Some(next) && old_time
            <= boundary && boundary <= new_time && boundary < next
    }
}

proof fn lemma_names()
    ensures
        "primary"@ != "secondary"@,
        "primary"@ != "individual"@,
        "secondary"@ != "individual"@,
{
    reveal_strlit("primary");
    reveal_strlit("secondary");
    reveal_strlit("individual");
    assert("primary"@.len() == 7);
    assert("secondary"@.len() == 9);
    assert("individual"@.len() == 10);
}

spec fn name_of(which: int) -> Seq<char> {
    if which == 0 {
        "primary"@
    } else if which == 1 {
        "secondary"@
    } else {
        "individual"@
    }
}

proof fn lemma_window_named(bucket: UsageBucket, which: int)
    requires
        0 <= which < 3,
    ensures
        window_named(bucket.named_windows(), name_of(which)) == window_of(bucket, which),
{
    lemma_names();
    reveal_with_fuel(window_named, 5);
    let all = bucket.named_windows();
    assert(all.len() > 0 ==> all.skip(1).len() == all.len() - 1);
    assert(all.len() > 1 ==> all.skip(1)[0] == all[1]);
    assert(all.len() > 2 ==> all.skip(1).skip(1)[0] == all[2]);
}

proof fn lemma_window_places(bucket: UsageBucket, j: int)
    requires
        0 <= j < bucket.named_windows().len(),
    ensures
        exists|which: int|
            0 <= which < 3 && bucket.named_windows()[j].0 == name_of(which)
                && #[trigger] window_of(bucket, which) == Some(bucket.named_windows()[j].1),
{
    let w = bucket.named_windows()[j];
    if w == (name_of(0), bucket.primary_window->0) && bucket.primary_window is Some {
        assert(window_of(bucket, 0) == Some(w.1));
    } else if w == (name_of(1), bucket.secondary_window->0) && bucket.secondary_window is Some {
        assert(window_of(bucket, 1) == Some(w.1));
    } else {
        assert(window_of(bucket, 2) == Some(w.1));
    }
}

proof fn lemma_window_there(bucket: UsageBucket, which: int)
    requires
        0 <= which < 3,
        window_of(bucket, which) is Some,
    ensures
        exists|j: int|
            0 <= j < bucket.named_windows().len() && #[trigger] bucket.named_windows()[j] == (
                name_of(which),
                window_of(bucket, which)->0,
            ),
{
    let all = bucket.named_windows();
    let w = (name_of(which), window_of(bucket, which)->0);
    let p: int = if bucket.primary_window is Some {
        1
    } else {
        0
    };
    let s: int = if bucket.secondary_window is Some {
        1
    } else {
        0
    };
    if which == 0 {
        assert(all[0] == w);
    } else if which == 1 {
        assert(all[p] == w);
    } else {
        assert(all[p + s] == w);
    }
}

// ---------------------------------------------------------------- records

/// A record has a usable weekly quota exactly where it is a success and one of its regular buckets
/// has a weekly window that says how much is used, whichever bucket and window that is.
pub proof fn law_any_weekly_window_will_do(usage: UsageRecord)
    ensures
        weekly_quota(usage) <==> usage.error is None && exists|i: int, which: int|
            0 <= i < usage.buckets@.len() && 0 <= which < 3 && regular(usage.buckets@[i]) && (
            #[trigger] window_of(usage.buckets@[i], which) matches Some(window) && a_week(window)),
{
    if weekly_quota(usage) {
        let i = choose|i: int|
            0 <= i < usage.buckets@.len() && regular(#[trigger] usage.buckets@[i]) && has_weekly(
                usage.buckets@[i],
            );
        let bucket = usage.buckets@[i];
        let j = choose|j: int|
            0 <= j < bucket.named_windows().len() && weekly(
                (#[trigger] bucket.named_windows()[j]).1,
            );
        lemma_window_places(bucket, j);
        let which = choose|which: int|
            0 <= which < 3 && bucket.named_windows()[j].0 == name_of(which)
                && #[trigger] window_of(bucket, which) == Some(bucket.named_windows()[j].1);
        assert(a_week(window_of(usage.buckets@[i], which)->0));
    }
    if usage.error is None && exists|i: int, which: int|
        0 <= i < usage.buckets@.len() && 0 <= which < 3 && regular(usage.buckets@[i]) && (
        #[trigger] window_of(usage.buckets@[i], which) matches Some(window) && a_week(window)) {
        let (i, which) = choose|i: int, which: int|
            0 <= i < usage.buckets@.len() && 0 <= which < 3 && regular(usage.buckets@[i]) && (
            #[trigger] window_of(usage.buckets@[i], which) matches Some(window) && a_week(window));
        let bucket = usage.buckets@[i];
        lemma_window_there(bucket, which);
        let j = choose|j: int|
            0 <= j < bucket.named_windows().len() && #[trigger] bucket.named_windows()[j] == (
                name_of(which),
                window_of(bucket, which)->0,
            );
        assert(weekly(bucket.named_windows()[j].1));
        assert(has_weekly(usage.buckets@[i]));
    }
}

proof fn lemma_regular_bucket(buckets: Seq<UsageBucket>, id: Seq<char>)
    ensures
        match regular_bucket(buckets, id) {
            Some(i) => 0 <= i < buckets.len() && buckets[i].limit_id@ == id && regular(buckets[i])
                && forall|j: int|
                0 <= j < i ==> !(buckets[j].limit_id@ == id && regular(#[trigger] buckets[j])),
            None => forall|j: int|
                0 <= j < buckets.len() ==> !(buckets[j].limit_id@ == id && regular(
                    #[trigger] buckets[j],
                )),
        },
    decreases buckets.len(),
{
    if buckets.len() > 0 {
        lemma_regular_bucket(buckets.drop_last(), id);
        assert(forall|j: int|
            0 <= j < buckets.len() - 1 ==> buckets.drop_last()[j] == #[trigger] buckets[j]);
    }
}

/// Whether the buckets at two places of two records are one regular bucket, the first of its name in
/// the later record.
pub open spec fn one_bucket(previous: UsageRecord, current: UsageRecord, i: int, k: int) -> bool {
    &&& 0 <= i < previous.buckets@.len()
    &&& 0 <= k < current.buckets@.len()
    &&& regular(previous.buckets@[i])
    &&& regular(current.buckets@[k])
    &&& previous.buckets@[i].limit_id@ == current.buckets@[k].limit_id@
    &&& forall|l: int|
        0 <= l < k ==> !(regular(#[trigger] current.buckets@[l]) && current.buckets@[l].limit_id@
            == current.buckets@[k].limit_id@)
}

/// Whether one window of one bucket started anew between two records.
pub open spec fn window_started_anew(
    previous: UsageRecord,
    current: UsageRecord,
    i: int,
    k: int,
    which: int,
) -> bool {
    &&& 0 <= which < 3
    &&& one_bucket(previous, current, i, k)
    &&& window_of(previous.buckets@[i], which) matches Some(old)
    &&& window_of(current.buckets@[k], which) matches Some(new)
    &&& started_anew(old, new, previous.observed_at, current.observed_at)
}

/// Two records show a reset exactly where both are successes, the second was observed later, and some
/// weekly window of some regular bucket started anew between them: its use dropped, or a boundary
/// that was announced lies between the observations and a later one is announced now.
pub proof fn law_any_weekly_window_shows_a_reset(previous: UsageRecord, current: UsageRecord)
    ensures
        reset_detected(previous, current) <==> {
            &&& previous.error is None
            &&& current.error is None
            &&& previous.observed_at < current.observed_at
            &&& exists|i: int, k: int, which: int| #[trigger]
                window_started_anew(previous, current, i, k, which)
        },
{
    if reset_detected(previous, current) {
        let i = choose|i: int|
            0 <= i < previous.buckets@.len() && reset_since(
                #[trigger] previous.buckets@[i],
                current.buckets@,
                previous.observed_at,
                current.observed_at,
            );
        let bucket = previous.buckets@[i];
        lemma_regular_bucket(current.buckets@, bucket.limit_id@);
        let k = regular_bucket(current.buckets@, bucket.limit_id@)->0;
        let j = choose|j: int|
            0 <= j < bucket.named_windows().len() && pair_reset(
                #[trigger] bucket.named_windows()[j],
                current.buckets@[k].named_windows(),
                previous.observed_at,
                current.observed_at,
            );
        lemma_window_places(bucket, j);
        let which = choose|which: int|
            0 <= which < 3 && bucket.named_windows()[j].0 == name_of(which)
                && #[trigger] window_of(bucket, which) == Some(bucket.named_windows()[j].1);
        lemma_window_named(current.buckets@[k], which);
        assert(window_started_anew(previous, current, i, k, which));
    }
    if previous.error is None && current.error is None && previous.observed_at
        < current.observed_at && exists|i: int, k: int, which: int| #[trigger]
        window_started_anew(previous, current, i, k, which) {
        let (i, k, which) = choose|i: int, k: int, which: int| #[trigger]
            window_started_anew(previous, current, i, k, which);
        let bucket = previous.buckets@[i];
        lemma_regular_bucket(current.buckets@, bucket.limit_id@);
        let found = regular_bucket(current.buckets@, bucket.limit_id@)->0;
        assert(found == k);
        lemma_window_there(bucket, which);
        let j = choose|j: int|
            0 <= j < bucket.named_windows().len() && #[trigger] bucket.named_windows()[j] == (
                name_of(which),
                window_of(bucket, which)->0,
            );
        lemma_window_named(current.buckets@[k], which);
        assert(pair_reset(
            bucket.named_windows()[j],
            current.buckets@[k].named_windows(),
            previous.observed_at,
            current.observed_at,
        ));
        assert(bucket_reset(
            bucket,
            current.buckets@[k],
            previous.observed_at,
            current.observed_at,
        ));
        assert(reset_since(
            previous.buckets@[i],
            current.buckets@,
            previous.observed_at,
            current.observed_at,
        ));
    }
}

// ---------------------------------------------------------------- accounts

/// Whether no account has two readings.
pub open spec fn one_reading_each(readings: Seq<Observation>) -> bool {
    forall|i: int, j: int|
        0 <= i < j < readings.len() ==> (#[trigger] readings[i]).slot != (
        #[trigger] readings[j]).slot
}

/// Whether a reading is of an account whose quota started anew since an earlier reading of it.
pub open spec fn reset_between(
    previous: Seq<Observation>,
    current: Seq<Observation>,
    j: int,
    i: int,
) -> bool {
    &&& 0 <= i < current.len()
    &&& 0 <= j < previous.len()
    &&& current[i].slot == previous[j].slot
    &&& reset_detected(previous[j].usage, current[i].usage)
}

proof fn lemma_reading_of(readings: Seq<Observation>, slot: u32)
    ensures
        match reading_of(readings, slot) {
            Some(usage) => exists|j: int|
                0 <= j < readings.len() && (#[trigger] readings[j]).slot == slot
                    && readings[j].usage == usage && forall|l: int|
                    0 <= l < j ==> (#[trigger] readings[l]).slot != slot,
            None => forall|j: int| 0 <= j < readings.len() ==> (#[trigger] readings[j]).slot != slot,
        },
    decreases readings.len(),
{
    if readings.len() > 0 {
        if readings[0].slot != slot {
            let rest = readings.skip(1);
            lemma_reading_of(rest, slot);
            assert(forall|j: int| 0 <= j < rest.len() ==> rest[j] == #[trigger] readings[j + 1]);
            if let Some(usage) = reading_of(rest, slot) {
                let j = choose|j: int|
                    0 <= j < rest.len() && (#[trigger] rest[j]).slot == slot && rest[j].usage
                        == usage && forall|l: int|
                        0 <= l < j ==> (#[trigger] rest[l]).slot != slot;
                assert(readings[j + 1].slot == slot);
                assert forall|l: int| 0 <= l < j + 1 implies (#[trigger] readings[l]).slot
                    != slot by {
                    if l > 0 {
                        assert(rest[l - 1].slot != slot);
                    }
                }
            } else {
                assert forall|j: int| 0 <= j < readings.len() implies (#[trigger] readings[j]).slot
                    != slot by {
                    if j > 0 {
                        assert(rest[j - 1].slot != slot);
                    }
                }
            }
        } else {
            assert(readings[0].slot == slot);
        }
    }
}

proof fn lemma_account_reset(previous: Seq<Observation>, current: Seq<Observation>, i: int)
    requires
        one_reading_each(previous),
        0 <= i < current.len(),
    ensures
        account_reset(previous, current[i]) <==> exists|j: int| #[trigger]
            reset_between(previous, current, j, i),
{
    let slot = current[i].slot;
    lemma_reading_of(previous, slot);
    if let Some(old) = reading_of(previous, slot) {
        let j = choose|j: int|
            0 <= j < previous.len() && (#[trigger] previous[j]).slot == slot && previous[j].usage
                == old && forall|l: int| 0 <= l < j ==> (#[trigger] previous[l]).slot != slot;
        if account_reset(previous, current[i]) {
            assert(reset_between(previous, current, j, i));
        }
        assert forall|l: int| #[trigger] reset_between(previous, current, l, i) implies l == j by {
            if l < j {
                assert(previous[l].slot != previous[j].slot);
            } else if j < l {
                assert(previous[j].slot != previous[l].slot);
            }
        }
    }
}

/// A reset on any account is seen, not only one on the first: where some account's quota started anew
/// between two readings of all of them, an account is named of which that is so, the first one of
/// the later reading; none is named where it is so of none.
pub proof fn law_a_reset_on_any_account_is_seen(
    previous: Seq<Observation>,
    current: Seq<Observation>,
)
    requires
        one_reading_each(previous),
    ensures
        first_reset(previous, current) is Some <==> exists|j: int, i: int| #[trigger]
            reset_between(previous, current, j, i),
        first_reset(previous, current) matches Some(slot) ==> exists|j: int, i: int|
            #[trigger]
            reset_between(previous, current, j, i) && current[i].slot == slot && forall|
                k: int,
                l: int,
            |
                0 <= l < i ==> !#[trigger] reset_between(previous, current, k, l),
    decreases current.len(),
{
    if current.len() > 0 {
        let rest = current.skip(1);
        law_a_reset_on_any_account_is_seen(previous, rest);
        lemma_account_reset(previous, current, 0);
        assert forall|j: int, i: int| #[trigger]
            reset_between(previous, current, j, i) && i > 0 implies reset_between(
            previous,
            rest,
            j,
            i - 1,
        ) by {
            assert(rest[i - 1] == current[i]);
        }
        if account_reset(previous, current[0]) {
            let j = choose|j: int| #[trigger] reset_between(previous, current, j, 0);
            assert(reset_between(previous, current, j, 0));
        } else if let Some(slot) = first_reset(previous, rest) {
            let (j, i) = choose|j: int, i: int|
                #[trigger]
                reset_between(previous, rest, j, i) && rest[i].slot == slot && forall|
                    k: int,
                    l: int,
                |
                    0 <= l < i ==> !#[trigger] reset_between(previous, rest, k, l);
            assert(rest[i] == current[i + 1]);
            assert(reset_between(previous, current, j, i + 1));
            assert forall|k: int, l: int| 0 <= l < i + 1 implies !#[trigger] reset_between(
                previous,
                current,
                k,
                l,
            ) by {
                if l > 0 {
                    assert(rest[l - 1] == current[l]);
                    assert(!reset_between(previous, rest, k, l - 1));
                }
            }
        }
    }
}

/// A reading that shows a reset on some account ends a boost, for a reason that names such an
/// account; one that shows none is what the next reading is held against.
pub proof fn law_every_reading_is_held_against_the_last(
    log: Seq<Reply>,
    at: nat,
    previous: Seq<Observation>,
    current: Vec<Observation>,
    latest: Option<nat>,
    seen: u64,
)
    requires
        one_reading_each(previous),
        at < log.len(),
        log[at as int] == Reply::Quotas(current),
    ensures
        (exists|j: int, i: int| #[trigger] reset_between(previous, current@, j, i)) ==> exists|
            j: int,
            i: int,
        |
            #[trigger]
            reset_between(previous, current@, j, i) && quotas_run(log, at, previous, latest, seen)
                == Run::Done(
                RoundView::Over(
                    "Codex weekly quota reset observed on account "@ + decimal_text(
                        current@[i].slot as nat,
                    ),
                ),
                at + 1,
            ),
        !(exists|j: int, i: int| #[trigger] reset_between(previous, current@, j, i)) && at + 1
            < log.len() && log[at as int + 1] is Number ==> quotas_run(
            log,
            at,
            previous,
            latest,
            seen,
        ) == quotas_run(log, at + 2, current@, Some(at), log[at as int + 1]->Number_0),
{
    law_a_reset_on_any_account_is_seen(previous, current@);
}

// ---------------------------------------------------------------- deadlines

/// A deadline is a moment with a time zone that lies ahead: a text that names none is refused, and so
/// is one that names the present or the past.
pub proof fn law_a_deadline_lies_ahead(value: Seq<char>, now: i64)
    ensures
        match crate::auth::rfc3339(value) {
            Some((seconds, _)) => if seconds > now {
                deadline_of(value, now) == Ok::<int, crate::error::ErrorView>(seconds)
            } else {
                deadline_of(value, now) is Err
            },
            None => deadline_of(value, now) is Err,
        },
{
}

}
