//! When an account is exhausted, and what is shown of accounts and their quotas.
use crate::account_store::Profile;
use crate::cli::{
    continued, entry_text, head_text, interval_text, label_of, list_text, position_of, ListEvent,
    ListStage, ListingView, ProfileUsage,
};
use crate::effects::{Key, Reply, RequestView, Run, TerminalEvent};
use crate::error::Error;
use crate::percent::{shown, Percent};
use crate::resets::window_of;
use crate::terminal::{
    age_text, bar_text, bucket_text, buckets_text, exit_run, gap, group_name, has_plan, plan_of,
    repeated, reset_text, style_of, styled, usage_text, watch_exit_run, window_name, window_text,
    windows_text, Style,
};
use crate::text::{decimal_text, joined_by, stands_in, two_digits};
use crate::usage::{
    buckets_bits, current_percent, larger, larger_of, rank, said_if, seen, window_bits,
    windows_bits, Shown, UsageBucket, UsageRecord, UsageWindow,
};
use vstd::prelude::*;

verus! {

// ---------------------------------------------------------------- exhaustion

/// Whether a window is used up.
pub open spec fn used_up(window: Option<UsageWindow>) -> bool {
    window matches Some(w) && w.used_percent matches Some(percent) && percent.reaches(100)
}

/// Whether a window has started anew by now.
pub open spec fn over(window: Option<UsageWindow>, now: i64) -> bool {
    window matches Some(w) && w.resets_at matches Some(moment) && moment <= now
}

/// Whether credits that a workspace gives out are gone.
pub open spec fn without_credits(kind: Option<String>) -> bool {
    kind matches Some(text) && (text@ == "workspace_owner_credits_depleted"@ || text@
        == "workspace_member_credits_depleted"@)
}

/// A group of models is exhausted as long as one of its windows is used up and has not started anew,
/// whichever window that is. It is exhausted, too, where its limit is reached and no window says so,
/// or the credits are gone; with a spending limit that is reached only the end of that limit counts.
pub proof fn law_a_group_is_exhausted_by_any_window(bucket: UsageBucket, now: i64)
    ensures
        bucket.spend_control_reached ==> (bucket.exhausted(now) <==> !over(
            bucket.individual_window,
            now,
        )),
        !bucket.spend_control_reached ==> (bucket.exhausted(now) <==> {
            ||| exists|which: int|
                0 <= which < 3 && used_up(#[trigger] window_of(bucket, which)) && !over(
                    window_of(bucket, which),
                    now,
                )
            ||| bucket.reached && without_credits(bucket.reached_type)
            ||| bucket.reached && forall|which: int|
                0 <= which < 3 ==> !used_up(#[trigger] window_of(bucket, which))
        }),
{
    let a = window_of(bucket, 0);
    let b = window_of(bucket, 1);
    let c = window_of(bucket, 2);
    assert(a == bucket.primary_window && b == bucket.secondary_window && c
        == bucket.individual_window);
}

/// An account is exhausted where one of its groups of models is, whichever, or where the account as a
/// whole is: its limit is reached, and that is still so.
pub proof fn law_an_account_is_exhausted_by_any_group(usage: UsageRecord, now: i64)
    ensures
        (exists|i: int| 0 <= i < usage.buckets@.len() && (#[trigger] usage.buckets@[i]).exhausted(now))
            ==> usage.exhausted(now),
        usage.exhausted(now) && (forall|i: int|
            0 <= i < usage.buckets@.len() ==> !(#[trigger] usage.buckets@[i]).exhausted(now))
            ==> usage.reached || usage.spend_control_reached,
        usage.spend_control_reached && !over(usage.individual_window, now) ==> usage.exhausted(now),
        usage.reached && !usage.spend_control_reached && without_credits(usage.reached_type)
            ==> usage.exhausted(now),
        usage.reached && !usage.spend_control_reached && (used_up(usage.primary_window) && !over(
            usage.primary_window,
            now,
        ) || used_up(usage.secondary_window) && !over(usage.secondary_window, now) || used_up(
            usage.individual_window,
        ) && !over(usage.individual_window, now)) ==> usage.exhausted(now),
        usage.reached && !usage.spend_control_reached && !used_up(usage.primary_window) && !used_up(
            usage.secondary_window,
        ) && !used_up(usage.individual_window) ==> usage.exhausted(now),
        usage.buckets@.len() == 0 && usage.spend_control_reached && over(
            usage.individual_window,
            now,
        ) ==> !usage.exhausted(now),
        usage.buckets@.len() == 0 && !usage.spend_control_reached && !without_credits(
            usage.reached_type,
        ) && (used_up(usage.primary_window) || used_up(usage.secondary_window) || used_up(
            usage.individual_window,
        )) && (used_up(usage.primary_window) ==> over(usage.primary_window, now)) && (used_up(
            usage.secondary_window,
        ) ==> over(usage.secondary_window, now)) && (used_up(usage.individual_window) ==> over(
            usage.individual_window,
            now,
        )) ==> !usage.exhausted(now),
{
}

/// Of two percentages the larger counts; one that is undefined never counts against one that is not,
/// and a window that has started anew has none.
pub proof fn law_the_larger_percentage_counts(
    a: Percent,
    b: Percent,
    window: UsageWindow,
    now: i64,
)
    ensures
        larger(a, b) == a || larger(a, b) == b,
        !a.nan() ==> !larger(a, b).nan() && rank(larger(a, b)) >= rank(a),
        !b.nan() ==> !larger(a, b).nan() && rank(larger(a, b)) >= rank(b),
        larger_of(Some(a), None) == Some(a),
        larger_of(None, Some(b)) == Some(b),
        larger_of(Some(a), Some(b)) == Some(larger(a, b)),
        current_percent(Some(window), now) == (if over(Some(window), now) {
            None
        } else {
            window.used_percent
        }),
        current_percent(None, now) is None,
{
}

// ---------------------------------------------------------------- parts of a text

proof fn lemma_front(part: Seq<char>, whole: Seq<char>, after: Seq<char>)
    requires
        stands_in(part, whole),
    ensures
        stands_in(part, whole + after),
{
    let (x, y) = choose|x: Seq<char>, y: Seq<char>| #[trigger] (x + part + y) == whole;
    assert(x + part + (y + after) =~= whole + after);
}

proof fn lemma_back(part: Seq<char>, before: Seq<char>, whole: Seq<char>)
    requires
        stands_in(part, whole),
    ensures
        stands_in(part, before + whole),
{
    let (x, y) = choose|x: Seq<char>, y: Seq<char>| #[trigger] (x + part + y) == whole;
    assert((before + x) + part + y =~= before + whole);
}

proof fn lemma_self(part: Seq<char>)
    ensures
        stands_in(part, part),
{
    assert(Seq::<char>::empty() + part + Seq::<char>::empty() =~= part);
}

proof fn lemma_through(part: Seq<char>, middle: Seq<char>, whole: Seq<char>)
    requires
        stands_in(part, middle),
        stands_in(middle, whole),
    ensures
        stands_in(part, whole),
{
    let (x, y) = choose|x: Seq<char>, y: Seq<char>| #[trigger] (x + middle + y) == whole;
    lemma_back(part, x, middle);
    lemma_front(part, x + middle, y);
}

proof fn lemma_styled(style: Style, part: Seq<char>, text: Seq<char>)
    requires
        stands_in(part, text),
    ensures
        stands_in(part, styled(style, text)),
{
    lemma_back(part, style.opening(), text);
    lemma_front(part, style.opening() + text, style.closing());
}

// ---------------------------------------------------------------- accounts in a list

/// The line of an account has its number and what the account is called; only the selected one is
/// marked with a star.
pub proof fn law_the_selected_account_is_marked(profile: Profile)
    ensures
        stands_in(label_of(profile), head_text(profile, true)),
        stands_in(label_of(profile), head_text(profile, false)),
        stands_in("* "@ + decimal_text(profile.slot as nat), head_text(profile, true)),
        stands_in("  "@ + decimal_text(profile.slot as nat), head_text(profile, false)),
{
    let label = label_of(profile);
    let name = styled(Style::Emphasis, label);
    lemma_self(label);
    lemma_styled(Style::Emphasis, label, label);
    let number = decimal_text(profile.slot as nat);
    let star = "*"@ + " "@ + number;
    let blank = " "@ + " "@ + number;
    reveal_strlit("*");
    reveal_strlit(" ");
    reveal_strlit("* ");
    reveal_strlit("  ");
    assert("*"@ + " "@ =~= "* "@);
    assert(" "@ + " "@ =~= "  "@);
    lemma_back(label, styled(Style::Accent, star) + "  "@, name);
    lemma_back(label, styled(Style::Accent, blank) + "  "@, name);
    lemma_self(star);
    lemma_self(blank);
    lemma_styled(Style::Accent, star, star);
    lemma_styled(Style::Accent, blank, blank);
    lemma_front(star, styled(Style::Accent, star), "  "@);
    lemma_front(star, styled(Style::Accent, star) + "  "@, name);
    lemma_front(blank, styled(Style::Accent, blank), "  "@);
    lemma_front(blank, styled(Style::Accent, blank) + "  "@, name);
}

/// A list has the lines of every account that is listed, each with its own quota and with the mark
/// exactly where it is the selected one.
pub proof fn law_every_account_is_listed(
    accounts: Seq<Profile>,
    selected: Option<u32>,
    states: Seq<ProfileUsage>,
    now: i64,
    turn: usize,
    i: int,
)
    requires
        states.len() == accounts.len(),
        0 <= i < accounts.len(),
    ensures
        stands_in(
            entry_text(accounts[i], selected, states[i], now, turn),
            list_text(accounts, selected, states, now, turn),
        ),
        stands_in(
            head_text(accounts[i], selected == Some(accounts[i].slot)),
            list_text(accounts, selected, states, now, turn),
        ),
        states[i] matches ProfileUsage::Ready(usage) ==> stands_in(
            usage_text(usage, now),
            list_text(accounts, selected, states, now, turn),
        ),
{
    lemma_listed(accounts, selected, states, now, turn, i);
    let entry = entry_text(accounts[i], selected, states[i], now, turn);
    let whole = list_text(accounts, selected, states, now, turn);
    let chosen = selected == Some(accounts[i].slot);
    let head = head_text(accounts[i], chosen);
    lemma_self(head);
    match states[i] {
        ProfileUsage::Loading => {
            let rest = entry.skip(head.len() as int);
            assert(head + rest =~= entry);
            lemma_front(head, head, rest);
        },
        ProfileUsage::Ready(usage) => {
            let rest = entry.skip(head.len() as int);
            assert(head + rest =~= entry);
            lemma_front(head, head, rest);
            let text = usage_text(usage, now);
            lemma_self(text);
            let before = entry.take(entry.len() - text.len());
            assert(before + text =~= entry);
            lemma_back(text, before, text);
            lemma_through(text, entry, whole);
        },
    }
    lemma_through(head, entry, whole);
}

proof fn lemma_listed(
    accounts: Seq<Profile>,
    selected: Option<u32>,
    states: Seq<ProfileUsage>,
    now: i64,
    turn: usize,
    i: int,
)
    requires
        states.len() >= accounts.len(),
        0 <= i < accounts.len(),
    ensures
        stands_in(
            entry_text(accounts[i], selected, states[i], now, turn),
            list_text(accounts, selected, states, now, turn),
        ),
    decreases accounts.len(),
{
    let entry = entry_text(accounts[i], selected, states[i], now, turn);
    if i == accounts.len() - 1 {
        lemma_self(entry);
        if accounts.len() > 1 {
            lemma_back(
                entry,
                list_text(accounts.drop_last(), selected, states, now, turn) + "\n"@,
                entry,
            );
        }
    } else {
        let before = accounts.drop_last();
        assert(before[i] == accounts[i]);
        lemma_listed(before, selected, states, now, turn, i);
        let last = entry_text(accounts.last(), selected, states[accounts.len() - 1], now, turn);
        lemma_front(entry, list_text(before, selected, states, now, turn), "\n"@);
        lemma_front(entry, list_text(before, selected, states, now, turn) + "\n"@, last);
    }
}

/// A reading is put down for the first account that has its number.
pub proof fn law_a_reading_finds_its_account(accounts: Seq<Profile>, slot: u32)
    ensures
        0 <= position_of(accounts, slot) <= accounts.len(),
        position_of(accounts, slot) < accounts.len() ==> accounts[position_of(
            accounts,
            slot,
        )].slot == slot,
        forall|i: int|
            0 <= i < position_of(accounts, slot) ==> (#[trigger] accounts[i]).slot != slot,
    decreases accounts.len(),
{
    if accounts.len() > 0 && accounts[0].slot != slot {
        let rest = accounts.skip(1);
        law_a_reading_finds_its_account(rest, slot);
        assert forall|i: int| 0 <= i < position_of(accounts, slot) implies (
        #[trigger] accounts[i]).slot != slot by {
            if i > 0 {
                assert(rest[i - 1] == accounts[i]);
            }
        }
    }
}

/// Every reading of a list counts: the session has changed where one of them says so, and the first
/// failure is kept.
pub proof fn law_every_reading_of_a_list_counts(list: ListingView, reading: Result<bool, Error>)
    requires
        list.stage == ListStage::Waiting,
    ensures
        ({
            let after = continued(list, ListEvent::Received(reading)).0;
            &&& after.completed == list.completed + 1
            &&& after.total == list.total
            &&& after.session_changed <==> list.session_changed || reading == Ok::<bool, Error>(
                true,
            )
            &&& list.first_error is Some ==> after.first_error == list.first_error
            &&& list.first_error is None && reading is Ok ==> after.first_error is None
            &&& list.first_error is None ==> (reading matches Err(error) ==> after.first_error
                == Some(error@))
        }),
{
}

// ---------------------------------------------------------------- quotas

/// What is shown of a quota has every group of models in it, with its windows, and says of an
/// exhausted group that it is.
pub proof fn law_every_group_is_shown(usage: UsageRecord, now: i64, i: int)
    requires
        usage.error is None,
        0 <= i < usage.buckets@.len(),
    ensures
        stands_in(bucket_text(usage.buckets@[i], now), usage_text(Some(usage), now)),
        stands_in(group_name(usage.buckets@[i]), usage_text(Some(usage), now)),
        usage.buckets@[i].exhausted(now) ==> stands_in(
            group_name(usage.buckets@[i]) + "  EXHAUSTED"@,
            usage_text(Some(usage), now),
        ),
{
    let bucket = usage.buckets@[i];
    lemma_groups(usage.buckets@, now, i);
    lemma_group_name(bucket, now);
    lemma_through(group_name(bucket), bucket_text(bucket, now), usage_text(Some(usage), now));
    if bucket.exhausted(now) {
        lemma_through(
            group_name(bucket) + "  EXHAUSTED"@,
            bucket_text(bucket, now),
            usage_text(Some(usage), now),
        );
    }
}

proof fn lemma_groups(buckets: Seq<UsageBucket>, now: i64, i: int)
    requires
        0 <= i < buckets.len(),
    ensures
        stands_in(bucket_text(buckets[i], now), buckets_text(buckets, now)),
    decreases buckets.len(),
{
    let before = buckets.drop_last();
    let last = bucket_text(buckets.last(), now);
    if i == buckets.len() - 1 {
        lemma_self(last);
        lemma_back(last, buckets_text(before, now), last);
    } else {
        assert(before[i] == buckets[i]);
        lemma_groups(before, now, i);
        lemma_front(bucket_text(buckets[i], now), buckets_text(before, now), last);
    }
}

proof fn lemma_group_name(bucket: UsageBucket, now: i64)
    ensures
        stands_in(group_name(bucket), bucket_text(bucket, now)),
        bucket.exhausted(now) ==> stands_in(
            group_name(bucket) + "  EXHAUSTED"@,
            bucket_text(bucket, now),
        ),
{
    let name = group_name(bucket);
    let long = name + "  EXHAUSTED"@;
    let (style, text) = if bucket.exhausted(now) {
        (Style::Error, long)
    } else {
        (Style::Emphasis, name)
    };
    lemma_self(name);
    lemma_front(name, name, "  EXHAUSTED"@);
    lemma_self(text);
    lemma_styled(style, name, text);
    lemma_styled(style, text, text);
    let head = "    "@ + styled(style, text);
    let rest = "\n"@ + windows_text(bucket.named_windows(), now);
    assert(bucket_text(bucket, now) =~= head + rest);
    lemma_back(name, "    "@, styled(style, text));
    lemma_back(text, "    "@, styled(style, text));
    lemma_front(name, head, rest);
    lemma_front(text, head, rest);
}

/// The lines of a group have every one of its windows in them, under its name, with how much of it is
/// used and when it starts anew.
pub proof fn law_every_window_is_shown(bucket: UsageBucket, now: i64, j: int)
    requires
        0 <= j < bucket.named_windows().len(),
    ensures
        ({
            let (name, window) = bucket.named_windows()[j];
            let whole = bucket_text(bucket, now);
            &&& stands_in(window_name(name, window.window_minutes), whole)
            &&& stands_in(bar_text(window.used_percent), whole)
            &&& window.used_percent matches Some(percent) ==> stands_in(
                shown(percent) + "% used"@,
                whole,
            )
            &&& window.resets_at matches Some(moment) ==> stands_in(reset_text(moment, now), whole)
        }),
{
    let (name, window) = bucket.named_windows()[j];
    let line = window_text(name, window, now);
    let whole = bucket_text(bucket, now);
    let lines = windows_text(bucket.named_windows(), now);
    lemma_windows(bucket.named_windows(), now, j);
    let before = whole.take(whole.len() - lines.len());
    assert(before + lines =~= whole);
    lemma_self(lines);
    lemma_back(lines, before, lines);
    lemma_through(line, lines, whole);
    lemma_window_line(name, window, now);
    lemma_through(window_name(name, window.window_minutes), line, whole);
    lemma_through(bar_text(window.used_percent), line, whole);
    if let Some(percent) = window.used_percent {
        lemma_through(shown(percent) + "% used"@, line, whole);
    }
    if let Some(moment) = window.resets_at {
        lemma_through(reset_text(moment, now), line, whole);
    }
}

proof fn lemma_windows(windows: Seq<(Seq<char>, UsageWindow)>, now: i64, j: int)
    requires
        0 <= j < windows.len(),
    ensures
        stands_in(window_text(windows[j].0, windows[j].1, now), windows_text(windows, now)),
    decreases windows.len(),
{
    let before = windows.drop_last();
    let last = window_text(windows.last().0, windows.last().1, now);
    let line = window_text(windows[j].0, windows[j].1, now);
    if j == windows.len() - 1 {
        lemma_self(last);
        lemma_back(last, windows_text(before, now), last);
    } else {
        assert(before[j] == windows[j]);
        lemma_windows(before, now, j);
        lemma_front(line, windows_text(before, now), last);
    }
}

/// What stands in a part of a line stands in the line.
proof fn lemma_line(
    part: Seq<char>,
    p: Seq<char>,
    a: Seq<char>,
    q: Seq<char>,
    b: Seq<char>,
    c: Seq<char>,
    d: Seq<char>,
    e: Seq<char>,
)
    requires
        stands_in(part, a) || stands_in(part, b) || stands_in(part, c) || stands_in(part, d),
    ensures
        stands_in(part, p + a + q + b + q + c + d + e),
{
    if stands_in(part, a) {
        lemma_back(part, p, a);
        lemma_front(part, p + a, q);
        lemma_front(part, p + a + q, b);
        lemma_front(part, p + a + q + b, q);
        lemma_front(part, p + a + q + b + q, c);
        lemma_front(part, p + a + q + b + q + c, d);
    } else if stands_in(part, b) {
        lemma_back(part, p + a + q, b);
        lemma_front(part, p + a + q + b, q);
        lemma_front(part, p + a + q + b + q, c);
        lemma_front(part, p + a + q + b + q + c, d);
    } else if stands_in(part, c) {
        lemma_back(part, p + a + q + b + q, c);
        lemma_front(part, p + a + q + b + q + c, d);
    } else {
        lemma_back(part, p + a + q + b + q + c, d);
    }
    lemma_front(part, p + a + q + b + q + c + d, e);
}

proof fn lemma_window_line(name: Seq<char>, window: UsageWindow, now: i64)
    ensures
        stands_in(window_name(name, window.window_minutes), window_text(name, window, now)),
        stands_in(bar_text(window.used_percent), window_text(name, window, now)),
        window.used_percent matches Some(percent) ==> stands_in(
            shown(percent) + "% used"@,
            window_text(name, window, now),
        ),
        window.resets_at matches Some(moment) ==> stands_in(
            reset_text(moment, now),
            window_text(name, window, now),
        ),
{
    let label = window_name(name, window.window_minutes);
    let style = style_of(window.used_percent);
    let bar = bar_text(window.used_percent);
    let percent = match window.used_percent {
        Some(percent) => shown(percent),
        None => "--"@,
    };
    let reset = match window.resets_at {
        Some(reset) => "  "@ + reset_text(reset, now),
        None => ""@,
    };
    let padding = repeated(' ', gap(label, 8));
    let spaces = repeated(' ', gap(percent, 3));
    let used = percent + "% used"@;
    let (p, q, e) = ("      "@, " "@, "\n"@);
    let a = styled(Style::Muted, label + padding);
    let b = styled(style, bar);
    let c = styled(style, spaces + percent + "% used"@);
    let d = styled(Style::Muted, reset);
    lemma_self(label);
    lemma_front(label, label, padding);
    lemma_styled(Style::Muted, label, label + padding);
    lemma_line(label, p, a, q, b, c, d, e);
    lemma_self(bar);
    lemma_styled(style, bar, bar);
    lemma_line(bar, p, a, q, b, c, d, e);
    lemma_self(used);
    lemma_back(used, spaces, used);
    assert(spaces + used =~= spaces + percent + "% used"@);
    lemma_styled(style, used, spaces + percent + "% used"@);
    lemma_line(used, p, a, q, b, c, d, e);
    if let Some(moment) = window.resets_at {
        let text = reset_text(moment, now);
        lemma_self(text);
        lemma_back(text, "  "@, text);
        lemma_styled(Style::Muted, text, reset);
        lemma_line(text, p, a, q, b, c, d, e);
    }
}

/// An account's plan is the one that its groups agree on.
pub proof fn law_groups_agree_on_a_plan(usage: UsageRecord, plan: Seq<char>, i: int)
    requires
        plan_of(usage, plan),
        0 <= i < usage.buckets@.len(),
    ensures
        usage.buckets@[i].plan_type matches Some(text) ==> text@ == plan,
{
    if usage.buckets@[i].plan_type is Some {
        assert(has_plan(usage.buckets@[i], plan));
    }
}

// ---------------------------------------------------------------- one line

/// What is joined stands in the whole, every part of it.
pub proof fn law_every_part_is_joined(parts: Seq<Seq<char>>, separator: Seq<char>, i: int)
    requires
        0 <= i < parts.len(),
    ensures
        stands_in(parts[i], joined_by(parts, separator)),
    decreases parts.len(),
{
    lemma_self(parts[i]);
    if parts.len() > 1 {
        let before = parts.drop_last();
        let front = joined_by(before, separator);
        if i == parts.len() - 1 {
            lemma_back(parts[i], front + separator, parts[i]);
        } else {
            assert(before[i] == parts[i]);
            law_every_part_is_joined(before, separator, i);
            lemma_front(parts[i], front, separator);
            lemma_front(parts[i], front + separator, parts.last());
        }
    }
}

proof fn lemma_either(a: Seq<Seq<char>>, b: Seq<Seq<char>>, bit: Seq<char>)
    requires
        a.contains(bit) || b.contains(bit),
    ensures
        (a + b).contains(bit),
{
    if a.contains(bit) {
        let i = choose|i: int| 0 <= i < a.len() && a[i] == bit;
        assert((a + b)[i] == bit);
    } else {
        let i = choose|i: int| 0 <= i < b.len() && b[i] == bit;
        assert((a + b)[a.len() + i] == bit);
    }
}

/// What is said of the windows of an account or a group on one line says of each how much of it is
/// used, where that is known, under its own name.
pub proof fn law_the_line_has_every_window(
    prefix: Seq<char>,
    windows: Seq<(Seq<char>, UsageWindow)>,
    shown: Seq<Shown>,
    now: i64,
    i: int,
)
    requires
        0 <= i < windows.len() <= shown.len(),
        windows[i].1.used_percent is Some,
    ensures
        windows_bits(prefix, windows, shown, now).contains(
            prefix + windows[i].0 + " "@ + shown[i].used@ + "% used"@,
        ),
    decreases windows.len(),
{
    let bit = prefix + windows[i].0 + " "@ + shown[i].used@ + "% used"@;
    let n = windows.len() - 1;
    let last = window_bits(
        prefix + windows[n].0,
        windows[n].1,
        shown[n].used@,
        shown[n].when@,
        now,
    );
    let before = windows_bits(prefix, windows.drop_last(), shown, now);
    if i == n {
        assert(last[0] == bit);
    } else {
        assert(windows.drop_last()[i] == windows[i]);
        law_the_line_has_every_window(prefix, windows.drop_last(), shown, now, i);
    }
    lemma_either(before, last, bit);
}

/// The line of an account that was read says when that was, and that it is exhausted where it is as a
/// whole; a failed reading is told by its error alone.
pub proof fn law_the_line_tells_age_and_exhaustion(usage: UsageRecord, shown: Seq<Shown>, now: i64)
    ensures
        usage.error matches Some(error) ==> usage.line(shown, now) == error@,
        usage.error is None ==> stands_in(seen(usage.observed_at, now), usage.line(shown, now)),
        usage.error is None && usage.exhausted_as_whole(now) ==> usage.bits(shown, now).contains(
            "EXHAUSTED"@,
        ),
        usage.error is None ==> (usage.plan_type matches Some(plan) ==> usage.bits(
            shown,
            now,
        ).contains(plan@)),
{
    let bits = usage.bits(shown, now);
    let last = bits.len() - 1;
    assert(bits[last] == seen(usage.observed_at, now));
    law_every_part_is_joined(bits, ", "@, last);
    let windows = windows_bits(""@, usage.named_windows(), shown, now);
    let whole = said_if(usage.exhausted_as_whole(now), "EXHAUSTED"@);
    if usage.exhausted_as_whole(now) {
        assert(whole[0] == "EXHAUSTED"@);
        assert(bits[windows.len() as int] == "EXHAUSTED"@);
    }
    if let Some(plan) = usage.plan_type {
        let buckets = buckets_bits(
            usage.buckets@,
            shown.skip(usage.named_windows().len() as int),
            now,
        );
        assert(bits[(windows + whole + buckets).len() as int] == plan@);
    }
}

// ---------------------------------------------------------------- times

/// How long ago something was is told in the largest unit that fits, rounded down.
pub proof fn law_ages_are_told_in_one_unit(timestamp: i64, now: i64, n: nat, rest: nat)
    requires
        now >= timestamp,
    ensures
        now - timestamp < 60 ==> age_text(timestamp, now) == "just now"@,
        1 <= n < 60 && rest < 60 && now - timestamp == n * 60 + rest ==> age_text(timestamp, now)
            == decimal_text(n) + "m ago"@,
        1 <= n < 24 && rest < 3_600 && now - timestamp == n * 3_600 + rest ==> age_text(
            timestamp,
            now,
        ) == decimal_text(n) + "h ago"@,
        1 <= n && rest < 86_400 && now - timestamp == n * 86_400 + rest && now - timestamp
            <= i64::MAX ==> age_text(timestamp, now) == decimal_text(n) + "d ago"@,
{
    let age = now - timestamp;
    assert(1 <= n < 60 && rest < 60 && age == n * 60 + rest ==> age / 60 == n) by (nonlinear_arith);
    assert(1 <= n < 24 && rest < 3_600 && age == n * 3_600 + rest ==> age / 3_600 == n)
        by (nonlinear_arith);
    assert(1 <= n && rest < 86_400 && age == n * 86_400 + rest ==> age / 86_400 == n)
        by (nonlinear_arith);
}

/// How long it takes until a window starts anew is told in days and hours, or in hours and minutes, or
/// in minutes, of which there is at least one; a moment that has passed is not counted backwards.
pub proof fn law_resets_are_told_in_two_units(
    reset: i64,
    now: i64,
    days: nat,
    hours: nat,
    minutes: nat,
    seconds: nat,
)
    requires
        hours < 24,
        minutes < 60,
        seconds < 60,
    ensures
        reset <= now ==> reset_text(reset, now) == "reset pending"@,
        reset > now && reset - now == days * 86_400 + hours * 3_600 + minutes * 60 + seconds
            ==> reset_text(reset, now) == (if days > 0 {
            "resets in "@ + decimal_text(days) + "d "@ + decimal_text(hours) + "h"@
        } else if hours > 0 {
            "resets in "@ + decimal_text(hours) + "h "@ + decimal_text(minutes) + "m"@
        } else if minutes > 0 {
            "resets in "@ + decimal_text(minutes) + "m"@
        } else {
            "resets in "@ + decimal_text(1) + "m"@
        }),
{
    if reset > now && reset - now == days * 86_400 + hours * 3_600 + minutes * 60 + seconds {
        let left = reset - now;
        assert(left / 86_400 == days && left % 86_400 == hours * 3_600 + minutes * 60 + seconds)
            by (nonlinear_arith)
            requires
                left == days * 86_400 + hours * 3_600 + minutes * 60 + seconds,
                hours < 24,
                minutes < 60,
                seconds < 60,
        ;
        assert((left % 86_400) / 3_600 == hours);
        assert(left % 3_600 == minutes * 60 + seconds) by (nonlinear_arith)
            requires
                left == days * 86_400 + hours * 3_600 + minutes * 60 + seconds,
                minutes < 60,
                seconds < 60,
        ;
    }
}

/// A time span is told in minutes and two digits of seconds, or in seconds alone.
pub proof fn law_intervals_are_told_in_minutes_and_seconds(
    interval: u64,
    minutes: nat,
    seconds: nat,
)
    requires
        seconds < 60,
        interval == minutes * 60 + seconds,
    ensures
        minutes == 0 ==> interval_text(interval) == decimal_text(seconds) + "s"@,
        minutes > 0 ==> interval_text(interval) == decimal_text(minutes) + "m "@ + two_digits(
            seconds,
        ) + "s"@,
{
    assert(interval / 60 == minutes && interval % 60 == seconds) by (nonlinear_arith)
        requires
            interval == minutes * 60 + seconds,
            seconds < 60,
    ;
}

/// A window is named for its length where that is a number of days or hours.
pub proof fn law_windows_are_named_for_their_length(name: Seq<char>, n: nat)
    requires
        0 < n < 1_000_000,
    ensures
        window_name(name, Some(300)) == "5-hour"@,
        window_name(name, Some(1_440)) == "Daily"@,
        window_name(name, Some(10_080)) == "Weekly"@,
        n != 1 && n != 7 ==> window_name(name, Some((n * 1_440) as i64)) == decimal_text(n)
            + "-day"@,
        n != 5 && n % 24 != 0 ==> window_name(name, Some((n * 60) as i64)) == decimal_text(n)
            + "-hour"@,
{
    assert((n * 1_440) % 1_440 == 0 && (n * 1_440) / 1_440 == n) by (nonlinear_arith);
    assert((n * 60) % 60 == 0 && (n * 60) / 60 == n) by (nonlinear_arith);
    assert((n * 60) % 1_440 == 60 * (n % 24)) by (nonlinear_arith);
}

// ---------------------------------------------------------------- the end of a watch

/// A watch ends by a signal, by `q` and by Ctrl-C, and by no other key; a key that is let go of does
/// not count.
pub proof fn law_a_watch_ends_by_its_keys(
    log: Seq<Reply>,
    at: nat,
    left: u64,
    key: Key,
    control: bool,
    release: bool,
)
    requires
        at + 3 < log.len(),
        log[at as int] == Reply::Flag(false),
        log[at as int + 1] == Reply::Number(left),
        log[at as int + 2] == Reply::Flag(true),
        log[at as int + 3] == Reply::Event(TerminalEvent::Key { key, control, release }),
    ensures
        !release && (key == Key::Char('q') || key == Key::Char('Q') || key == Key::Char('c')
            && control) ==> exit_run(log, at, true) == Run::Done(true, at + 4),
        release || !(key == Key::Char('q') || key == Key::Char('Q') || key == Key::Char('c')
            && control) ==> exit_run(log, at, true) == exit_run(log, at + 4, false),
{
}

/// A signal ends a watch at once, and a watch that nothing asks to end goes on when its time is up.
pub proof fn law_a_watch_goes_on_when_its_time_is_up(log: Seq<Reply>, at: nat, timeout: u64)
    requires
        at + 2 < log.len(),
        log[at as int] is Done,
    ensures
        watch_exit_run(log.take(at as int), at, timeout) == Run::<bool>::Ask(
            RequestView::StartTimer(timeout),
        ),
        log[at as int + 1] == Reply::Flag(true) ==> watch_exit_run(log, at, timeout) == Run::Done(
            true,
            at + 2,
        ),
        at + 4 < log.len() && log[at as int + 1] == Reply::Flag(false) && log[at as int + 2]
            is Number && log[at as int + 3] == Reply::Flag(false) && log[at as int + 4]
            == Reply::Flag(false) ==> watch_exit_run(log, at, timeout) == Run::Done(false, at + 5),
{
}

}
