//! What a user is told, and what decides between two copies of credentials.
use crate::account_store::{
    epoch_seconds, first_broken, latest, recent, reconcile_run, restore_copy_run, selected_run,
    slot_named, slot_with, Credentials, StoreEntry,
};
use crate::auth::{
    base64_url_padded, base64_url_unpadded, claims_of, refreshed_at, rfc3339, AuthDocument,
    AuthView, IdentityView,
};
use crate::config::Config;
use crate::effects::{EntryKind, Reply, RequestView, Run};
use crate::error::ErrorView;
use crate::json::{json_parsed, JsonView};
use crate::percent::{one, shown, steps};
use crate::status::{
    foreign_line_run, quota_run, session_line_run, status_issue_run, status_lines_run,
};
use crate::terminal::{
    age_text, color_of, columns_of, group_name, height_of, laid_out, plan_name, recency, redrawn,
    row_count, rows_for, style_of, styled, usage_text, LiveRegion, Style,
};
use crate::text::{decimal_text, split_on};
use crate::usage::{
    bucket_prefix, distance, moment_text, no_credits, seen, shown_end, window_bits, UsageBucket,
    UsageRecord, UsageWindow,
};
use vstd::prelude::*;

verus! {

// ---------------------------------------------------------------- credentials

/// Of two copies the one with the later refresh is newer; any refresh is newer than none, and without
/// one nothing is newer.
pub proof fn law_the_later_refresh_is_newer(a: AuthView, b: AuthView)
    ensures
        a.refresh_ns is Some && b.refresh_ns is Some ==> (a.newer(b) <==> a.refresh_ns->0
            > b.refresh_ns->0),
        a.refresh_ns is Some && b.refresh_ns is None ==> a.newer(b),
        a.refresh_ns is None ==> !a.newer(b),
        !(a.newer(b) && b.newer(a)),
{
}

/// Of two copies of credentials only the newer is kept: a newer source is copied over the target, an
/// older one changes nothing, and two of the same time that differ are both left as they are.
pub proof fn law_only_newer_credentials_replace(
    log: Seq<Reply>,
    at: nat,
    source_path: Seq<char>,
    source: AuthView,
    target_path: Seq<char>,
    target: AuthView,
)
    requires
        log.len() == at,
    ensures
        source.refresh_ns is Some && (target.refresh_ns matches Some(time) ==> source.refresh_ns->0
            > time) ==> reconcile_run(log, at, source_path, source, target_path, target) == Run::<
            (),
        >::Ask(RequestView::Copy { from: source_path, to: target_path }),
        target.refresh_ns is Some && (source.refresh_ns matches Some(time) ==> target.refresh_ns->0
            > time) ==> reconcile_run(log, at, source_path, source, target_path, target)
            == Run::Done((), at),
        source.refresh_ns == target.refresh_ns && source.same_credentials(target) ==> reconcile_run(
            log,
            at,
            source_path,
            source,
            target_path,
            target,
        ) == Run::Done((), at),
        source.refresh_ns == target.refresh_ns && !source.same_credentials(target)
            ==> reconcile_run(log, at, source_path, source, target_path, target) is Fail,
{
}

/// What is put back never replaces anything: where something is there by then, it is put off.
pub proof fn law_putting_back_replaces_nothing(
    log: Seq<Reply>,
    at: nat,
    source: Seq<char>,
    target: Seq<char>,
)
    ensures
        log.len() == at ==> restore_copy_run(log, at, source, target) == Run::<()>::Ask(
            RequestView::CopyIfAbsent { from: source, to: target },
        ),
        log.len() > at && log[at as int] == Reply::Flag(true) ==> restore_copy_run(
            log,
            at,
            source,
            target,
        ) == Run::Done((), at + 1),
        log.len() > at && log[at as int] == Reply::Flag(false) ==> restore_copy_run(
            log,
            at,
            source,
            target,
        ) == Run::<()>::Fail(ErrorView::RecoveryDeferred, at + 1),
{
}

/// The later of two times is neither's before, and is one of them.
pub proof fn law_the_latest_of_two(a: Option<i128>, b: Option<i128>)
    ensures
        latest(a, b) == a || latest(a, b) == b,
        a is Some || b is Some ==> latest(a, b) is Some,
        (a matches Some(time) ==> latest(a, b)->0 >= time),
        (b matches Some(time) ==> latest(a, b)->0 >= time),
{
}

/// A quota is fresh where it was read, or asked for, less than so many seconds ago, and not in the
/// future.
pub proof fn law_when_a_quota_is_fresh(
    recorded: Option<i128>,
    attempted: Option<i128>,
    now: i128,
    seconds: u64,
    moment: i128,
)
    ensures
        recorded is None && attempted is None ==> !recent(recorded, attempted, now, seconds),
        recorded == Some(moment) && attempted is None ==> (recent(recorded, attempted, now, seconds)
            <==> 0 <= now - moment < seconds * 1_000_000_000),
        attempted == Some(moment) && recorded is None ==> (recent(recorded, attempted, now, seconds)
            <==> 0 <= now - moment < seconds * 1_000_000_000),
        recorded == Some(moment) && (attempted matches Some(other) && other <= moment) ==> (recent(
            recorded,
            attempted,
            now,
            seconds,
        ) <==> 0 <= now - moment < seconds * 1_000_000_000),
        attempted == Some(moment) && (recorded matches Some(other) && other <= moment) ==> (recent(
            recorded,
            attempted,
            now,
            seconds,
        ) <==> 0 <= now - moment < seconds * 1_000_000_000),
{
}

/// The clock tells seconds; one that stands before the epoch tells none.
pub proof fn law_what_the_clock_tells(seconds: u64)
    ensures
        seconds <= i64::MAX ==> epoch_seconds(Some(seconds)) == seconds,
        epoch_seconds(None) == 0,
{
}

/// Credits are gone where there are none and some are needed.
pub proof fn law_when_credits_are_gone(has_credits: Option<bool>, unlimited: Option<bool>)
    ensures
        no_credits(Some(false), Some(false)),
        has_credits != Some(false) ==> !no_credits(has_credits, unlimited),
        unlimited != Some(false) ==> !no_credits(has_credits, unlimited),
{
}

/// An account is called by its address, or else by its account, or else by its user.
pub proof fn law_what_an_account_is_called(identity: IdentityView)
    ensures
        identity.email is Some ==> identity.label() == identity.email->0,
        identity.email is None && identity.account_id is Some ==> identity.label()
            == identity.account_id->0,
        identity.email is None && identity.account_id is None ==> identity.label()
            == identity.user_id,
{
}

/// Credentials of an account that cannot be read as JSON are noticed wherever they are among the
/// entries; other entries never are.
pub proof fn law_broken_credentials_are_noticed_anywhere(entries: Seq<StoreEntry>)
    ensures
        first_broken(entries) is Some <==> exists|i: int|
            0 <= i < entries.len() && slot_named((#[trigger] entries[i]).name@) is Some && (
            entries[i].auth matches Credentials::Broken(error) && error@ is Json),
    decreases entries.len(),
{
    if entries.len() > 0 {
        let rest = entries.skip(1);
        law_broken_credentials_are_noticed_anywhere(rest);
        if exists|i: int|
            0 <= i < rest.len() && slot_named((#[trigger] rest[i]).name@) is Some && (
            rest[i].auth matches Credentials::Broken(error) && error@ is Json) {
            let i = choose|i: int|
                0 <= i < rest.len() && slot_named((#[trigger] rest[i]).name@) is Some && (
                rest[i].auth matches Credentials::Broken(error) && error@ is Json);
            assert(rest[i] == entries[i + 1]);
        }
        if exists|i: int|
            0 <= i < entries.len() && slot_named((#[trigger] entries[i]).name@) is Some && (
            entries[i].auth matches Credentials::Broken(error) && error@ is Json) {
            let i = choose|i: int|
                0 <= i < entries.len() && slot_named((#[trigger] entries[i]).name@) is Some && (
                entries[i].auth matches Credentials::Broken(error) && error@ is Json);
            if i > 0 {
                assert(rest[i - 1] == entries[i]);
            }
        }
    }
}

// ---------------------------------------------------------------- the status

/// The status tells of the selected account, by its number and what it is called, and of the directory
/// that the sessions share.
pub proof fn law_the_status_tells_of_the_selected_account(
    c: Config,
    log: Seq<Reply>,
    at: nat,
    slot: u32,
    n: nat,
    profile: AuthDocument,
)
    requires
        selected_run(c, log, at) == Run::Done(Some(slot), n),
        log.len() > n,
        log[n as int] == Reply::Auth(profile),
    ensures
        status_lines_run(c, log, at) matches Run::Done(lines, _) ==> ({
            &&& lines.len() >= 4
            &&& lines[0] == "Default Codex account: "@ + decimal_text(slot as nat) + "  "@
                + profile@.identity.label()
            &&& (quota_run(slot, log, n + 1) matches Run::Done(quota, _) && lines[1] == "Quota: "@
                + quota)
            &&& lines[lines.len() - 2] == "Shared session home: "@ + c.codex_home@
        }),
        log.len() == n + 1 ==> status_lines_run(c, log, at) == Run::<Seq<Seq<char>>>::Ask(
            RequestView::Usage(slot),
        ),
{
}

/// Without a selected account there is no status.
pub proof fn law_no_status_without_a_selection(c: Config, log: Seq<Reply>, at: nat, n: nat)
    requires
        selected_run(c, log, at) == Run::Done(None::<u32>, n),
    ensures
        status_lines_run(c, log, at) is Fail,
        status_issue_run(c, log, at) is Fail,
{
}

/// A quota that is not known is said to be unknown.
pub proof fn law_an_unknown_quota_is_told(slot: u32, log: Seq<Reply>, at: nat)
    requires
        log.len() > at,
        !(log[at as int] is Usage),
    ensures
        quota_run(slot, log, at) == Run::Done("usage unknown"@, at + 1),
{
}

/// Active credentials of another enrolled account are told of, by its own number and name; those of the
/// selected account are not, nor are those of nobody that is enrolled.
pub proof fn law_another_active_account_is_told_of(
    profile: AuthView,
    c: Config,
    log: Seq<Reply>,
    at: nat,
    active: AuthDocument,
    accounts: Vec<crate::account_store::Profile>,
)
    requires
        log.len() > at + 1,
        log[at as int] == Reply::Auth(active),
        log[at as int + 1] == Reply::Profiles(accounts),
    ensures
        foreign_line_run(profile, c, log.take(at as int), at) == Run::<Seq<Seq<char>>>::Ask(
            RequestView::ReadAuth(c.active_auth@),
        ),
        active@.identity.account_id == profile.identity.account_id && active@.identity.user_id
            == profile.identity.user_id ==> foreign_line_run(profile, c, log, at) == Run::Done(
            Seq::<Seq<char>>::empty(),
            at + 1,
        ),
        active@.identity.account_id != profile.identity.account_id || active@.identity.user_id
            != profile.identity.user_id ==> ({
            &&& slot_with(accounts@, active@.identity) matches Some(slot) ==> foreign_line_run(
                profile,
                c,
                log,
                at,
            ) == Run::Done(
                seq![
                    "Active credentials: account "@ + decimal_text(slot as nat) + " ("@
                        + active@.identity.label() + "; does not match the selected account)"@,
                ],
                at + 2,
            )
            &&& slot_with(accounts@, active@.identity) is None ==> foreign_line_run(
                profile,
                c,
                log,
                at,
            ) == Run::Done(Seq::<Seq<char>>::empty(), at + 2)
        }),
{
}

/// How the session's credentials are: linked where the link is the program's and the file that it
/// names is there; otherwise detached where something is in its place, and missing where nothing is.
pub proof fn law_how_the_session_is_linked(
    c: Config,
    profile: AuthView,
    log: Seq<Reply>,
    at: nat,
    linked: bool,
    there: bool,
)
    requires
        log.len() > at + 2,
        log[at as int] == Reply::Flag(linked),
    ensures
        linked && log[at as int + 1] == Reply::Flag(true) ==> session_line_run(c, profile, log, at)
            == Run::Done("Session credentials: linked to "@ + c.active_auth@, at + 2),
        !linked && (log[at as int + 1] matches Reply::Entry(kind) && kind != EntryKind::Other)
            && log[at as int + 2] == Reply::Flag(there) ==> session_line_run(c, profile, log, at)
            == Run::Done(
            if there {
                "Session credentials: DETACHED ("@ + c.session_auth@
                    + " is a real file). Run cxa relink."@
            } else {
                "Session credentials: MISSING ("@ + c.session_auth@ + "). Run cxa relink."@
            },
            at + 3,
        ),
{
}

/// A session of the selected account that is in use is no issue, linked or not; otherwise it has to be
/// linked, and the active credentials have to be of the selected account.
pub proof fn law_what_is_wrong_with_a_session(
    c: Config,
    log: Seq<Reply>,
    at: nat,
    slot: u32,
    n: nat,
    profile: AuthDocument,
    linked: bool,
    active_there: bool,
    active: AuthDocument,
)
    requires
        selected_run(c, log, at) == Run::Done(Some(slot), n),
        log.len() > n + 4,
        log[n as int] == Reply::Auth(profile),
        log[n as int + 1] == Reply::Entry(EntryKind::Link),
        log[n as int + 2] == Reply::Flag(linked),
        log[n as int + 3] == Reply::Flag(active_there),
        log[n as int + 4] == Reply::Auth(active),
    ensures
        !linked ==> status_issue_run(c, log, at) == Run::Done(
            Some("Shared session credentials are not linked; run cxa relink."@),
            n + 3,
        ),
        linked && !active_there ==> status_issue_run(c, log, at) == Run::Done(
            Some("Shared session credentials are not linked; run cxa relink."@),
            n + 4,
        ),
        linked && active_there ==> status_issue_run(c, log, at) == Run::Done(
            if active@.identity.account_id == profile@.identity.account_id
                && active@.identity.user_id == profile@.identity.user_id {
                None
            } else {
                Some("Active credentials do not match the selected account."@)
            },
            n + 5,
        ),
{
}

/// A session of its own, of the selected account and in use, is no issue.
pub proof fn law_a_session_in_use_is_no_issue(
    c: Config,
    log: Seq<Reply>,
    at: nat,
    slot: u32,
    n: nat,
    profile: AuthDocument,
    session: AuthDocument,
)
    requires
        selected_run(c, log, at) == Run::Done(Some(slot), n),
        log.len() > n + 3,
        log[n as int] == Reply::Auth(profile),
        log[n as int + 1] == Reply::Entry(EntryKind::Other),
        log[n as int + 2] == Reply::Auth(session),
        log[n as int + 3] == Reply::Flag(true),
        session@.identity.account_id == profile@.identity.account_id,
        session@.identity.user_id == profile@.identity.user_id,
    ensures
        status_issue_run(c, log, at) == Run::Done(None::<Seq<char>>, n + 4),
{
}

// ---------------------------------------------------------------- the picture

/// A quota that is used up is shown as an error from 100 percent on, as a warning from 80 on, and
/// below as fine; without a percentage it is shown faintly.
pub proof fn law_which_color_a_quota_has(percent: crate::percent::Percent)
    ensures
        percent.reaches(100) ==> style_of(Some(percent)) == Style::Error,
        percent.reaches(80) && !percent.reaches(100) ==> style_of(Some(percent)) == Style::Warning,
        !percent.reaches(80) && !percent.reaches(100) ==> style_of(Some(percent)) == Style::Success,
        style_of(None) == Style::Muted,
{
}

/// A text in a style is the text, between what begins the style and what ends it.
pub proof fn law_a_style_keeps_the_text(style: Style, text: Seq<char>)
    ensures
        styled(style, text) == style.opening() + text + "\x1b[0m"@,
{
}

/// Plans have the names that they are sold by; others are named by themselves, with a capital letter.
pub proof fn law_plans_have_names(plan: Seq<char>)
    ensures
        plan_name("pro"@) == "Pro 20x"@,
        plan_name("prolite"@) == "Pro 5x"@,
        plan_name("team"@) == "Business"@,
        plan_name("business"@) == "Business"@,
        plan != "pro"@ && plan != "prolite"@ && plan != "self_serve_business_prolite"@ && plan
            != "self_serve_business_usage_based"@ && plan != "business"@ && plan != "team"@ && plan
            != "edu_plus"@ && plan != "edu_pro"@ && plan.len() > 0 ==> plan_name(plan)
            == crate::text::uppercase_of(plan[0]) + plan.skip(1),
{
    reveal_strlit("pro");
    reveal_strlit("prolite");
    reveal_strlit("self_serve_business_prolite");
    reveal_strlit("self_serve_business_usage_based");
    reveal_strlit("business");
    reveal_strlit("team");
    assert("team"@.len() != "pro"@.len());
    assert("team"@.len() != "prolite"@.len());
    assert("prolite"@.len() != "pro"@.len());
    assert("business"@.len() != "prolite"@.len());
}

/// A reading that failed, or showed nothing, tells when it was last tried; one that went well tells
/// when it was made.
pub proof fn law_which_time_is_told(usage: UsageRecord, now: i64)
    ensures
        usage.error is None && usage.buckets@.len() > 0 ==> recency(usage, now) == "updated "@
            + age_text(usage.observed_at, now),
        (usage.error is Some || usage.buckets@.len() == 0) && usage.last_attempted_at
            >= usage.observed_at ==> recency(usage, now) == "checked "@ + age_text(
            usage.last_attempted_at,
            now,
        ),
        (usage.error is Some || usage.buckets@.len() == 0) && usage.last_attempted_at
            < usage.observed_at ==> recency(usage, now) == "checked "@ + age_text(
            usage.observed_at,
            now,
        ),
{
}

/// An account without a reading, with a reading that failed, and with one that showed nothing say so.
pub proof fn law_what_is_said_without_a_quota(usage: UsageRecord, now: i64)
    ensures
        usage_text(None, now) == "    "@ + styled(Style::Warning, "Usage unknown"@) + "\n"@,
        usage.error matches Some(error) ==> usage_text(Some(usage), now) == "    "@ + styled(
            Style::Warning,
            error@,
        ) + "\n"@,
        usage.error is None && usage.buckets@.len() == 0 ==> usage_text(Some(usage), now) == "    "@
            + styled(Style::Warning, "No quota data"@) + "\n"@,
{
}

proof fn lemma_plain(text: Seq<char>, width: nat)
    requires
        forall|i: int|
            0 <= i < text.len() ==> #[trigger] text[i] != '\x1b' && text[i] != '\n' && text[i]
                != '\r',
    ensures
        laid_out(text, width).rows == 0,
        laid_out(text, width).columns == text.len(),
        !laid_out(text, width).escape,
    decreases text.len(),
{
    if text.len() > 0 {
        lemma_plain(text.drop_last(), width);
        assert(text.last() == text[text.len() - 1]);
    }
}

/// A line without anything special takes as many rows as its characters fill, at least one.
pub proof fn law_how_many_rows_a_line_takes(text: Seq<char>, width: nat, full: nat, rest: nat)
    requires
        width > 0,
        text.len() == full * width + rest,
        0 < rest <= width,
        forall|i: int|
            0 <= i < text.len() ==> #[trigger] text[i] != '\x1b' && text[i] != '\n' && text[i]
                != '\r',
    ensures
        row_count(text, width) == full + 1,
{
    lemma_plain(text, width);
    let columns = text.len() as int;
    assert((columns + width - 1) / (width as int) == full + 1) by (nonlinear_arith)
        requires
            columns == full * width + rest,
            0 < rest <= width,
            width > 0,
    {
        assert(columns + width - 1 == (full + 1) * width + (rest - 1));
        vstd::arithmetic::div_mod::lemma_fundamental_div_mod_converse(
            columns + width - 1,
            width as int,
            full as int + 1,
            rest - 1,
        );
    }
}

/// Nothing takes one row, and each end of a line begins another.
pub proof fn law_each_line_takes_its_rows(text: Seq<char>, width: nat)
    requires
        width > 0,
    ensures
        row_count(Seq::empty(), width) == 1,
        !laid_out(text, width).escape ==> laid_out(text.push('\n'), width).columns == 0
            && laid_out(text.push('\n'), width).rows == laid_out(text, width).rows + rows_for(
            if laid_out(text, width).columns == 0 {
                1
            } else {
                laid_out(text, width).columns
            },
            width,
        ),
        !laid_out(text, width).escape ==> laid_out(text.push('\x1b'), width).columns == laid_out(
            text,
            width,
        ).columns,
{
    assert(text.push('\n').drop_last() =~= text);
    assert(text.push('\x1b').drop_last() =~= text);
}

/// What is as high as the screen takes the whole screen from then on, and what is not stays where it
/// began; nothing is drawn once the region is closed.
pub proof fn law_where_the_picture_is_drawn(region: LiveRegion, rows: nat, height: nat)
    requires
        rows <= usize::MAX,
    ensures
        !region.active ==> redrawn(region, rows, height) == (region, Seq::<char>::empty()),
        region.active && !region.full_screen ==> (redrawn(region, rows, height).0.full_screen
            <==> rows + 1 >= height),
        region.active && region.full_screen ==> redrawn(region, rows, height).0.full_screen,
        region.active && !region.full_screen && rows + 1 < height ==> redrawn(
            region,
            rows,
            height,
        ).0.origin_saved && redrawn(region, rows, height).0.reserved_rows >= rows,
        redrawn(region, rows, height).0.active == region.active,
{
}

/// The end of a window is told at some offset of the machine from the time that it says; outside of
/// the calendar it is told as the number that it is, and where there is none, nothing is told.
pub proof fn law_when_a_window_ends(window: UsageWindow, when: Seq<char>)
    requires
        shown_end(window, when),
    ensures
        window.resets_at is None ==> when == ""@,
        (window.resets_at matches Some(reset) && -8_334_601_228_800 <= reset && reset
            <= 8_210_266_876_799) ==> exists|offset: int|
            -86400 < offset < 86400 && when == #[trigger] moment_text(
                window.resets_at->0 + offset,
            ),
{
    if let Some(reset) = window.resets_at {
        if -8_334_601_228_800 <= reset && reset <= 8_210_266_876_799 {
            let offset = choose|offset: int| #[trigger]
                crate::usage::shown_ahead(when, reset as int, offset);
            assert(when == moment_text(window.resets_at->0 + offset));
        }
    }
}

/// How far off a reset is, is told in whole hours; one that is past is told to be.
pub proof fn law_how_far_off_a_reset_is(reset: i64, now: i64, hours: nat, rest: nat)
    ensures
        reset > now && reset - now == hours * 3600 + rest && rest < 3600 ==> distance(reset, now)
            == " (in "@ + decimal_text(hours) + "h)"@,
        reset <= now ==> distance(reset, now) == " (passed)"@,
{
    if reset > now && reset - now == hours * 3600 + rest && rest < 3600 {
        assert((reset - now) / 3600 == hours);
    }
}

/// How old a reading is, is told in whole hours, from one hour on.
pub proof fn law_how_old_a_reading_is(observed_at: i64, now: i64, hours: nat, rest: nat)
    requires
        i64::MIN <= now - observed_at <= i64::MAX,
    ensures
        now - observed_at < 3600 ==> seen(observed_at, now) == "seen just now"@,
        now - observed_at == hours * 3600 + rest && rest < 3600 && hours > 0 ==> seen(
            observed_at,
            now,
        ) == "seen "@ + decimal_text(hours) + "h ago"@,
{
    if now - observed_at == hours * 3600 + rest && rest < 3600 {
        assert((now - observed_at) / 3600 == hours);
    }
}

/// What is told of a window: how much of it is used, and when it resets, as far as that is known.
pub proof fn law_what_is_told_of_a_window(
    label: Seq<char>,
    window: UsageWindow,
    used: Seq<char>,
    when: Seq<char>,
    now: i64,
)
    ensures
        window.used_percent is None && window.resets_at is None ==> window_bits(
            label,
            window,
            used,
            when,
            now,
        ).len() == 0,
        window.used_percent is Some ==> window_bits(label, window, used, when, now).len() > 0
            && window_bits(label, window, used, when, now)[0] == label + " "@ + used + "% used"@,
        window.resets_at matches Some(reset) ==> (window_bits(label, window, used, when, now).len()
            > 0 && window_bits(label, window, used, when, now).last() == label + " resets "@ + when
            + distance(reset, now)),
        window_bits(label, window, used, when, now).len() == (if window.used_percent is Some {
            1int
        } else {
            0
        }) + (if window.resets_at is Some {
            1int
        } else {
            0
        }),
{
}

/// Every window of a group is among its windows, under its own name, and nothing else is.
pub proof fn law_every_window_of_a_group_counts(bucket: UsageBucket, window: UsageWindow)
    ensures
        bucket.primary_window == Some(window) ==> bucket.named_windows().contains(
            ("primary"@, window),
        ),
        bucket.secondary_window == Some(window) ==> bucket.named_windows().contains(
            ("secondary"@, window),
        ),
        bucket.individual_window == Some(window) ==> bucket.named_windows().contains(
            ("individual"@, window),
        ),
        bucket.named_windows().len() == (if bucket.primary_window is Some {
            1int
        } else {
            0
        }) + (if bucket.secondary_window is Some {
            1int
        } else {
            0
        }) + (if bucket.individual_window is Some {
            1int
        } else {
            0
        }),
{
    let windows = bucket.named_windows();
    let second: int = if bucket.primary_window is Some {
        1
    } else {
        0
    };
    let third: int = second + (if bucket.secondary_window is Some {
        1int
    } else {
        0
    });
    if bucket.primary_window is Some {
        assert(windows[0] == ("primary"@, bucket.primary_window->0));
    }
    if bucket.secondary_window is Some {
        assert(windows[second] == ("secondary"@, bucket.secondary_window->0));
    }
    if bucket.individual_window is Some {
        assert(windows[third] == ("individual"@, bucket.individual_window->0));
    }
}

/// Every window of an account as a whole is among its windows, under its own name.
pub proof fn law_every_window_of_an_account_counts(usage: UsageRecord, window: UsageWindow)
    ensures
        usage.primary_window == Some(window) ==> usage.named_windows().contains(
            ("primary"@, window),
        ),
        usage.secondary_window == Some(window) ==> usage.named_windows().contains(
            ("secondary"@, window),
        ),
        usage.individual_window == Some(window) ==> usage.named_windows().contains(
            ("individual"@, window),
        ),
{
    let windows = usage.named_windows();
    let second: int = if usage.primary_window is Some {
        1
    } else {
        0
    };
    let third: int = second + (if usage.secondary_window is Some {
        1int
    } else {
        0
    });
    if usage.primary_window is Some {
        assert(windows[0] == ("primary"@, usage.primary_window->0));
    }
    if usage.secondary_window is Some {
        assert(windows[second] == ("secondary"@, usage.secondary_window->0));
    }
    if usage.individual_window is Some {
        assert(windows[third] == ("individual"@, usage.individual_window->0));
    }
}

/// A group is told of by its name, and without one by nothing.
pub proof fn law_a_group_is_told_of_by_its_name(bucket: UsageBucket)
    ensures
        bucket.limit_name matches Some(name) ==> bucket_prefix(bucket) == name@ + " "@,
        bucket.limit_name is None ==> bucket_prefix(bucket) == ""@,
{
}

/// A group is shown by its name, or else by its identifier, with spaces for the signs between the
/// words; two have names of their own.
pub proof fn law_what_a_group_is_called(bucket: UsageBucket, i: int)
    ensures
        bucket.limit_name matches Some(name) ==> ({
            &&& name@ == "GPT-5.3-Codex-Spark"@ ==> group_name(bucket) == "Codex Spark"@
            &&& name@ != "GPT-5.3-Codex-Spark"@ ==> group_name(bucket).len() == name@.len()
            &&& name@ != "GPT-5.3-Codex-Spark"@ && 0 <= i < name@.len() ==> group_name(bucket)[i]
                == (if name@[i] == '-' {
                ' '
            } else {
                name@[i]
            })
        }),
        bucket.limit_name is None ==> ({
            let id = bucket.limit_id@;
            &&& id == "codex"@ ==> group_name(bucket) == "Codex"@
            &&& id != "codex"@ ==> group_name(bucket).len() == id.len()
            &&& id != "codex"@ && 0 <= i < id.len() ==> group_name(bucket)[i] == (if id[i] == '_' {
                ' '
            } else {
                id[i]
            })
        }),
{
}

/// Each style has its own color, and all but the faint one are bold.
pub proof fn law_styles_have_colors()
    ensures
        color_of(Style::Accent) == Some(6u8),
        color_of(Style::Success) == Some(2u8),
        color_of(Style::Warning) == Some(3u8),
        color_of(Style::Error) == Some(1u8),
        color_of(Style::Emphasis) is None,
        color_of(Style::Muted) is None,
        Style::Emphasis.opening() == "\x1b[1m"@ + ""@ + ""@,
        Style::Muted.opening() == ""@ + "\x1b[2m"@ + ""@,
        Style::Error.opening() == "\x1b[1m"@ + ""@ + ("\x1b[3"@ + decimal_text(1) + "m"@),
{
}

/// A terminal that does not say how large it is has eighty columns and twenty-four rows.
pub proof fn law_how_large_a_terminal_is(columns: u16, rows: u16)
    ensures
        columns > 0 ==> columns_of(Some((columns, rows))) == columns,
        rows > 0 ==> height_of(Some((columns, rows))) == rows,
        columns_of(None) == 80 && height_of(None) == 24,
        columns_of(Some((0, rows))) == 80 && height_of(Some((columns, 0))) == 24,
{
}

/// Credentials were refreshed when they say; what is no time is none.
pub proof fn law_when_credentials_were_refreshed(raw: JsonView, seconds: int, nanos: int)
    ensures
        raw.text_at("last_refresh"@) is None ==> refreshed_at(raw) is None,
        raw.text_at("last_refresh"@) matches Some(text) ==> ({
            &&& rfc3339(text) is None ==> refreshed_at(raw) is None
            &&& rfc3339(text) == Some((seconds, nanos)) ==> refreshed_at(raw) == Some(
                seconds * 1_000_000_000 + nanos,
            )
        }),
{
}

/// What a token claims is its second part, decoded with or without padding, and read.
pub proof fn law_what_a_token_claims(token: Seq<char>, bytes: Seq<u8>, claims: JsonView)
    ensures
        split_on(token, '.').len() < 2 ==> claims_of(token) is None,
        split_on(token, '.').len() >= 2 && base64_url_unpadded(split_on(token, '.')[1]) == Some(
            bytes,
        ) && json_parsed(bytes) == Ok::<JsonView, Seq<char>>(claims) ==> claims_of(token) == Some(
            claims,
        ),
        split_on(token, '.').len() >= 2 && base64_url_unpadded(split_on(token, '.')[1]) is None
            && base64_url_padded(split_on(token, '.')[1]) == Some(bytes) && json_parsed(bytes)
            == Ok::<JsonView, Seq<char>>(claims) ==> claims_of(token) == Some(claims),
        split_on(token, '.').len() >= 2 && base64_url_unpadded(split_on(token, '.')[1]) is None
            && base64_url_padded(split_on(token, '.')[1]) is None ==> claims_of(token) is None,
{
}

/// A whole percentage is shown as the number that it is, with a sign where it is below zero.
pub proof fn law_whole_percentages_are_shown_whole(percent: crate::percent::Percent, n: nat)
    requires
        percent.finite(),
        steps(percent.magnitude()) == n * one(),
    ensures
        !percent.negative() ==> shown(percent) == ""@ + decimal_text(n),
        percent.negative() ==> shown(percent) == "-"@ + decimal_text(n),
{
    vstd::arithmetic::power2::lemma_pow2_pos(1074);
    let unit = one() as int;
    let count = n as int;
    assert((count * unit) % unit == 0 && (count * unit) / unit == count) by (nonlinear_arith)
        requires
            unit > 0,
    {
        vstd::arithmetic::div_mod::lemma_div_multiples_vanish(count, unit);
        vstd::arithmetic::div_mod::lemma_mod_multiples_basic(count, unit);
    }
}

/// What is no number is shown as such.
pub proof fn law_what_is_no_number_is_shown_so(percent: crate::percent::Percent)
    ensures
        percent.nan() ==> shown(percent) == "NaN"@,
{
}

}
