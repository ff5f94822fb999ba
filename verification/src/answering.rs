//! What the commands do with what they are answered.
use crate::account_store::{resolve_run, selected_run, Profile};
use crate::auth::{AuthDocument, AuthView};
use crate::cli::{
    add_options, add_run, await_lock_run, begun, buckets_lines, command_run, confirm_run,
    continued, copy_config_run, countdown_run, enrolled_text, exhausted_text, first_foreign,
    guidance_run, head_text, import_current_run, import_run, imported_text, init_run, list_run,
    locked_run, login_arguments, login_run, mark, name_text, needs_run, notice_text, number_text,
    option_name, plan_list_run, profile_lines_count, profile_text, question_text, relogged_text,
    relogin_run, relogin_text, spin_run, status_run, switch_run, switched_text, warn_run,
    watch_round_run, watch_text, Cli, CliCommand, LOCK_WAIT, ListAction, ListEvent, ListPlanView,
    ListStage, ListingView,
};
use crate::config::Config;
use crate::effects::{Reply, RequestView, Run};
use crate::error::ErrorView;
use crate::json::alike_opt;
use crate::paths::joined;
use crate::switching::replace_run;
use crate::terminal::{usage_text, watch_exit_run, Style};
use crate::text::{decimal_text, first_at, lowered, opt_texts, stands_in, trimmed};
use crate::usage::{UsageBucket, UsageRecord};
use vstd::prelude::*;

verus! {

/// Two documents have the same credentials where their tokens are alike, whatever else they say.
pub proof fn law_only_tokens_are_credentials(a: AuthView, b: AuthView)
    ensures
        a.same_credentials(b) <==> alike_opt(a.raw.get("tokens"@), b.raw.get("tokens"@)),
        a.raw.get("tokens"@) is Some && b.raw.get("tokens"@) is None ==> !a.same_credentials(b),
{
}

/// A login is imported unless the user says no, in small or capital letters; where nobody can be asked,
/// it is not.
pub proof fn law_only_no_declines(label: Seq<char>, log: Seq<Reply>, at: nat, answer: String)
    requires
        log.len() > at + 1,
        log[at as int + 1] == Reply::Text(answer),
    ensures
        log[at as int] == Reply::Flag(false) ==> confirm_run(label, log, at) is Fail,
        log[at as int] == Reply::Flag(true) ==> ({
            &&& confirm_run(label, log.take(at as int + 1), at) == Run::<()>::Ask(
                RequestView::Prompt(question_text(label)),
            )
            &&& lowered(trimmed(answer@)) == "n"@ || lowered(trimmed(answer@)) == "no"@
                ==> confirm_run(label, log, at) is Fail
            &&& lowered(trimmed(answer@)) != "n"@ && lowered(trimmed(answer@)) != "no"@
                ==> confirm_run(label, log, at) == Run::Done((), at + 2)
        }),
{
    assert(log.take(at as int + 1)[at as int] == log[at as int]);
}

/// The question names the login.
pub proof fn law_the_question_names_the_login(label: Seq<char>)
    ensures
        stands_in(label, question_text(label)),
{
    let text = question_text(label);
    let style = crate::terminal::Style::Emphasis;
    let before = crate::terminal::styled(crate::terminal::Style::Accent, "?"@)
        + " Found the current Codex login: "@ + style.opening();
    let after = style.closing() + "\n  Import it as account "@ + crate::terminal::styled(
        crate::terminal::Style::Accent,
        "1"@,
    ) + "? "@ + crate::terminal::styled(crate::terminal::Style::Muted, "[Y/n]"@) + " "@;
    assert(text =~= before + label + after);
}

/// The current login is imported from the session's file: without one there is nothing to import, and
/// unless the user has agreed already, they are asked.
pub proof fn law_the_current_login_is_imported(
    config: Config,
    assume_yes: bool,
    log: Seq<Reply>,
    at: nat,
    current: AuthDocument,
)
    ensures
        log.len() == at ==> import_current_run(config, assume_yes, log, at) == Run::<()>::Ask(
            RequestView::IsFile(config.session_auth@),
        ),
        log.len() > at && log[at as int] == Reply::Flag(false) ==> import_current_run(
            config,
            assume_yes,
            log,
            at,
        ) is Fail,
        log.len() == at + 2 && log[at as int] == Reply::Flag(true) && log[at as int + 1]
            == Reply::Auth(current) ==> import_current_run(config, assume_yes, log, at) == Run::<
            (),
        >::Ask(
            if assume_yes {
                RequestView::ReadAuth(config.session_auth@)
            } else {
                RequestView::Interactive
            },
        ),
{
}

/// Before anything is enrolled, the user is told what to do, and of the login that is there.
pub proof fn law_the_user_is_guided(config: Config, log: Seq<Reply>, at: nat, current: AuthDocument)
    requires
        log.len() > at,
    ensures
        log[at as int] == Reply::Auth(current) ==> guidance_run(config, log, at) == Run::Done(
            "Found the current Codex login: "@ + current.identity@.label()
                + "\ncxa is not initialized. Run: cxa init"@,
            at + 1,
        ),
        log[at as int] is Missing || log[at as int] is Failed ==> guidance_run(config, log, at)
            == Run::Done(
            "cxa is not initialized. Run `codex login`, then run `cxa init`."@,
            at + 1,
        ),
{
}

/// A lock is tried for until it is had, or the user asks to stop.
pub proof fn law_a_lock_is_waited_for(
    path: Seq<char>,
    log: Seq<Reply>,
    at: nat,
    m: nat,
)
    ensures
        log.len() == at ==> await_lock_run(path, log, at) == Run::<()>::Ask(
            RequestView::TryLock(path),
        ),
        log.len() > at && log[at as int] == Reply::Flag(true) ==> await_lock_run(path, log, at)
            == Run::Done((), at + 1),
        log.len() > at && log[at as int] == Reply::Flag(false) && watch_exit_run(log, at + 1, 0)
            == Run::Done(true, m) ==> await_lock_run(path, log, at) == Run::<()>::Fail(
            ErrorView::Cancelled,
            m,
        ),
        log.len() > at && log[at as int] == Reply::Flag(false) && watch_exit_run(log, at + 1, 0)
            == Run::Done(false, m) && log.len() == m ==> await_lock_run(path, log, at) == Run::<
            (),
        >::Ask(RequestView::Sleep(LOCK_WAIT)),
        log.len() > at && log[at as int] == Reply::Flag(false) && watch_exit_run(log, at + 1, 0)
            == Run::Done(false, m) && log.len() == m + 1 && log[m as int] == Reply::Done && m >= at
            ==> await_lock_run(path, log, at) == Run::<()>::Ask(RequestView::TryLock(path)),
{
    reveal_with_fuel(await_lock_run, 3);
}

/// A quota is read where it has to be, or where the last one is no longer fresh; never where reading is
/// turned off.
pub proof fn law_when_a_quota_is_read(
    config: Config,
    slot: u32,
    force: bool,
    log: Seq<Reply>,
    at: nat,
    fresh: bool,
)
    requires
        log.len() == at + 1,
        log[at as int] == Reply::Flag(fresh),
    ensures
        config.skip_usage_refresh ==> needs_run(config, slot, force, log, at) == Run::Done(
            false,
            at,
        ),
        !config.skip_usage_refresh && force ==> needs_run(config, slot, force, log, at)
            == Run::Done(true, at),
        !config.skip_usage_refresh && !force ==> needs_run(config, slot, force, log, at)
            == Run::Done(!fresh, at + 1) && needs_run(
            config,
            slot,
            force,
            log.take(at as int),
            at,
        ) == Run::<bool>::Ask(RequestView::UsageFresh(slot)),
{
}

/// A login gets the options of the user, in their order, and keeps its credentials in a file.
pub proof fn law_a_login_gets_its_options(options: Seq<Option<Seq<char>>>, i: int)
    ensures
        login_arguments(options).len() == options.len() + 3,
        login_arguments(options)[0] == Some("login"@),
        0 <= i < options.len() ==> login_arguments(options)[i + 1] == options[i],
        login_arguments(options)[options.len() as int + 1] == Some("-c"@),
        login_arguments(options)[options.len() as int + 2] == Some(
            "cli_auth_credentials_store=\"file\""@,
        ),
{
}

/// A login by a device code is asked for on top of the options of the user.
pub proof fn law_a_device_code_is_an_option(options: Seq<Option<String>>, i: int)
    ensures
        add_options(false, options) == opt_texts(options),
        add_options(true, options).len() == opt_texts(options).len() + 1,
        add_options(true, options).last() == Some("--device-auth"@),
        0 <= i < opt_texts(options).len() ==> add_options(true, options)[i] == opt_texts(
            options,
        )[i],
{
}

/// The name of an option ends at its first equals sign.
pub proof fn law_an_option_has_a_name(name: Seq<char>, value: Seq<char>)
    requires
        forall|i: int| 0 <= i < name.len() ==> name[i] != '=',
    ensures
        option_name(name) == name,
        option_name(name + seq!['='] + value) == name,
{
    lemma_first_sign(name, Seq::empty());
    lemma_first_sign(name, seq!['='] + value);
    assert(name + Seq::<char>::empty() =~= name);
    assert(name + seq!['='] + value =~= name + (seq!['='] + value));
    assert(name.take(name.len() as int) =~= name);
    assert((name + (seq!['='] + value)).take(name.len() as int) =~= name);
}

proof fn lemma_first_sign(name: Seq<char>, rest: Seq<char>)
    requires
        forall|i: int| 0 <= i < name.len() ==> name[i] != '=',
        rest.len() == 0 || rest[0] == '=',
    ensures
        first_at(name + rest, '=') == name.len(),
    decreases name.len(),
{
    let whole = name + rest;
    if name.len() == 0 {
        assert(whole =~= rest);
    } else {
        assert(whole[0] == name[0]);
        lemma_first_sign(name.skip(1), rest);
        assert(whole.skip(1) =~= name.skip(1) + rest);
    }
}

/// The settings of the user are copied into the home of a login, where there are any.
pub proof fn law_settings_go_along(config: Config, home: Seq<char>, log: Seq<Reply>, at: nat)
    requires
        log.len() == at + 1,
    ensures
        copy_config_run(config, home, log.take(at as int), at) == Run::<()>::Ask(
            RequestView::IsFile(joined(config.codex_home@, "config.toml"@)),
        ),
        log[at as int] == Reply::Flag(true) ==> copy_config_run(config, home, log, at) == Run::<
            (),
        >::Ask(
            RequestView::Copy {
                from: joined(config.codex_home@, "config.toml"@),
                to: joined(home, "config.toml"@),
            },
        ),
        log[at as int] == Reply::Flag(false) ==> copy_config_run(config, home, log, at)
            == Run::Done((), at + 1),
{
}

/// A watch counts down by one every second until nothing is left, and ends early where it is asked to.
pub proof fn law_a_watch_counts_down(
    remaining: u64,
    restart_required: bool,
    log: Seq<Reply>,
    at: nat,
    m: nat,
)
    requires
        remaining > 0,
    ensures
        countdown_run(0, restart_required, log, at) == Run::Done(false, at),
        log.len() == at ==> countdown_run(remaining, restart_required, log, at) == Run::<
            bool,
        >::Ask(RequestView::WriteStatus(watch_text(remaining, restart_required))),
        log.len() > at && log[at as int] == Reply::Done && watch_exit_run(
            log,
            at + 1,
            1_000_000_000,
        ) == Run::Done(true, m) ==> countdown_run(remaining, restart_required, log, at)
            == Run::Done(true, m),
        log.len() > at && log[at as int] == Reply::Done && watch_exit_run(
            log,
            at + 1,
            1_000_000_000,
        ) == Run::Done(false, m) && remaining == 1 ==> countdown_run(
            remaining,
            restart_required,
            log,
            at,
        ) == Run::Done(false, m),
        log.len() > at && log[at as int] == Reply::Done && watch_exit_run(
            log,
            at + 1,
            1_000_000_000,
        ) == Run::Done(false, m) && remaining > 1 && log.len() == m ==> countdown_run(
            remaining,
            restart_required,
            log,
            at,
        ) == Run::<bool>::Ask(
            RequestView::WriteStatus(watch_text((remaining - 1) as u64, restart_required)),
        ),
{
    reveal_with_fuel(countdown_run, 3);
}

/// Each round of a watch reads every quota anew; that a session has changed is remembered from then
/// on.
pub proof fn law_a_watch_remembers_a_change(
    restart_required: bool,
    interval: u64,
    log: Seq<Reply>,
    at: nat,
    changed: bool,
)
    ensures
        log.len() == at ==> watch_round_run(restart_required, interval, log, at) == Run::<
            Option<bool>,
        >::Ask(RequestView::RefreshList { force: true, watch: true }),
        log.len() > at && log[at as int] == Reply::Flag(changed) ==> (watch_round_run(
            restart_required,
            interval,
            log,
            at,
        ) matches Run::Done(Some(required), _) ==> required == (restart_required || changed)),
        log.len() == at + 1 && log[at as int] == Reply::Flag(changed) && interval > 0
            ==> watch_round_run(restart_required, interval, log, at) == Run::<Option<bool>>::Ask(
            RequestView::WriteStatus(watch_text(interval, restart_required || changed)),
        ),
        log.len() > at && log[at as int] is Closed ==> watch_round_run(
            restart_required,
            interval,
            log,
            at,
        ) == Run::Done(None::<bool>, at + 1),
{
}

/// A list that is not watched reads what is no longer fresh, once, and tells of a session that has
/// changed; one that is watched needs somebody to watch it.
pub proof fn law_how_a_list_is_made(
    watch: bool,
    interval: u64,
    log: Seq<Reply>,
    at: nat,
    changed: bool,
)
    ensures
        !watch && log.len() == at ==> list_run(watch, interval, log, at) == Run::<Option<u64>>::Ask(
            RequestView::RefreshList { force: false, watch: false },
        ),
        !watch && log.len() == at + 1 && log[at as int] == Reply::Flag(true) ==> list_run(
            watch,
            interval,
            log,
            at,
        ) == Run::<Option<u64>>::Ask(RequestView::Print(notice_text())),
        !watch && log.len() > at && (log[at as int] == Reply::Flag(false) || log[at as int]
            is Closed) ==> list_run(watch, interval, log, at) == Run::Done(None::<u64>, at + 1),
        watch && log.len() == at ==> list_run(watch, interval, log, at) == Run::<
            Option<u64>,
        >::Ask(RequestView::Interactive),
        watch && log.len() > at && log[at as int] == Reply::Flag(true) ==> list_run(
            watch,
            interval,
            log,
            at,
        ) == Run::Done(Some(interval), at + 1),
        watch && log.len() > at && log[at as int] == Reply::Flag(false) ==> list_run(
            watch,
            interval,
            log,
            at,
        ) is Fail,
{
}

/// Who switches to an account that was last seen exhausted is warned of it, and nobody else.
pub proof fn law_an_exhausted_account_is_warned_of(
    target: Profile,
    log: Seq<Reply>,
    at: nat,
    usage: UsageRecord,
    now: i64,
)
    requires
        log.len() == at + 2,
        log[at as int + 1] == Reply::Time(now),
    ensures
        warn_run(target, log.take(at as int), at) == Run::<()>::Ask(
            RequestView::Usage(target.slot),
        ),
        log[at as int] is Missing ==> warn_run(target, log, at) == Run::Done((), at + 1),
        log[at as int] == Reply::Usage(usage) && usage.exhausted(now) ==> warn_run(target, log, at)
            == Run::<()>::Ask(RequestView::Warn(exhausted_text(target))),
        log[at as int] == Reply::Usage(usage) && !usage.exhausted(now) ==> warn_run(
            target,
            log,
            at,
        ) == Run::Done((), at + 2),
{
}

/// What is shown of an account begins with its head and ends with its quota.
pub proof fn law_an_account_is_shown_with_its_quota(
    profile: Profile,
    selected: bool,
    usage: Option<UsageRecord>,
    now: i64,
)
    ensures
        head_text(profile, selected).is_prefix_of(profile_text(profile, selected, usage, now)),
        usage_text(usage, now).is_suffix_of(profile_text(profile, selected, usage, now)),
{
    let whole = profile_text(profile, selected, usage, now);
    let head = head_text(profile, selected);
    let tail = usage_text(usage, now);
    assert(whole.take(head.len() as int) =~= head);
    assert(whole.skip(whole.len() - tail.len()) =~= tail);
}

// ---------------------------------------------------------------- lists

/// A list is drawn first where somebody watches and there is something to draw; it then waits for every
/// reading, and for the workers only once all are there.
pub proof fn law_how_a_list_begins(list: ListingView)
    ensures
        list.active && list.total > 0 ==> begun(list).0.stage == ListStage::First && begun(list).1
            == ListAction::Draw,
        (!list.active || list.total == 0) && list.completed < list.total ==> begun(list).0.stage
            == ListStage::Waiting,
        (!list.active || list.total == 0) && list.completed >= list.total ==> begun(list).0.stage
            == ListStage::Joining && begun(list).1 == ListAction::Join,
        begun(list).0.total == list.total && begun(list).0.completed == list.completed,
{
}

/// Who asks for the end of a list gets it at once; who does not, waits for the rest.
pub proof fn law_a_list_ends_when_asked(list: ListingView)
    requires
        list.stage == ListStage::Looking,
    ensures
        continued(list, ListEvent::ExitAsked(true)).1 == ListAction::Exit,
        list.completed < list.total ==> continued(list, ListEvent::ExitAsked(false)).0.stage
            == ListStage::Waiting,
        list.completed >= list.total ==> continued(list, ListEvent::ExitAsked(false)).1
            == ListAction::Join,
{
}

/// A list is drawn one last time when its workers are through, and is then finished; a worker that
/// failed is an error where there is none yet.
pub proof fn law_how_a_list_is_finished(list: ListingView, fine: bool)
    ensures
        list.stage == ListStage::Joining ==> ({
            let (after, action) = continued(list, ListEvent::Joined(fine));
            &&& after.stage == ListStage::Last
            &&& action == ListAction::Draw
            &&& list.first_error is Some || fine ==> after.first_error == list.first_error
            &&& list.first_error is None && !fine ==> after.first_error is Some
        }),
        list.stage == ListStage::Last ==> continued(list, ListEvent::Drawn).1
            == ListAction::Finish,
{
}

/// While a list is watched, every reading and every wait shows progress; where nobody can see it, it
/// is waited on.
pub proof fn law_a_list_shows_progress(list: ListingView)
    requires
        list.stage == ListStage::Waiting,
    ensures
        list.active ==> continued(list, ListEvent::Waited).1 == ListAction::Draw && continued(
            list,
            ListEvent::Waited,
        ).0.turn != list.turn,
        !list.active && list.watch ==> continued(list, ListEvent::Waited).1
            == ListAction::LookForExit,
        !list.active && !list.watch && list.completed < list.total ==> continued(
            list,
            ListEvent::Waited,
        ).0.stage == ListStage::Waiting,
        list.active ==> continued(list, ListEvent::Disconnected).1 == ListAction::Join,
{
}

/// An account takes a line for itself, one for each group and one for each window; or one more where
/// there is no quota to show.
pub proof fn law_how_many_lines_an_account_takes(
    usage: UsageRecord,
    buckets: Seq<UsageBucket>,
    bucket: UsageBucket,
)
    ensures
        profile_lines_count(None) == 2,
        usage.error is Some || usage.buckets@.len() == 0 ==> profile_lines_count(Some(usage)) == 2,
        usage.error is None && usage.buckets@.len() > 0 ==> profile_lines_count(Some(usage)) == 1
            + buckets_lines(usage.buckets@),
        buckets_lines(Seq::empty()) == 0,
        buckets_lines(buckets.push(bucket)) == buckets_lines(buckets) + 1
            + bucket.named_windows().len(),
{
    assert(buckets.push(bucket).drop_last() =~= buckets);
}

// ---------------------------------------------------------------- beginnings

/// Without an account there is no list and no status, only guidance.
pub proof fn law_nothing_is_shown_without_accounts(
    config: Config,
    force: bool,
    refresh: bool,
    log: Seq<Reply>,
    at: nat,
    n: nat,
    accounts: Vec<Profile>,
    text: Seq<char>,
    k: nat,
)
    requires
        locked_run(config, log, at) == Run::Done((), n),
        log.len() > n,
        log[n as int] == Reply::Profiles(accounts),
        accounts@.len() == 0,
        guidance_run(config, log, n + 1) == Run::Done(text, k),
    ensures
        plan_list_run(config, force, log, at) matches Run::Done(plan, _) && plan.guidance == Some(
            text,
        ) && plan.accounts.len() == 0,
        log.len() == k ==> status_run(config, refresh, log, at) == Run::<()>::Ask(
            RequestView::Print(text),
        ),
{
}

/// With accounts, a list has all of them, the selected one and which quotas have to be read.
pub proof fn law_a_list_has_every_account(
    config: Config,
    force: bool,
    log: Seq<Reply>,
    at: nat,
    n: nat,
    accounts: Vec<Profile>,
    selected: Option<u32>,
    k: nat,
)
    requires
        locked_run(config, log, at) == Run::Done((), n),
        log.len() > n,
        log[n as int] == Reply::Profiles(accounts),
        accounts@.len() > 0,
        selected_run(config, log, n + 1) == Run::Done(selected, k),
    ensures
        plan_list_run(config, force, log, at) matches Run::Done(plan, _) ==> plan.guidance is None
            && plan.accounts == accounts@ && plan.selected == selected,
{
}

/// The program is set up once: where accounts are enrolled already, nothing is imported.
pub proof fn law_the_program_is_set_up_once(
    config: Config,
    assume_yes: bool,
    log: Seq<Reply>,
    at: nat,
    n: nat,
    accounts: Vec<Profile>,
    k: nat,
)
    requires
        locked_run(config, log, at) == Run::Done((), n),
        log.len() > n,
        log[n as int] == Reply::Profiles(accounts),
    ensures
        accounts@.len() == 0 && log.len() == n + 1 ==> init_run(config, assume_yes, log, at)
            == Run::<()>::Ask(RequestView::IsFile(config.session_auth@)),
        accounts@.len() > 0 && log.len() == n + 1 ==> init_run(config, assume_yes, log, at)
            == Run::<()>::Ask(RequestView::ReadText(config.active_profile@)),
        accounts@.len() > 0 && selected_run(config, log, n + 1) == Run::Done(None::<u32>, k)
            ==> init_run(config, assume_yes, log, at) is Fail && status_run(
            config,
            assume_yes,
            log,
            at,
        ) is Fail,
{
}

/// A quota is read before an account is shown only where that is wanted and the last one is not fresh.
pub proof fn law_a_quota_is_read_before_it_is_shown(
    config: Config,
    refresh: bool,
    profile: Profile,
    slot: u32,
    log: Seq<Reply>,
    at: nat,
)
    requires
        log.len() == at + 1,
        !config.skip_usage_refresh,
    ensures
        !refresh ==> spin_run(config, refresh, profile, slot, log, at) == Run::Done(false, at),
        refresh && log[at as int] == Reply::Flag(true) ==> spin_run(
            config,
            refresh,
            profile,
            slot,
            log,
            at,
        ) == Run::Done(false, at + 1),
        refresh && log[at as int] == Reply::Flag(false) ==> spin_run(
            config,
            refresh,
            profile,
            slot,
            log,
            at,
        ) == Run::<bool>::Ask(
            RequestView::StartSpinner("Fetching usage [1/1] "@ + profile.auth.identity@.label()),
        ),
{
}

// ---------------------------------------------------------------- logins and switches

/// A login takes place in a directory of its own in the account store, with the settings of the user; it
/// has gone well where Codex says so and has left credentials there.
pub proof fn law_where_a_login_takes_place(
    config: Config,
    options: Seq<Option<Seq<char>>>,
    log: Seq<Reply>,
    home: String,
    fine: bool,
    there: bool,
)
    requires
        log == seq![
            Reply::Done,
            Reply::Text(home),
            Reply::Flag(false),
            Reply::Flag(fine),
            Reply::Flag(there),
        ],
    ensures
        login_run(config, options, log.take(0), 0) == Run::<Seq<char>>::Ask(
            RequestView::PrivateDir(config.account_store@),
        ),
        login_run(config, options, log.take(1), 0) == Run::<Seq<char>>::Ask(
            RequestView::TempDir { directory: config.account_store@, prefix: ".login-"@ },
        ),
        login_run(config, options, log.take(2), 0) == Run::<Seq<char>>::Ask(
            RequestView::IsFile(joined(config.codex_home@, "config.toml"@)),
        ),
        login_run(config, options, log.take(3), 0) == Run::<Seq<char>>::Ask(
            RequestView::Login { arguments: login_arguments(options), home: home@ },
        ),
        !fine ==> login_run(config, options, log, 0) is Fail,
        fine ==> login_run(config, options, log.take(4), 0) == Run::<Seq<char>>::Ask(
            RequestView::IsFile(joined(home@, "auth.json"@)),
        ),
        fine && there ==> login_run(config, options, log, 0) == Run::Done(
            joined(home@, "auth.json"@),
            5,
        ),
        fine && !there ==> login_run(config, options, log, 0) is Fail,
{
}

/// Every command takes the lock of the store first, and then looks at what the session holds.
pub proof fn law_every_command_follows_the_session(
    config: Config,
    text: Seq<char>,
    flag: bool,
    options: Seq<Option<String>>,
    log: Seq<Reply>,
    at: nat,
    request: RequestView,
)
    requires
        first_foreign(options) is None,
        (log.len() == at && request == RequestView::Lock(config.switch_lock@)) || (log.len() == at
            + 1 && log[at as int] == Reply::Done && request == RequestView::ReadAuth(
            config.session_auth@,
        )),
    ensures
        locked_run(config, log, at) == Run::<()>::Ask(request),
        init_run(config, flag, log, at) == Run::<()>::Ask(request),
        status_run(config, flag, log, at) == Run::<()>::Ask(request),
        switch_run(config, text, log, at) == Run::<()>::Ask(request),
        add_run(config, flag, options, log, at) == Run::<()>::Ask(request),
        import_run(config, text, log, at) == Run::<()>::Ask(request),
        relogin_run(config, text, options, log, at) == Run::<()>::Ask(request),
        plan_list_run(config, flag, log, at) == Run::<ListPlanView>::Ask(request),
{
}

/// A switch looks at the quota of the account that was named, and then takes what is saved of it.
pub proof fn law_a_switch_is_to_the_account_that_was_named(
    config: Config,
    selector: Seq<char>,
    log: Seq<Reply>,
    at: nat,
    n: nat,
    target: Profile,
    m: nat,
    k: nat,
)
    requires
        locked_run(config, log, at) == Run::Done((), n),
        resolve_run(config, selector, log, n) == Run::Done(target, m),
    ensures
        log.len() == m ==> switch_run(config, selector, log, at) == Run::<()>::Ask(
            RequestView::Usage(target.slot),
        ),
        warn_run(target, log, m) == Run::Done((), k) && log.len() == k ==> switch_run(
            config,
            selector,
            log,
            at,
        ) == Run::<()>::Ask(RequestView::ReadAuth(config.profile_auth_path(target.slot))),
{
}

/// A login anew is for the account that was named, and what was recorded of its quota is forgotten.
pub proof fn law_a_new_login_forgets_the_quota(
    config: Config,
    selector: Seq<char>,
    options: Seq<Option<String>>,
    log: Seq<Reply>,
    at: nat,
    n: nat,
    target: Profile,
    m: nat,
    credentials: Seq<char>,
    p: nat,
    account: (u32, AuthDocument),
)
    requires
        first_foreign(options) is None,
        locked_run(config, log, at) == Run::Done((), n),
        resolve_run(config, selector, log, n) == Run::Done(target, m),
    ensures
        log.len() == m ==> relogin_run(config, selector, options, log, at) == Run::<()>::Ask(
            RequestView::Print(relogin_text(target)),
        ),
        log.len() == m + 1 && log[m as int] == Reply::Done ==> relogin_run(
            config,
            selector,
            options,
            log,
            at,
        ) == Run::<()>::Ask(RequestView::PrivateDir(config.account_store@)),
        log.len() > m && log[m as int] == Reply::Done && login_run(
            config,
            opt_texts(options),
            log,
            m + 1,
        ) == Run::Done(credentials, p) && replace_run(config, target.slot, credentials, log, p)
            == Run::Done(account, log.len()) ==> relogin_run(config, selector, options, log, at)
            == Run::<()>::Ask(RequestView::Remove(config.profile_usage_path(target.slot))),
{
}

/// Whether a command does what a procedure does, and no more.
pub open spec fn does(command: Run<Option<u64>>, work: Run<()>) -> bool {
    match work {
        Run::Ask(request) => command == Run::<Option<u64>>::Ask(request),
        Run::Fail(error, n) => command == Run::<Option<u64>>::Fail(error, n),
        Run::Done(_, n) => command == Run::Done(None::<u64>, n),
    }
}

/// Each command does its own work, with what it was given: a status reads the quota where it is not
/// fresh, a list is watched where it is said to be, and a watch always.
pub proof fn law_each_command_does_its_own_work(
    config: Config,
    account: Option<String>,
    yes: bool,
    watch: bool,
    interval: u64,
    text: String,
    device_auth: bool,
    options: Vec<Option<String>>,
    log: Seq<Reply>,
    at: nat,
)
    ensures
        does(
            command_run(Cli { command: Some(CliCommand::Init { yes }), account }, config, log, at),
            init_run(config, yes, log, at),
        ),
        command_run(
            Cli { command: Some(CliCommand::List { watch, interval }), account },
            config,
            log,
            at,
        ) == list_run(watch, interval, log, at),
        command_run(
            Cli { command: Some(CliCommand::Watch { interval }), account },
            config,
            log,
            at,
        ) == list_run(true, interval, log, at),
        does(
            command_run(Cli { command: Some(CliCommand::Status), account }, config, log, at),
            status_run(config, true, log, at),
        ),
        does(
            command_run(
                Cli { command: Some(CliCommand::Use { account: text }), account },
                config,
                log,
                at,
            ),
            switch_run(config, text@, log, at),
        ),
        does(
            command_run(
                Cli { command: Some(CliCommand::Add { device_auth, options }), account },
                config,
                log,
                at,
            ),
            add_run(config, device_auth, options@, log, at),
        ),
        does(
            command_run(
                Cli { command: Some(CliCommand::Import { auth_file: text }), account },
                config,
                log,
                at,
            ),
            import_run(config, text@, log, at),
        ),
        does(
            command_run(
                Cli { command: Some(CliCommand::Relogin { account: text, options }), account },
                config,
                log,
                at,
            ),
            relogin_run(config, text@, options@, log, at),
        ),
{
}

// ---------------------------------------------------------------- messages

proof fn lemma_within(inner: Seq<char>, middle: Seq<char>, outer: Seq<char>)
    requires
        stands_in(inner, middle),
        stands_in(middle, outer),
    ensures
        stands_in(inner, outer),
{
    let (a, b) = choose|a: Seq<char>, b: Seq<char>| middle == #[trigger] (a + inner + b);
    let (c, d) = choose|c: Seq<char>, d: Seq<char>| outer == #[trigger] (c + middle + d);
    assert(outer =~= (c + a) + inner + (b + d));
}

proof fn lemma_between(before: Seq<char>, inner: Seq<char>, after: Seq<char>)
    ensures
        stands_in(inner, before + inner + after),
{
}

proof fn lemma_named(account: (u32, AuthDocument))
    ensures
        stands_in(decimal_text(account.0 as nat), number_text(account.0)),
        stands_in(account.1.identity@.label(), name_text(account.1)),
{
    lemma_between(
        Style::Accent.opening(),
        decimal_text(account.0 as nat),
        Style::Accent.closing(),
    );
    lemma_between(
        Style::Emphasis.opening(),
        account.1.identity@.label(),
        Style::Emphasis.closing(),
    );
}

proof fn lemma_says(account: (u32, AuthDocument), text: Seq<char>)
    requires
        stands_in(number_text(account.0), text),
        stands_in(name_text(account.1), text),
    ensures
        stands_in(decimal_text(account.0 as nat), text),
        stands_in(account.1.identity@.label(), text),
{
    lemma_named(account);
    lemma_within(decimal_text(account.0 as nat), number_text(account.0), text);
    lemma_within(account.1.identity@.label(), name_text(account.1), text);
}

/// What is said of an account that was imported, enrolled, logged in to anew or selected names it by
/// its number and by what it is called.
pub proof fn law_messages_name_the_account(account: (u32, AuthDocument))
    ensures
        stands_in(decimal_text(account.0 as nat), imported_text(account)),
        stands_in(account.1.identity@.label(), imported_text(account)),
        stands_in(decimal_text(account.0 as nat), enrolled_text(account)),
        stands_in(account.1.identity@.label(), enrolled_text(account)),
        stands_in(decimal_text(account.0 as nat), relogged_text(account)),
        stands_in(account.1.identity@.label(), relogged_text(account)),
        stands_in(decimal_text(account.0 as nat), switched_text(account)),
        stands_in(account.1.identity@.label(), switched_text(account)),
{
    let number = number_text(account.0);
    let name = name_text(account.1);
    let none = Seq::<char>::empty();
    lemma_between(mark() + " Imported "@, name, " as account "@ + number + "."@);
    lemma_between(mark() + " Imported "@ + name + " as account "@, number, "."@);
    assert(imported_text(account) =~= mark() + " Imported "@ + name + (" as account "@ + number
        + "."@));
    lemma_says(account, imported_text(account));
    lemma_between("\n"@ + mark() + " Enrolled "@, name, " as account "@ + number + "."@);
    lemma_between("\n"@ + mark() + " Enrolled "@ + name + " as account "@, number, "."@);
    assert(enrolled_text(account) =~= "\n"@ + mark() + " Enrolled "@ + name + (" as account "@
        + number + "."@));
    lemma_says(account, enrolled_text(account));
    lemma_between(mark() + " Re-authenticated "@, name, " as account "@ + number + "."@);
    lemma_between(mark() + " Re-authenticated "@ + name + " as account "@, number, "."@);
    assert(relogged_text(account) =~= mark() + " Re-authenticated "@ + name + (" as account "@
        + number + "."@));
    lemma_says(account, relogged_text(account));
    lemma_between(mark() + " Account "@, number, " ("@ + name + ") is now selected."@);
    lemma_between(mark() + " Account "@ + number + " ("@, name, ") is now selected."@);
    assert(switched_text(account) =~= mark() + " Account "@ + number + (" ("@ + name
        + ") is now selected."@));
    lemma_says(account, switched_text(account));
}

}
