//! How a boost begins, goes on and ends.
use crate::account_store::Profile;
use crate::app_server::baseline_run;
use crate::boost::{
    activated_step, await_run, begin_step, cleanup_step, collect_run, control_run,
    controller_arguments, defaults_step, discover_step, finish_step, first_quotas_run, has_started,
    last_step, launch_run, line_if, linger_run, monitor_run, observations_run, pause_run,
    phase_name, prefixed, previous_run, read_run, restore_run, restore_step, round_step, run_name,
    saved_step, server_step, servers_step, settled, shown_state, slots_of, start_run,
    started_verdict, stop_bytes, stop_run, store_lock_run, task_error, task_step, tasks_step,
    verdict_run, work_step, BegunView, RoundView, Step,
};
use crate::boost_policy::{deadline_of, weekly_quota};
use crate::boost_state::{
    chosen_sockets, enrolled, lock_path, log_path, one_task, place, preparing_state, sorted_paths,
    state_path, stop_path, with_task, with_tasks, without_task, Observation, Phase, State,
    StateView, TaskView,
};
use crate::boost_tasks::{
    boost_own_run, boostable, check_run, connect_run, cutoff_run, directed, interrupt_run,
    loaded_run, matching, model_run, model_verdict, page_run, preflight_run, set_run, settings_run,
    settle_run, turn_under_way, update_params,
};
use crate::config::Config;
use crate::effects::{Reply, RequestView, Run};
use crate::json::{lookup, JsonView};
use crate::resets::{one_reading_each, reset_between};
use crate::text::decimal_text;
use crate::usage::UsageRecord;
use vstd::prelude::*;

verus! {

// ---------------------------------------------------------------- the end of a boost

/// A boost is over as soon as a signal asks for its end, somebody has asked for it in a file, or the
/// deadline is there; until all three were looked at and none is so, it goes on.
pub proof fn law_what_ends_a_boost(config: Config, deadline: i64, log: Seq<Reply>, at: nat)
    requires
        at <= log.len(),
    ensures
        cutoff_run(config, deadline, log, at) matches Run::Done(over, n) ==> {
            &&& at < n <= log.len()
            &&& over is Some <==> {
                ||| log[at as int] == Reply::Flag(true)
                ||| n >= at + 2 && log[at as int + 1] == Reply::Flag(true)
                ||| n >= at + 3 && (log[at as int + 2] matches Reply::Time(now) && now >= deadline)
            }
            &&& over is None ==> n == at + 3 && log[at as int] == Reply::Flag(false)
                && log[at as int + 1] == Reply::Flag(false) && (log[at as int + 2] matches
                Reply::Time(now) && now < deadline)
        },
        at < log.len() && log[at as int] == Reply::Flag(true) ==> cutoff_run(
            config,
            deadline,
            log,
            at,
        ) matches Run::Done(Some(_), _),
        log.len() == at ==> cutoff_run(config, deadline, log, at) == Run::<
            Option<Seq<char>>,
        >::Ask(RequestView::Signalled),
        log.len() == at + 1 && log[at as int] == Reply::Flag(false) ==> cutoff_run(
            config,
            deadline,
            log,
            at,
        ) == Run::<Option<Seq<char>>>::Ask(RequestView::Exists(stop_path(config))),
        log.len() == at + 2 && log[at as int] == Reply::Flag(false) && log[at as int + 1]
            == Reply::Flag(false) ==> cutoff_run(config, deadline, log, at) == Run::<
            Option<Seq<char>>,
        >::Ask(RequestView::Now),
{
}

/// Whether the three looks for an end of a boost found none.
pub open spec fn goes_on(deadline: i64, log: Seq<Reply>, at: nat) -> bool {
    &&& at + 3 <= log.len()
    &&& log[at as int] == Reply::Flag(false)
    &&& log[at as int + 1] == Reply::Flag(false)
    &&& log[at as int + 2] matches Reply::Time(now) && now < deadline
}

/// A round of a boost that begins with the reading of a reset, on whichever account, ends the boost at
/// once, before any task is looked at, for a reason that names the account; and so does an end that
/// somebody asked for or a deadline that is there.
pub proof fn law_a_reset_ends_the_round(
    config: Config,
    state: StateView,
    previous: Seq<Observation>,
    current: Vec<Observation>,
    last: u64,
    log: Seq<Reply>,
    at: nat,
)
    requires
        one_reading_each(previous),
        goes_on(state.deadline, log, at),
        at + 3 < log.len(),
        log[at as int + 3] == Reply::Quotas(current),
        exists|j: int, i: int| #[trigger] reset_between(previous, current@, j, i),
    ensures
        exists|j: int, i: int|
            #[trigger]
            reset_between(previous, current@, j, i) && round_step(
                config,
                state,
                previous,
                last,
                log,
                at,
            ) == Step::Done(
                RoundView::Over(
                    "Codex weekly quota reset observed on account "@ + decimal_text(
                        current@[i].slot as nat,
                    ),
                ),
                state,
                at + 4,
            ),
{
    crate::resets::law_every_reading_is_held_against_the_last(
        log,
        at + 3,
        previous,
        current,
        None,
        last,
    );
}

/// A boost whose end was asked for, or whose deadline is there, is over before a round reads or
/// changes anything.
pub proof fn law_a_round_looks_for_the_end_first(
    config: Config,
    state: StateView,
    previous: Seq<Observation>,
    last: u64,
    log: Seq<Reply>,
    at: nat,
)
    requires
        at < log.len(),
        log[at as int] == Reply::Flag(true) || at + 1 < log.len() && log[at as int] == Reply::Flag(
            false,
        ) && log[at as int + 1] == Reply::Flag(true) || at + 2 < log.len() && log[at as int]
            == Reply::Flag(false) && log[at as int + 1] == Reply::Flag(false) && (log[at as int + 2]
            matches Reply::Time(now) && now >= state.deadline),
    ensures
        round_step(config, state, previous, last, log, at) matches Step::Done(
            RoundView::Over(_),
            after,
            _,
        ) && after == state,
{
}

/// A boost does not go on without fresh quotas: after a minute without a reading a round fails before
/// it looks at a server.
pub proof fn law_a_boost_needs_fresh_quotas(
    config: Config,
    state: StateView,
    latest: Option<nat>,
    seen: u64,
    now: u64,
    log: Seq<Reply>,
    at: nat,
)
    requires
        at < log.len(),
        log[at as int] == Reply::Number(now),
    ensures
        now > seen + 60_000_000_000 ==> work_step(config, state, latest, seen, log, at) is Fail,
        now <= seen + 60_000_000_000 && log.len() == at + 1 && state.sockets.len() > 0 ==> work_step(
            config,
            state,
            latest,
            seen,
            log,
            at,
        ) == Step::<RoundView>::Ask(RequestView::Dial(state.sockets[0])),
{
}

// ---------------------------------------------------------------- settings

proof fn lemma_four(
    a: (Seq<char>, JsonView),
    b: (Seq<char>, JsonView),
    c: (Seq<char>, JsonView),
    d: (Seq<char>, JsonView),
    name: Seq<char>,
)
    ensures
        lookup(seq![a, b, c, d], name) == (if d.0 == name {
            Some(d.1)
        } else if c.0 == name {
            Some(c.1)
        } else if b.0 == name {
            Some(b.1)
        } else if a.0 == name {
            Some(a.1)
        } else {
            None
        }),
{
    reveal_with_fuel(lookup, 5);
    let whole = seq![a, b, c, d];
    assert(whole.drop_last() =~= seq![a, b, c]);
    assert(seq![a, b, c].drop_last() =~= seq![a, b]);
    assert(seq![a, b].drop_last() =~= seq![a]);
    assert(seq![a].drop_last() =~= Seq::<(Seq<char>, JsonView)>::empty());
}

/// A boost asks for the strongest model at ultra effort in fast mode; what it leaves behind is the
/// same model at medium effort in the default mode. Either way the settings are those of the task
/// that is named.
pub proof fn law_what_a_boost_sets(id: Seq<char>, boosted: bool)
    ensures
        update_params(id, boosted).text_at("threadId"@) == Some(id),
        update_params(id, boosted).text_at("model"@) == Some("gpt-6-astra"@),
        update_params(id, true).text_at("effort"@) == Some("ultra"@),
        update_params(id, true).text_at("serviceTier"@) == Some("fast"@),
        update_params(id, false).text_at("effort"@) == Some("medium"@),
        update_params(id, false).text_at("serviceTier"@) == Some("default"@),
{
    reveal_strlit("threadId");
    reveal_strlit("model");
    reveal_strlit("effort");
    reveal_strlit("serviceTier");
    assert("threadId"@.len() == 8);
    assert("model"@.len() == 5);
    assert("effort"@.len() == 6);
    assert("serviceTier"@.len() == 11);
    lemma_params(id, true);
    lemma_params(id, false);
}

proof fn lemma_params(id: Seq<char>, boosted: bool)
    requires
        "threadId"@.len() == 8,
        "model"@.len() == 5,
        "effort"@.len() == 6,
        "serviceTier"@.len() == 11,
    ensures
        update_params(id, boosted).text_at("threadId"@) == Some(id),
        update_params(id, boosted).text_at("model"@) == Some(crate::boost_policy::BOOST_MODEL@),
        update_params(id, boosted).text_at("effort"@) == Some(
            crate::boost_tasks::effort_for(boosted),
        ),
        update_params(id, boosted).text_at("serviceTier"@) == Some(
            crate::boost_tasks::tier_for(boosted),
        ),
{
    let a = ("effort"@, JsonView::Text(crate::boost_tasks::effort_for(boosted)));
    let b = ("model"@, JsonView::Text(crate::boost_policy::BOOST_MODEL@));
    let c = ("serviceTier"@, JsonView::Text(crate::boost_tasks::tier_for(boosted)));
    let d = ("threadId"@, JsonView::Text(id));
    lemma_four(a, b, c, d, "threadId"@);
    lemma_four(a, b, c, d, "model"@);
    lemma_four(a, b, c, d, "effort"@);
    lemma_four(a, b, c, d, "serviceTier"@);
}

/// A task counts as set exactly where it reports what was asked for; fast mode has a second name.
pub proof fn law_settings_are_what_was_asked_for(settings: JsonView, id: Seq<char>, boosted: bool)
    ensures
        matching(settings, boosted) <==> {
            let asked = update_params(id, boosted);
            &&& settings.text_at("model"@) == asked.text_at("model"@)
            &&& settings.text_at("reasoningEffort"@) == asked.text_at("effort"@)
            &&& settings.text_at("serviceTier"@) == asked.text_at("serviceTier"@) || boosted
                && settings.text_at("serviceTier"@) == Some("priority"@)
        },
{
    law_what_a_boost_sets(id, boosted);
    reveal_strlit("ultra");
    reveal_strlit("medium");
    assert("ultra"@.len() == 5);
    assert("medium"@.len() == 6);
}

/// Setting a task asks for exactly these settings, and it is done only when the task itself has
/// reported them.
pub proof fn law_settings_are_asked_for_and_seen(
    id: Seq<char>,
    boosted: bool,
    log: Seq<Reply>,
    at: nat,
)
    requires
        at <= log.len(),
    ensures
        set_run(log.take(at as int), at, id, boosted) == Run::<()>::Ask(
            RequestView::Call {
                method: "thread/settings/update"@,
                params: update_params(id, boosted),
            },
        ),
        set_run(log, at, id, boosted) matches Run::Done(_, n) ==> at + 3 <= n <= log.len() && (
        log[n - 1] matches Reply::Message(settings) && matching(settings@, boosted)),
        at + 3 <= log.len() && log[at as int] is Message && log[at as int + 1] is Number && (
        log[at as int + 2] matches Reply::Message(settings) && matching(settings@, boosted))
            ==> set_run(log, at, id, boosted) == Run::Done((), at + 3),
{
    if at + 1 < log.len() && log[at as int + 1] is Number {
        let now = log[at as int + 1]->Number_0;
        lemma_settled(log, at + 2, id, boosted, now + crate::boost_tasks::SETTLE_TIME);
    }
}

proof fn lemma_settled(log: Seq<Reply>, at: nat, id: Seq<char>, boosted: bool, deadline: int)
    requires
        at <= log.len(),
    ensures
        settle_run(log, at, id, boosted, deadline) matches Run::Done(_, n) ==> at < n <= log.len()
            && (log[n - 1] matches Reply::Message(settings) && matching(settings@, boosted)),
    decreases log.len() - at,
{
    if let Run::Done(found, n) = settings_run(log, at, id) {
        if n + 1 < log.len() && log[n as int] is Number && log[n as int + 1] is Done {
            lemma_settled(log, n + 2, id, boosted, deadline);
        }
    }
}

// ---------------------------------------------------------------- tasks

/// A task that is put back is interrupted where it is running, and is then set to what a boost leaves
/// behind; one without anything to put back is left alone.
pub proof fn law_a_task_is_stopped_and_put_back(
    task: TaskView,
    log: Seq<Reply>,
    at: nat,
    turn: Seq<char>,
)
    requires
        log.len() == at + 3,
        log[at as int] is Done,
        log[at as int + 1] is Message,
        log[at as int + 2] matches Reply::Message(page) && (page@.list_at("data"@) matches Some(
            turns,
        ) && (turn_under_way(turns) is None || turn_under_way(turns) == Some(turn))),
    ensures
        restore_run(log.take(at as int), at, task) == Run::<()>::Ask(
            RequestView::Dial(task.socket),
        ),
        ({
            let turns = log[at as int + 2]->Message_0@.list_at("data"@)->0;
            if turn_under_way(turns) is None {
                restore_run(log, at, task) == Run::<()>::Ask(
                    RequestView::Call {
                        method: "thread/settings/update"@,
                        params: update_params(task.thread_id, false),
                    },
                )
            } else {
                restore_run(log, at, task) == Run::<()>::Ask(
                    RequestView::Call {
                        method: "turn/interrupt"@,
                        params: JsonView::Object(
                            seq![
                                ("threadId"@, JsonView::Text(task.thread_id)),
                                ("turnId"@, JsonView::Text(turn)),
                            ],
                        ),
                    },
                )
            }
        }),
{
}

/// The turn that is under way is the last one, where it is in progress.
pub proof fn law_the_last_turn_may_be_under_way(turns: Seq<JsonView>)
    ensures
        turns.len() == 0 ==> turn_under_way(turns) is None,
        turns.len() > 0 && turns[0].text_at("status"@) != Some("inProgress"@) ==> turn_under_way(
            turns,
        ) is None,
        turns.len() > 0 && turns[0].text_at("status"@) == Some("inProgress"@) ==> turn_under_way(
            turns,
        ) == turns[0].text_at("id"@),
{
}

/// A task that is under way is interrupted, boosted and told to go on; one that rests is boosted only.
pub proof fn law_an_interrupted_task_goes_on(
    config: Config,
    deadline: i64,
    id: Seq<char>,
    log: Seq<Reply>,
    at: nat,
    was_running: bool,
    n: nat,
    k: nat,
)
    requires
        interrupt_run(log, at, id) == Run::Done(was_running, n),
        goes_on(deadline, log, n),
        set_run(log, n + 3, id, true) == Run::Done((), k),
        k <= log.len(),
    ensures
        !was_running ==> boost_own_run(config, deadline, log, at, id) == Run::Done((), k),
        was_running && goes_on(deadline, log, k) && log.len() == k + 3 ==> (boost_own_run(
            config,
            deadline,
            log,
            at,
            id,
        ) matches Run::Ask(RequestView::Call { method, params }) && method == "turn/start"@
            && params.text_at("threadId"@) == Some(id) && params.text_at("effort"@) == Some(
            "ultra"@,
        ) && params.text_at("serviceTier"@) == Some("fast"@)),
{
    if was_running && goes_on(deadline, log, k) && log.len() == k + 3 {
        lemma_continue(id);
    }
}

proof fn lemma_continue(id: Seq<char>)
    ensures
        crate::boost_tasks::continue_params(id).text_at("threadId"@) == Some(id),
        crate::boost_tasks::continue_params(id).text_at("effort"@) == Some("ultra"@),
        crate::boost_tasks::continue_params(id).text_at("serviceTier"@) == Some("fast"@),
{
    reveal_strlit("threadId");
    reveal_strlit("model");
    reveal_strlit("effort");
    reveal_strlit("serviceTier");
    assert("threadId"@.len() == 8);
    assert("model"@.len() == 5);
    assert("effort"@.len() == 6);
    assert("serviceTier"@.len() == 11);
    reveal_with_fuel(lookup, 6);
    if let JsonView::Object(fields) = crate::boost_tasks::continue_params(id) {
        assert(fields.drop_last().last() == fields[3]);
        assert(fields.drop_last().drop_last().last() == fields[2]);
        assert(fields.drop_last().drop_last().drop_last().last() == fields[1]);
        assert(fields.drop_last().drop_last().drop_last().drop_last().last() == fields[0]);
        assert(fields[0] == ("effort"@, JsonView::Text("ultra"@)));
        reveal_strlit("input");
        assert("input"@.len() == 5);
    }
}

/// Every task on a page belongs to a boost that Codex itself serves, whatever its place on the page,
/// and no other does; a task that somebody else directs is known as a child.
pub proof fn law_every_own_task_on_a_page_is_taken(
    log: Seq<Reply>,
    at: nat,
    ids: Seq<JsonView>,
    socket: Seq<char>,
    tasks: Seq<TaskView>,
    more: Seq<TaskView>,
    n: nat,
    i: int,
)
    requires
        at <= log.len(),
        page_run(log, at, ids, socket, tasks) == Run::Done(more, n),
        0 <= i < ids.len(),
    ensures
        n == at + ids.len() <= log.len(),
        ids[i].text() is Some,
        log[at + i] matches Reply::Message(metadata) && (metadata@.get("thread"@) matches Some(
            thread,
        ) && (thread.text_at("modelProvider"@) == Some("openai"@) ==> more.contains(
            TaskView { socket, thread_id: ids[i].text()->0, child: directed(thread) },
        ))),
    decreases ids.len(),
{
    let rest = ids.skip(1);
    let thread = log[at as int]->Message_0@.get("thread"@)->0;
    let first = TaskView { socket, thread_id: ids[0].text()->0, child: directed(thread) };
    let taken = if thread.text_at("modelProvider"@) == Some("openai"@) {
        tasks.push(first)
    } else {
        tasks
    };
    lemma_page_keeps(log, at + 1, rest, socket, taken, more, n);
    if i > 0 {
        assert(rest[i - 1] == ids[i]);
        law_every_own_task_on_a_page_is_taken(
            log,
            at + 1,
            rest,
            socket,
            taken,
            more,
            n,
            i - 1,
        );
        assert(log[at + 1 + (i - 1)] == log[at + i]);
    } else if thread.text_at("modelProvider"@) == Some("openai"@) {
        assert(taken.last() == first);
        assert(taken.contains(first));
    }
}

proof fn lemma_page_keeps(
    log: Seq<Reply>,
    at: nat,
    ids: Seq<JsonView>,
    socket: Seq<char>,
    tasks: Seq<TaskView>,
    more: Seq<TaskView>,
    n: nat,
)
    requires
        at <= log.len(),
        page_run(log, at, ids, socket, tasks) == Run::Done(more, n),
    ensures
        n == at + ids.len() <= log.len(),
        forall|task: TaskView| tasks.contains(task) ==> #[trigger] more.contains(task),
        more.len() <= tasks.len() + ids.len(),
        forall|task: TaskView| #[trigger]
            more.contains(task) ==> tasks.contains(task) || task.socket == socket,
    decreases ids.len(),
{
    if ids.len() > 0 {
        let thread = log[at as int]->Message_0@.get("thread"@)->0;
        let first = TaskView { socket, thread_id: ids[0].text()->0, child: directed(thread) };
        let taken = if thread.text_at("modelProvider"@) == Some("openai"@) {
            tasks.push(first)
        } else {
            tasks
        };
        lemma_page_keeps(log, at + 1, ids.skip(1), socket, taken, more, n);
        assert forall|task: TaskView| tasks.contains(task) implies #[trigger] more.contains(
            task,
        ) by {
            let k = choose|k: int| 0 <= k < tasks.len() && tasks[k] == task;
            assert(taken[k] == task);
        }
        assert forall|task: TaskView| #[trigger] more.contains(task) implies tasks.contains(task)
            || task.socket == socket by {
            if taken.contains(task) && !tasks.contains(task) {
                let k = choose|k: int| 0 <= k < taken.len() && taken[k] == task;
                if k < tasks.len() {
                    assert(tasks[k] == task);
                }
            }
        }
    }
}

/// A task is directed by somebody else where it has a parent, or takes no input of its own.
pub proof fn law_who_directs_a_task(thread: JsonView)
    ensures
        (thread.get("parentThreadId"@) matches Some(parent) && parent !is Null) ==> directed(thread),
        thread.get("canAcceptDirectInput"@) == Some(JsonView::Bool(false)) ==> directed(thread),
        (thread.get("parentThreadId"@) is None || thread.get("parentThreadId"@) == Some(
            JsonView::Null,
        )) && thread.get("canAcceptDirectInput"@) != Some(JsonView::Bool(false)) ==> !directed(
            thread,
        ),
{
}

// ---------------------------------------------------------------- all of them

/// A look through all tasks of a server that comes to no end has come past every one of them.
pub proof fn law_every_task_is_looked_at(
    config: Config,
    state: StateView,
    tasks: Seq<TaskView>,
    log: Seq<Reply>,
    at: nat,
    i: int,
)
    requires
        0 <= i < tasks.len(),
        tasks_step(config, state, tasks, log, at) matches Step::Done(None, _, _),
    ensures
        exists|s: StateView, n: nat|
            (#[trigger] task_step(config, s, tasks[i], log, n)) matches Step::Done(None, _, _),
    decreases tasks.len(),
{
    if i == 0 {
        assert(task_step(config, state, tasks[0], log, at) matches Step::Done(None, _, _));
    } else if let Step::Done(_, s, n) = task_step(config, state, tasks[0], log, at) {
        assert(tasks.skip(1)[i - 1] == tasks[i]);
        law_every_task_is_looked_at(config, s, tasks.skip(1), log, n, i - 1);
    }
}

/// A round that comes to no end has looked at every server of the boost.
pub proof fn law_every_server_is_looked_at(
    config: Config,
    state: StateView,
    paths: Seq<Seq<char>>,
    log: Seq<Reply>,
    at: nat,
    i: int,
)
    requires
        0 <= i < paths.len(),
        servers_step(config, state, paths, log, at) matches Step::Done(None, _, _),
    ensures
        exists|s: StateView, n: nat|
            (#[trigger] server_step(config, s, paths[i], log, n)) matches Step::Done(None, _, _),
    decreases paths.len(),
{
    if i == 0 {
        assert(server_step(config, state, paths[0], log, at) matches Step::Done(None, _, _));
    } else if let Step::Done(_, s, n) = server_step(config, state, paths[0], log, at) {
        assert(paths.skip(1)[i - 1] == paths[i]);
        law_every_server_is_looked_at(config, s, paths.skip(1), log, n, i - 1);
    }
}

/// Before a boost begins every server is checked, not only the first: each was reached, uses a ChatGPT
/// account and offers what a boost needs.
pub proof fn law_every_server_is_checked(
    log: Seq<Reply>,
    at: nat,
    paths: Seq<Seq<char>>,
    i: int,
)
    requires
        0 <= i < paths.len(),
        preflight_run(log, at, paths) is Done,
    ensures
        exists|n: nat| (#[trigger] check_run(log, n, paths[i])) is Done,
    decreases paths.len(),
{
    if i == 0 {
        assert(check_run(log, at, paths[0]) is Done);
    } else if let Run::Done(_, n) = check_run(log, at, paths[0]) {
        assert(paths.skip(1)[i - 1] == paths[i]);
        law_every_server_is_checked(log, n, paths.skip(1), i - 1);
    }
}

/// A server is fit for a boost only where it was reached and says that it uses a ChatGPT account.
pub proof fn law_a_boost_needs_a_chatgpt_account(log: Seq<Reply>, at: nat, path: Seq<char>)
    requires
        at <= log.len(),
        check_run(log, at, path) is Done,
    ensures
        at + 2 <= log.len(),
        check_run(log.take(at as int), at, path) == Run::<()>::Ask(RequestView::Dial(path)),
        log[at as int] is Done,
        log[at as int + 1] matches Reply::Message(answer) && (answer@.get("account"@) matches Some(
            account,
        ) && account.text_at("type"@) == Some("chatgpt"@)),
{
}

/// A model will do for a boost exactly where it offers ultra and medium effort and fast mode, in
/// whatever order.
pub proof fn law_what_a_model_has_to_offer(
    model: JsonView,
    efforts: Seq<JsonView>,
    tiers: Seq<JsonView>,
)
    requires
        model.list_at("supportedReasoningEfforts"@) == Some(efforts),
        model.list_at("serviceTiers"@) == Some(tiers),
    ensures
        boostable(model) <==> {
            &&& exists|a: int|
                0 <= a < efforts.len() && (#[trigger] efforts[a]).text_at("reasoningEffort"@)
                    == Some("ultra"@)
            &&& exists|b: int|
                0 <= b < efforts.len() && (#[trigger] efforts[b]).text_at("reasoningEffort"@)
                    == Some("medium"@)
            &&& exists|c: int|
                0 <= c < tiers.len() && ((#[trigger] tiers[c]).text_at("id"@) == Some("fast"@)
                    || tiers[c].text_at("id"@) == Some("priority"@))
        },
{
}

/// The model of a boost is found wherever it stands in the catalog.
pub proof fn law_the_model_is_found_anywhere(models: Seq<JsonView>, i: int)
    requires
        0 <= i < models.len(),
        models[i].text_at("model"@) == Some("gpt-6-astra"@),
        forall|j: int| 0 <= j < i ==> (#[trigger] models[j]).text_at("model"@) != Some("gpt-6-astra"@),
    ensures
        model_verdict(models) == Some(boostable(models[i])),
    decreases models.len(),
{
    if i > 0 {
        let rest = models.skip(1);
        assert(rest[i - 1] == models[i]);
        assert forall|j: int| 0 <= j < i - 1 implies (#[trigger] rest[j]).text_at("model"@) != Some(
            "gpt-6-astra"@,
        ) by {
            assert(rest[j] == models[j + 1]);
        }
        assert(models[0].text_at("model"@) != Some("gpt-6-astra"@));
        law_the_model_is_found_anywhere(rest, i - 1);
    }
}

/// A catalog without the model of a boost offers none.
pub proof fn law_a_missing_model_is_missed(models: Seq<JsonView>)
    requires
        forall|j: int|
            0 <= j < models.len() ==> (#[trigger] models[j]).text_at("model"@) != Some(
                "gpt-6-astra"@,
            ),
    ensures
        model_verdict(models) is None,
    decreases models.len(),
{
    if models.len() > 0 {
        assert(models[0].text_at("model"@) != Some("gpt-6-astra"@));
        assert forall|j: int| 0 <= j < models.skip(1).len() implies (
        #[trigger] models.skip(1)[j]).text_at("model"@) != Some("gpt-6-astra"@) by {
            assert(models.skip(1)[j] == models[j + 1]);
        }
        law_a_missing_model_is_missed(models.skip(1));
    }
}

/// A reading of all quotas has one of each account, in order, that came back for it, and each has a
/// usable weekly quota; it fails where one of them does not.
pub proof fn law_every_account_is_read(
    log: Seq<Reply>,
    at: nat,
    slots: Seq<u32>,
    readings: Seq<(u32, UsageRecord)>,
    n: nat,
    i: int,
)
    requires
        at <= log.len(),
        observations_run(log, at, slots) == Run::Done(readings, n),
        0 <= i < slots.len(),
    ensures
        readings.len() == slots.len(),
        n == at + slots.len() <= log.len(),
        readings[i].0 == slots[i],
        log[at + i] == Reply::Usage(readings[i].1),
        weekly_quota(readings[i].1),
    decreases slots.len(),
{
    let before = slots.drop_last();
    let first = observations_run(log, at, before);
    if let Run::Done(some, k) = first {
        if before.len() > 0 {
            law_every_account_is_read(log, at, before, some, k, 0);
        } else {
            assert(some =~= Seq::empty());
        }
        if i < before.len() {
            law_every_account_is_read(log, at, before, some, k, i);
            assert(readings[i] == some[i]);
        }
    }
}

// ---------------------------------------------------------------- putting everything back

proof fn lemma_saved_keeps(config: Config, state: StateView, log: Seq<Reply>, at: nat)
    ensures
        saved_step(config, state, log, at) matches Step::Done(_, s, _) ==> s.errors.len()
            >= state.errors.len() && s.tasks == state.tasks && s.sockets == state.sockets
            && s.defaults_pending == state.defaults_pending && s.activated == state.activated,
        saved_step(config, state, log, at) !is Fail,
{
}

proof fn lemma_restore_all(
    config: Config,
    state: StateView,
    tasks: Seq<TaskView>,
    log: Seq<Reply>,
    at: nat,
    i: int,
)
    requires
        restore_step(config, state, tasks, log, at) is Done,
    ensures
        restore_step(config, state, tasks, log, at)->Done_1.errors.len() >= state.errors.len(),
        restore_step(config, state, tasks, log, at)->Done_1.defaults_pending
            == state.defaults_pending,
        restore_step(config, state, tasks, log, at)->Done_1.errors.len() == 0 && 0 <= i < tasks.len()
            ==> exists|n: nat| (#[trigger] restore_run(log, n, tasks[i])) is Done,
    decreases tasks.len(),
{
    if tasks.len() > 0 {
        let outcome = restore_run(log, at, tasks[0]).attempt();
        if let Run::Done(result, n) = outcome {
            let after = match result {
                Ok(_) => StateView { tasks: without_task(state.tasks, tasks[0]), ..state },
                Err(error) => StateView {
                    errors: state.errors.push(task_error(tasks[0], error)),
                    ..state
                },
            };
            lemma_saved_keeps(config, after, log, n);
            if let Step::Done(_, s, m) = saved_step(config, after, log, n) {
                lemma_restore_all(config, s, tasks.skip(1), log, m, i - 1);
                if i > 0 && i < tasks.len() {
                    assert(tasks.skip(1)[i - 1] == tasks[i]);
                }
                if i == 0 && result is Ok {
                    assert(restore_run(log, at, tasks[0]) is Done);
                }
            }
        }
    }
}

proof fn lemma_with_tasks_keeps(tasks: Seq<TaskView>, more: Seq<TaskView>, task: TaskView)
    requires
        tasks.contains(task),
    ensures
        with_tasks(tasks, more).contains(task),
    decreases more.len(),
{
    if more.len() > 0 {
        let before = with_tasks(tasks, more.drop_last());
        lemma_with_tasks_keeps(tasks, more.drop_last(), task);
        lemma_with_task_keeps(before, more.last(), task);
    }
}

proof fn lemma_place_bounds(tasks: Seq<TaskView>, task: TaskView)
    ensures
        0 <= place(tasks, task) <= tasks.len(),
    decreases tasks.len(),
{
    if tasks.len() > 0 {
        lemma_place_bounds(tasks.skip(1), task);
    }
}

proof fn lemma_with_task_keeps(tasks: Seq<TaskView>, task: TaskView, other: TaskView)
    requires
        tasks.contains(other),
    ensures
        with_task(tasks, task).contains(other),
{
    lemma_place_bounds(tasks, task);
    let k = choose|k: int| 0 <= k < tasks.len() && tasks[k] == other;
    let p = place(tasks, task);
    if !enrolled(tasks, task) {
        let after = tasks.insert(p, task);
        if k < p {
            assert(after[k] == other);
        } else {
            assert(after[k + 1] == other);
        }
    }
}

proof fn lemma_discover_all(
    state: StateView,
    paths: Seq<Seq<char>>,
    log: Seq<Reply>,
    at: nat,
    i: int,
    task: TaskView,
)
    requires
        discover_step(state, paths, log, at) is Done,
    ensures
        ({
            let after = discover_step(state, paths, log, at)->Done_1;
            &&& after.errors.len() >= state.errors.len()
            &&& after.defaults_pending == state.defaults_pending
            &&& state.tasks.contains(task) ==> after.tasks.contains(task)
            &&& after.errors.len() == 0 && 0 <= i < paths.len() ==> exists|n: nat|
                (#[trigger] connect_run(log, n, paths[i])) is Done
        }),
    decreases paths.len(),
{
    if paths.len() > 0 {
        let found = connect_run(log, at, paths[0]).next(
            |n: nat| loaded_run(log, n, paths[0], None, Seq::empty(), Seq::empty()),
        ).attempt();
        if let Run::Done(result, n) = found {
            let after = match result {
                Ok(tasks) => StateView { tasks: with_tasks(state.tasks, tasks), ..state },
                Err(error) => StateView { errors: state.errors.push(error.text()), ..state },
            };
            if let Ok(tasks) = result {
                if state.tasks.contains(task) {
                    lemma_with_tasks_keeps(state.tasks, tasks, task);
                }
                assert(connect_run(log, at, paths[0]) is Done);
            }
            lemma_discover_all(after, paths.skip(1), log, n, i - 1, task);
            if 0 < i < paths.len() {
                assert(paths.skip(1)[i - 1] == paths[i]);
            }
        }
    }
}

/// A cleanup that succeeds has put everything back: every task that the boost had taken, whichever,
/// was stopped and set back, the defaults were written where that was owed, and an active boost was
/// looked for on every one of its servers.
pub proof fn law_everything_is_put_back(
    config: Config,
    state: StateView,
    log: Seq<Reply>,
    at: nat,
    task: TaskView,
    i: int,
)
    requires
        cleanup_step(config, state, log, at) is Done,
    ensures
        state.tasks.contains(task) ==> exists|n: nat|
            (#[trigger] restore_run(log, n, task)) is Done,
        state.defaults_pending ==> exists|n: nat| (#[trigger] baseline_run(config, log, n)) is Done,
        state.activated && 0 <= i < state.sockets.len() ==> exists|n: nat|
            (#[trigger] connect_run(log, n, state.sockets[i])) is Done,
{
    let begun = StateView { phase: Phase::Stopping, errors: Seq::empty(), ..state };
    lemma_saved_keeps(config, begun, log, at);
    if let Step::Done(_, s, n) = saved_step(config, begun, log, at) {
        let found: Step<()> = if s.activated {
            discover_step(s, s.sockets, log, n).next(
                |t: StateView, m: nat| saved_step(config, t, log, m),
            )
        } else {
            Step::Done((), s, n)
        };
        if s.activated {
            lemma_discover_all(s, s.sockets, log, n, i, task);
            if let Step::Done(_, d, m) = discover_step(s, s.sockets, log, n) {
                lemma_saved_keeps(config, d, log, m);
            }
        }
        if let Step::Done(_, t, m) = found {
            let place = t.tasks.index_of(task);
            lemma_restore_all(config, t, t.tasks, log, m, place);
            if let Step::Done(_, u, k) = restore_step(config, t, t.tasks, log, m) {
                lemma_last_needs(config, u, log, k);
                assert(u.errors.len() == 0);
                if state.tasks.contains(task) {
                    assert(t.tasks.contains(task));
                    assert(t.tasks[place] == task);
                }
            }
        }
    }
}

proof fn lemma_last_needs(config: Config, state: StateView, log: Seq<Reply>, at: nat)
    requires
        last_step(config, state, log, at) is Done,
    ensures
        state.errors.len() == 0,
        state.defaults_pending ==> baseline_run(config, log, at) is Done,
{
    if let Step::Done(_, v, p) = defaults_step(config, state, log, at) {
        lemma_saved_keeps(config, settled(v), log, p);
    }
}

/// What a boost records first when it ends is that it is stopping, and why.
pub proof fn law_an_end_is_recorded_first(
    config: Config,
    state: StateView,
    reason: Seq<char>,
    log: Seq<Reply>,
    at: nat,
)
    requires
        log.len() == at,
    ensures
        finish_step(config, state, Ok(reason), log, at) == Step::<()>::Ask(
            RequestView::WriteBoost {
                path: state_path(config),
                boost: StateView {
                    phase: Phase::Stopping,
                    errors: Seq::empty(),
                    reason: Some(reason),
                    ..state
                },
            },
        ),
{
}

/// Adding or taking out a task leaves every other task where it was.
pub proof fn law_other_tasks_stay(tasks: Seq<TaskView>, task: TaskView, other: TaskView)
    requires
        !one_task(task, other),
    ensures
        with_task(tasks, task).contains(other) <==> tasks.contains(other),
        without_task(tasks, task).contains(other) <==> tasks.contains(other),
{
    lemma_place_bounds(tasks, task);
    let p = place(tasks, task);
    let more = with_task(tasks, task);
    if tasks.contains(other) {
        lemma_with_task_keeps(tasks, task, other);
    }
    if more.contains(other) && !enrolled(tasks, task) {
        let k = choose|k: int| 0 <= k < more.len() && more[k] == other;
        if k < p {
            assert(tasks[k] == other);
        } else {
            assert(k != p);
            assert(tasks[k - 1] == other);
        }
    }
    if enrolled(tasks, task) {
        let less = tasks.remove(p);
        if tasks.contains(other) {
            let k = choose|k: int| 0 <= k < tasks.len() && tasks[k] == other;
            assert(k != p);
            if k < p {
                assert(less[k] == other);
            } else {
                assert(less[k - 1] == other);
            }
        }
        if less.contains(other) {
            let k = choose|k: int| 0 <= k < less.len() && less[k] == other;
            if k < p {
                assert(tasks[k] == other);
            } else {
                assert(tasks[k + 1] == other);
            }
        }
    }
}

// ---------------------------------------------------------------- starting and stopping

/// A boost is stopped by telling its controller, where one is running, and by cleaning up otherwise;
/// a boost that is off or stopped already needs neither.
pub proof fn law_how_a_boost_is_stopped(config: Config, log: Seq<Reply>, at: nat, state: State)
    ensures
        log.len() == at ==> stop_run(config, log, at) == Run::<Seq<Seq<char>>>::Ask(
            RequestView::TryLock(lock_path(config)),
        ),
        log.len() == at + 1 && log[at as int] == Reply::Flag(false) ==> stop_run(config, log, at)
            == Run::<Seq<Seq<char>>>::Ask(
            RequestView::Write { path: stop_path(config), bytes: stop_bytes() },
        ),
        log.len() >= at + 2 && log[at as int] == Reply::Flag(true) && log[at as int + 1] is Missing
            ==> (stop_run(config, log, at) matches Run::Done(_, n) && n == at + 2),
        log.len() >= at + 2 && log[at as int] == Reply::Flag(true) && log[at as int + 1]
            == Reply::Boost(state) && state.phase == Phase::Stopped ==> (stop_run(config, log, at)
            matches Run::Done(_, n) && n == at + 2),
        log.len() == at + 2 && log[at as int] == Reply::Flag(true) && log[at as int + 1]
            == Reply::Boost(state) && state.phase != Phase::Stopped ==> (stop_run(config, log, at)
            matches Run::Ask(RequestView::WriteBoost { path, boost }) && path == state_path(config)
            && boost.phase == Phase::Stopping && boost.tasks == state@.tasks && boost.sockets
            == state@.sockets),
{
}

proof fn lemma_arguments(
    until: Seq<char>,
    run_id: Seq<char>,
    paths: Seq<Seq<char>>,
    i: int,
)
    ensures
        ({
            let arguments = controller_arguments(until, run_id, paths);
            &&& arguments.len() == 6 + 2 * paths.len()
            &&& arguments[0] == "boost"@
            &&& arguments[1] == "run"@
            &&& arguments[2] == "--until"@
            &&& arguments[3] == until
            &&& arguments[4] == "--run-id"@
            &&& arguments[5] == run_id
            &&& 0 <= i < paths.len() ==> arguments[6 + 2 * i] == "--socket"@ && arguments[7 + 2 * i]
                == paths[i]
        }),
    decreases paths.len(),
{
    if paths.len() > 0 {
        lemma_arguments(until, run_id, paths.drop_last(), i);
        if 0 <= i < paths.len() - 1 {
            assert(paths.drop_last()[i] == paths[i]);
        }
    }
}

/// The controller of a boost is told the deadline, the name of the run and every server.
pub proof fn law_the_controller_is_told_everything(
    until: Seq<char>,
    run_id: Seq<char>,
    paths: Seq<Seq<char>>,
    i: int,
)
    requires
        0 <= i < paths.len(),
    ensures
        ({
            let arguments = controller_arguments(until, run_id, paths);
            &&& arguments.len() == 6 + 2 * paths.len()
            &&& arguments.take(6) == seq![
                "boost"@,
                "run"@,
                "--until"@,
                until,
                "--run-id"@,
                run_id,
            ]
            &&& arguments[6 + 2 * i] == "--socket"@
            &&& arguments[7 + 2 * i] == paths[i]
        }),
{
    lemma_arguments(until, run_id, paths, i);
    assert(controller_arguments(until, run_id, paths).take(6) =~= seq![
        "boost"@,
        "run"@,
        "--until"@,
        until,
        "--run-id"@,
        run_id,
    ]);
}

/// Whether a request is part of starting a boost in the background.
pub open spec fn starts(request: RequestView) -> bool {
    request is OpenLog || request is Remove || request is WriteBoost || request is Spawn || request
        is Write
}

proof fn lemma_preflight_reads(log: Seq<Reply>, at: nat, paths: Seq<Seq<char>>)
    ensures
        preflight_run(log, at, paths) matches Run::Ask(request) ==> request is Dial || request
            is Call,
    decreases paths.len(),
{
    if paths.len() > 0 {
        lemma_check_reads(log, at, paths[0]);
        if let Run::Done(_, n) = check_run(log, at, paths[0]) {
            lemma_preflight_reads(log, n, paths.skip(1));
        }
    }
}

proof fn lemma_check_reads(log: Seq<Reply>, at: nat, path: Seq<char>)
    ensures
        check_run(log, at, path) matches Run::Ask(request) ==> request is Dial || request is Call,
{
    lemma_model_reads(log, at + 2, None, Seq::empty());
    if let Run::Done(_, k) = model_run(log, at + 2, None, Seq::empty()) {
        lemma_loaded_reads(log, k, path, None, Seq::empty(), Seq::empty());
    }
}

proof fn lemma_model_reads(
    log: Seq<Reply>,
    at: nat,
    cursor: Option<Seq<char>>,
    seen: Seq<Seq<char>>,
)
    ensures
        model_run(log, at, cursor, seen) matches Run::Ask(request) ==> request is Call,
    decreases log.len() - at,
{
    if at < log.len() {
        if let Reply::Message(page) = log[at as int] {
            if let Some(next) = page@.text_at("nextCursor"@) {
                lemma_model_reads(log, at + 1, Some(next), seen.push(next));
            }
        }
    }
}

proof fn lemma_page_reads(
    log: Seq<Reply>,
    at: nat,
    ids: Seq<JsonView>,
    socket: Seq<char>,
    tasks: Seq<TaskView>,
)
    ensures
        page_run(log, at, ids, socket, tasks) matches Run::Ask(request) ==> request is Call,
    decreases ids.len(),
{
    if ids.len() > 0 && at < log.len() {
        if let (Some(id), Reply::Message(metadata)) = (ids[0].text(), log[at as int]) {
            if let Some(thread) = metadata@.get("thread"@) {
                lemma_page_reads(log, at + 1, ids.skip(1), socket, tasks);
                lemma_page_reads(
                    log,
                    at + 1,
                    ids.skip(1),
                    socket,
                    tasks.push(TaskView { socket, thread_id: id, child: directed(thread) }),
                );
            }
        }
    }
}

proof fn lemma_loaded_reads(
    log: Seq<Reply>,
    at: nat,
    socket: Seq<char>,
    cursor: Option<Seq<char>>,
    seen: Seq<Seq<char>>,
    tasks: Seq<TaskView>,
)
    ensures
        loaded_run(log, at, socket, cursor, seen, tasks) matches Run::Ask(request) ==> request
            is Call,
    decreases log.len() - at,
{
    if at < log.len() {
        if let Reply::Message(page) = log[at as int] {
            if let Some(ids) = page@.list_at("data"@) {
                lemma_page_reads(log, at + 1, ids, socket, tasks);
                if let Run::Done(more, m) = page_run(log, at + 1, ids, socket, tasks) {
                    if let Some(next) = page@.text_at("nextCursor"@) {
                        if at < m <= log.len() {
                            lemma_loaded_reads(log, m, socket, Some(next), seen.push(next), more);
                        }
                    }
                }
            }
        }
    }
}

/// Nothing is changed for a new boost unless its deadline lies ahead, its controller's lock is free,
/// no earlier boost waits to be cleaned up, and every server was checked.
pub proof fn law_a_boost_starts_on_clean_ground(
    config: Config,
    until: Seq<char>,
    supplied: Seq<Seq<char>>,
    log: Seq<Reply>,
    at: nat,
    request: RequestView,
)
    requires
        at <= log.len(),
        start_run(config, until, supplied, log, at) == Run::<Seq<Seq<char>>>::Ask(request),
        starts(request),
    ensures
        at + 3 <= log.len(),
        log[at as int] matches Reply::Time(now) && (deadline_of(until, now) matches Ok(deadline)
            && deadline > now),
        log[at as int + 1] == Reply::Flag(true),
        log[at as int + 2] is Missing || (log[at as int + 2] matches Reply::Boost(state)
            && state.phase == Phase::Stopped),
        preflight_run(log, at + 3, sorted_paths(chosen_sockets(config, supplied))) is Done,
{
    lemma_preflight_reads(log, at + 3, sorted_paths(chosen_sockets(config, supplied)));
}

/// Without an explicit server a boost covers the one of the Codex home; otherwise exactly those that
/// were named, which have to be absolute paths.
pub proof fn law_which_servers_a_boost_covers(config: Config, named: Seq<Seq<char>>)
    ensures
        named.len() > 0 ==> chosen_sockets(config, named) == named,
        named.len() == 0 ==> chosen_sockets(config, named) == seq![
            crate::paths::joined(
                config.codex_home@,
                "app-server-control/app-server-control.sock"@,
            ),
        ],
{
}

/// A controller that takes over records that it is preparing, with the deadline, the servers and
/// nothing done yet. It takes over only where it has the lock to itself and no earlier boost waits to
/// be cleaned up.
pub proof fn law_a_controller_takes_over_cleanly(
    config: Config,
    deadline: i64,
    paths: Seq<Seq<char>>,
    run_id: Seq<char>,
    log: Seq<Reply>,
    at: nat,
)
    requires
        at <= log.len(),
    ensures
        control_run(config, deadline, paths, run_id, log, at) matches Run::Done(Some(state), _)
            ==> {
            &&& at + 2 <= log.len()
            &&& log[at as int] == Reply::Flag(true)
            &&& log[at as int + 1] matches Reply::Boost(previous) ==> previous.phase
                == Phase::Stopped || previous.run_id@ == run_id && previous.phase
                == Phase::Preparing && !previous.activated
            &&& state.phase == Phase::Preparing
            &&& state.deadline == deadline
            &&& state.sockets == paths
            &&& state.run_id == run_id
            &&& state.tasks.len() == 0
            &&& !state.activated
            &&& !state.defaults_pending
        },
        at < log.len() && log[at as int] == Reply::Flag(false) ==> control_run(
            config,
            deadline,
            paths,
            run_id,
            log,
            at,
        ) is Fail,
{
}

/// A boost becomes active only after it has noted that everything has to be put back: what is recorded
/// first says that defaults and tasks are owed.
pub proof fn law_what_is_owed_is_recorded_first(
    config: Config,
    state: StateView,
    begun: BegunView,
    log: Seq<Reply>,
    at: nat,
)
    requires
        at <= log.len(),
    ensures
        log.len() == at ==> activated_step(config, state, begun, log, at) == Step::<
            BegunView,
        >::Ask(
            RequestView::WriteBoost {
                path: state_path(config),
                boost: StateView { defaults_pending: true, activated: true, ..state },
            },
        ),
        activated_step(config, state, begun, log, at) matches Step::Done(_, after, _) ==> after
            == (StateView {
            defaults_pending: true,
            activated: true,
            phase: Phase::Active,
            ..state
        }),
{
}

/// A task that is new to a boost is recorded before anything about it is changed.
pub proof fn law_a_new_task_is_recorded_first(
    config: Config,
    state: StateView,
    task: TaskView,
    log: Seq<Reply>,
    at: nat,
)
    requires
        goes_on(state.deadline, log, at),
        log.len() == at + 4,
        log[at as int + 3] is Message,
        !enrolled(state.tasks, task),
    ensures
        task_step(config, state, task, log, at) == Step::<Option<Seq<char>>>::Ask(
            RequestView::WriteBoost {
                path: state_path(config),
                boost: StateView { tasks: with_task(state.tasks, task), ..state },
            },
        ),
{
}

// ---------------------------------------------------------------- waiting

/// Between rounds it is looked for the end ten times, a tenth of a second apart.
pub proof fn law_the_end_is_looked_for_between_rounds(
    config: Config,
    state: StateView,
    latest: Option<nat>,
    seen: u64,
    log: Seq<Reply>,
    at: nat,
    now: u64,
    s: StateView,
    m: nat,
    k: nat,
    request: RequestView,
)
    requires
        log.len() > at,
        log[at as int] == Reply::Number(now),
        now - seen <= 60_000_000_000,
        servers_step(config, state, state.sockets, log, at + 1) == Step::Done(
            None::<Seq<char>>,
            s,
            m,
        ),
    ensures
        linger_run(config, s.deadline, 10, log, m) == Run::<Option<Seq<char>>>::Ask(request)
            ==> work_step(config, state, latest, seen, log, at) == Step::<RoundView>::Ask(request),
        linger_run(config, s.deadline, 10, log, m) == Run::Done(None::<Seq<char>>, k) ==> work_step(
            config,
            state,
            latest,
            seen,
            log,
            at,
        ) == Step::Done(RoundView::Again { latest, seen }, s, k),
{
}

/// Each time, a boost that is over ends at once; otherwise it is waited for a tenth of a second.
pub proof fn law_how_long_a_boost_lingers(
    config: Config,
    deadline: i64,
    times: nat,
    log: Seq<Reply>,
    at: nat,
    reason: Seq<char>,
    n: nat,
)
    requires
        times > 0,
    ensures
        linger_run(config, deadline, 0, log, at) == Run::Done(None::<Seq<char>>, at),
        cutoff_run(config, deadline, log, at) == Run::Done(Some(reason), n) ==> linger_run(
            config,
            deadline,
            times,
            log,
            at,
        ) == Run::Done(Some(reason), n),
        cutoff_run(config, deadline, log, at) == Run::Done(None::<Seq<char>>, n) && n == log.len()
            ==> linger_run(config, deadline, times, log, at) == Run::<Option<Seq<char>>>::Ask(
            RequestView::Sleep(100_000_000),
        ),
        cutoff_run(config, deadline, log, at) == Run::Done(None::<Seq<char>>, n) && n < log.len()
            && log[n as int] == Reply::Done ==> linger_run(config, deadline, times, log, at)
            == linger_run(config, deadline, (times - 1) as nat, log, n + 1),
{
}

/// Calls to a server may take as long as is left until the deadline, and no time where it has passed.
pub proof fn law_how_long_calls_may_take(
    config: Config,
    state: StateView,
    path: Seq<char>,
    log: Seq<Reply>,
    at: nat,
    now: i64,
)
    requires
        log.len() == at + 2,
        log[at as int] == Reply::Done,
        log[at as int + 1] == Reply::Time(now),
        0 <= now,
        -1_000_000_000_000 <= state.deadline <= 1_000_000_000_000,
    ensures
        server_step(config, state, path, log.take(at as int), at) == Step::<
            Option<Seq<char>>,
        >::Ask(RequestView::Dial(path)),
        server_step(config, state, path, log, at) == Step::<Option<Seq<char>>>::Ask(
            RequestView::LimitCalls(
                if state.deadline * 1000 >= now {
                    (state.deadline * 1000 - now) as u64
                } else {
                    0
                },
            ),
        ),
{
    assert(log.take(at as int).len() == at);
}

/// What a controller finds of an earlier one: the same boost that has ended is not begun again, another
/// that has ended makes way, and one that is not cleaned up after stands in the way.
pub proof fn law_what_an_earlier_boost_left(
    config: Config,
    run_id: Seq<char>,
    previous: State,
    log: Seq<Reply>,
    at: nat,
)
    requires
        log.len() == at,
    ensures
        previous.run_id@ == run_id && previous.phase == Phase::Stopped ==> previous_run(
            config,
            run_id,
            previous,
            log,
            at,
        ) == Run::Done(false, at),
        previous.run_id@ != run_id && previous.phase == Phase::Stopped ==> previous_run(
            config,
            run_id,
            previous,
            log,
            at,
        ) == Run::<bool>::Ask(RequestView::Remove(stop_path(config))),
        previous.run_id@ != run_id && previous.phase != Phase::Stopped ==> previous_run(
            config,
            run_id,
            previous,
            log,
            at,
        ) is Fail,
        previous.run_id@ == run_id && previous.phase == Phase::Preparing && !previous.activated
            ==> previous_run(config, run_id, previous, log, at) == Run::Done(true, at),
        previous.run_id@ == run_id && previous.phase != Phase::Stopped && (previous.phase
            != Phase::Preparing || previous.activated) ==> previous_run(
            config,
            run_id,
            previous,
            log,
            at,
        ) is Fail,
{
}

/// The quotas are offered every fifteen seconds, until it is asked to stop or nobody wants them any
/// more.
pub proof fn law_how_often_quotas_are_read(log: Seq<Reply>, at: nat, now: u64, l: nat)
    requires
        now <= u64::MAX - 15_000_000_000,
    ensures
        log.len() == at ==> monitor_run(log, at) == Run::<bool>::Ask(RequestView::Cancelled),
        log.len() > at && log[at as int] == Reply::Flag(true) ==> monitor_run(log, at) == Run::Done(
            false,
            at + 1,
        ),
        log.len() == at + 1 && log[at as int] == Reply::Flag(false) ==> monitor_run(log, at)
            == Run::<bool>::Ask(RequestView::OfferQuotas),
        log.len() > at + 1 && log[at as int] == Reply::Flag(false) && log[at as int + 1]
            == Reply::Flag(false) ==> monitor_run(log, at) == Run::Done(false, at + 2),
        log.len() > at + 2 && log[at as int] == Reply::Flag(false) && log[at as int + 1]
            == Reply::Flag(true) && log[at as int + 2] == Reply::Number(now) && pause_run(
            (now + 15_000_000_000) as u64,
            log,
            at + 3,
        ) == Run::Done((), l) ==> monitor_run(log, at) == Run::Done(true, l),
{
}

/// A pause ends when its time is there, or when it is asked to stop; until then it goes on by tenths of
/// a second.
pub proof fn law_how_long_a_pause_is(until: u64, log: Seq<Reply>, at: nat, now: u64)
    requires
        log.len() > at,
        log[at as int] == Reply::Number(now),
    ensures
        now >= until ==> pause_run(until, log, at) == Run::Done((), at + 1),
        now < until && log.len() > at + 1 && log[at as int + 1] == Reply::Flag(true) ==> pause_run(
            until,
            log,
            at,
        ) == Run::Done((), at + 2),
        now < until && log.len() == at + 2 && log[at as int + 1] == Reply::Flag(false)
            ==> pause_run(until, log, at) == Run::<()>::Ask(RequestView::Sleep(100_000_000)),
        now < until && log.len() > at + 2 && log[at as int + 1] == Reply::Flag(false) && log[at
            as int + 2] == Reply::Done ==> pause_run(until, log, at) == pause_run(
            until,
            log,
            at + 3,
        ),
{
}

/// A boost begins with looking at every server that it covers; where that fails, nothing is begun.
pub proof fn law_a_boost_begins_with_its_servers(
    config: Config,
    state: StateView,
    log: Seq<Reply>,
    at: nat,
    request: RequestView,
    error: crate::error::ErrorView,
    n: nat,
)
    ensures
        preflight_run(log, at, state.sockets) == Run::<()>::Ask(request) ==> begin_step(
            config,
            state,
            log,
            at,
        ) == Step::<BegunView>::Ask(request),
        preflight_run(log, at, state.sockets) == Run::<()>::Fail(error, n) ==> begin_step(
            config,
            state,
            log,
            at,
        ) is Fail,
        preflight_run(log, at, state.sockets) == Run::Done((), n) && n == log.len() ==> begin_step(
            config,
            state,
            log,
            at,
        ) == Step::<BegunView>::Ask(RequestView::Signalled),
{
}

/// A boost is ready once the first quotas are there, and begins from those.
pub proof fn law_a_boost_begins_from_the_first_quotas(
    config: Config,
    deadline: i64,
    log: Seq<Reply>,
    at: nat,
)
    requires
        at <= log.len(),
    ensures
        first_quotas_run(config, deadline, log, at) matches Run::Done(BegunView::Ready(place), m)
            ==> at < m <= log.len() && place + 1 == m && log[place as int] is Quotas,
    decreases log.len() - at,
{
    if let Run::Done(over, n) = cutoff_run(config, deadline, log, at) {
        law_what_ends_a_boost(config, deadline, log, at);
        if over is None && n < log.len() && log[n as int] is Missing {
            law_a_boost_begins_from_the_first_quotas(config, deadline, log, n + 1);
        }
    }
}

/// The store is locked while its accounts are read: it is tried for every tenth of a second, until it is
/// had or asked to stop.
pub proof fn law_the_store_is_locked_meanwhile(config: Config, log: Seq<Reply>, at: nat)
    ensures
        log.len() == at ==> store_lock_run(config, log, at) == Run::<()>::Ask(
            RequestView::Cancelled,
        ),
        log.len() > at && log[at as int] == Reply::Flag(true) ==> store_lock_run(config, log, at)
            == Run::<()>::Fail(crate::error::ErrorView::Cancelled, at + 1),
        log.len() == at + 1 && log[at as int] == Reply::Flag(false) ==> store_lock_run(
            config,
            log,
            at,
        ) == Run::<()>::Ask(RequestView::TryLock(config.switch_lock@)),
        log.len() > at + 1 && log[at as int] == Reply::Flag(false) && log[at as int + 1]
            == Reply::Flag(true) ==> store_lock_run(config, log, at) == Run::Done((), at + 2),
        log.len() == at + 2 && log[at as int] == Reply::Flag(false) && log[at as int + 1]
            == Reply::Flag(false) ==> store_lock_run(config, log, at) == Run::<()>::Ask(
            RequestView::Sleep(100_000_000),
        ),
        log.len() > at + 2 && log[at as int] == Reply::Flag(false) && log[at as int + 1]
            == Reply::Flag(false) && log[at as int + 2] == Reply::Done ==> store_lock_run(
            config,
            log,
            at,
        ) == store_lock_run(config, log, at + 3),
{
}

/// The quota of every enrolled account is asked for at once; without any there is nothing to boost.
pub proof fn law_every_account_is_asked_for_its_quota(
    config: Config,
    log: Seq<Reply>,
    at: nat,
    n: nat,
    accounts: Vec<Profile>,
    slots: Seq<u32>,
)
    requires
        store_lock_run(config, log, at) == Run::Done((), n),
        log.len() == n + 1,
        log[n as int] == Reply::Profiles(accounts),
        slots.len() == accounts@.len(),
        forall|i: int| 0 <= i < slots.len() ==> #[trigger] slots[i] == accounts@[i].slot,
    ensures
        accounts@.len() == 0 ==> collect_run(config, log, at) is Fail,
        accounts@.len() > 0 ==> collect_run(config, log, at) == Run::<
            Seq<(u32, UsageRecord)>,
        >::Ask(RequestView::QueryProfiles(slots)),
{
    assert(slots_of(accounts@) =~= slots);
}

// ---------------------------------------------------------------- starting and telling

/// A failure counts as the end of a boost where the boost was over anyway; otherwise it stands.
pub proof fn law_a_failure_may_be_the_end(
    config: Config,
    deadline: i64,
    reason: Seq<char>,
    error: crate::error::ErrorView,
    log: Seq<Reply>,
    at: nat,
    n: nat,
    m: nat,
    first: Seq<char>,
    second: Seq<char>,
)
    ensures
        verdict_run(config, deadline, Ok(reason), log, at) == Run::Done(
            Ok::<Seq<char>, crate::error::ErrorView>(reason),
            at,
        ),
        cutoff_run(config, deadline, log, at) == Run::Done(None::<Seq<char>>, n) ==> verdict_run(
            config,
            deadline,
            Err(error),
            log,
            at,
        ) == Run::Done(Err::<Seq<char>, crate::error::ErrorView>(error), n),
        cutoff_run(config, deadline, log, at) == Run::Done(Some(first), n) && cutoff_run(
            config,
            deadline,
            log,
            n,
        ) == Run::Done(Some(second), m) ==> verdict_run(config, deadline, Err(error), log, at)
            == Run::Done(Ok::<Seq<char>, crate::error::ErrorView>(second), m),
{
}

/// The status of a boost tells its phase and whether its controller runs, every server, why it ended and
/// everything that is unfinished; it asks for a cleanup exactly where nobody does one.
pub proof fn law_what_is_told_of_a_boost(
    state: StateView,
    running: bool,
    time: Option<Seq<char>>,
    i: int,
)
    ensures
        ({
            let lines = shown_state(state, running, time);
            &&& lines[0] == "Boost: "@ + phase_name(state.phase) + "; controller "@ + (if running {
                "running"@
            } else {
                "not running"@
            })
            &&& 0 <= i < state.sockets.len() ==> lines.contains("Server: "@ + state.sockets[i])
            &&& 0 <= i < state.errors.len() ==> lines.contains("Unfinished: "@ + state.errors[i])
            &&& state.reason matches Some(reason) ==> lines.contains("Reason: "@ + reason)
            &&& time matches Some(end) ==> lines.contains("Deadline: "@ + end)
            &&& lines.contains(
                "Tracked tasks: "@ + decimal_text(state.tasks.len())
                    + ". Cutoff settings: Astra / Medium / Standard."@,
            )
            &&& !running && state.phase != Phase::Stopped ==> lines.last()
                == "Cleanup is required. Run `cxa boost stop`; do not assume the recorded tasks stopped."@
        }),
{
    let lines = shown_state(state, running, time);
    let head = seq![
        "Boost: "@ + phase_name(state.phase) + "; controller "@ + (if running {
            "running"@
        } else {
            "not running"@
        }),
    ];
    let deadline = line_if("Deadline: "@, time);
    let counts = seq![
        "Tracked tasks: "@ + decimal_text(state.tasks.len())
            + ". Cutoff settings: Astra / Medium / Standard."@,
    ];
    let servers = prefixed("Server: "@, state.sockets);
    let reason = line_if("Reason: "@, state.reason);
    let errors = prefixed("Unfinished: "@, state.errors);
    let a = head.len() as int;
    let b = a + deadline.len();
    let d = b + counts.len();
    let e = d + servers.len();
    let f = e + reason.len();
    if time is Some {
        assert(lines[a] == deadline[0]);
    }
    assert(lines[b] == counts[0]);
    if 0 <= i < state.sockets.len() {
        assert(lines[d + i] == servers[i]);
    }
    if state.reason is Some {
        assert(lines[e] == reason[0]);
    }
    if 0 <= i < state.errors.len() {
        assert(lines[f + i] == errors[i]);
    }
}

/// Each phase of a boost has its own name.
pub proof fn law_phases_have_names()
    ensures
        phase_name(Phase::Preparing) == "Preparing"@,
        phase_name(Phase::Active) == "Active"@,
        phase_name(Phase::Stopping) == "Stopping"@,
        phase_name(Phase::Stopped) == "Stopped"@,
        phase_name(Phase::CleanupRequired) == "CleanupRequired"@,
{
}

/// A controller has started once its own record is there, and it runs or has gone further than
/// preparing.
pub proof fn law_when_a_controller_has_started(state: State, run_id: Seq<char>, running: bool)
    ensures
        state.run_id@ != run_id ==> !has_started(state, run_id, running),
        state.run_id@ == run_id && running ==> has_started(state, run_id, running),
        state.run_id@ == run_id && !running && state.phase == Phase::Preparing ==> !has_started(
            state,
            run_id,
            running,
        ),
        state.run_id@ == run_id && state.phase != Phase::Preparing ==> has_started(
            state,
            run_id,
            running,
        ),
{
}

/// A boost that has started is told with every server that it covers; one that has ended already is a
/// failure.
pub proof fn law_what_is_told_of_a_start(
    state: State,
    until: Seq<char>,
    paths: Seq<Seq<char>>,
    i: int,
)
    ensures
        state.phase != Phase::Preparing && state.phase != Phase::Active ==> started_verdict(
            state,
            until,
            paths,
        ) is Err,
        state.phase == Phase::Preparing || state.phase == Phase::Active ==> (started_verdict(
            state,
            until,
            paths,
        ) matches Ok(lines) && lines.len() == paths.len() + 4 && lines[1] == "Deadline: "@ + until
            + ". Cutoff: Astra / Medium / Standard."@ && (0 <= i < paths.len() ==> lines[i + 3]
            == "  "@ + paths[i])),
{
}

/// The start of a controller is waited for, for five seconds: a controller that has ended, and one of
/// which nothing is heard by then, is a failure.
pub proof fn law_a_start_is_waited_for(
    config: Config,
    until: Seq<char>,
    paths: Seq<Seq<char>>,
    run_id: Seq<char>,
    deadline: int,
    log: Seq<Reply>,
    at: nat,
    running: bool,
    state: State,
    n: nat,
    now: u64,
)
    requires
        log.len() > at,
        log[at as int] == Reply::Flag(running),
    ensures
        read_run(config, log, at + 1) == Run::Done(Some(state), n) && has_started(
            state,
            run_id,
            running,
        ) ==> (match started_verdict(state, until, paths) {
            Ok(lines) => await_run(config, until, paths, run_id, deadline, log, at) == Run::Done(
                lines,
                n,
            ),
            Err(error) => await_run(config, until, paths, run_id, deadline, log, at) == Run::<
                Seq<Seq<char>>,
            >::Fail(error, n),
        }),
        read_run(config, log, at + 1) == Run::Done(None::<State>, n) && log.len() == n
            ==> await_run(config, until, paths, run_id, deadline, log, at) == Run::<
            Seq<Seq<char>>,
        >::Ask(RequestView::ChildExit),
        read_run(config, log, at + 1) == Run::Done(None::<State>, n) && log.len() > n && log[n
            as int] is Text ==> await_run(config, until, paths, run_id, deadline, log, at) is Fail,
        read_run(config, log, at + 1) == Run::Done(None::<State>, n) && log.len() == n + 2 && log[n
            as int] is Missing && log[n as int + 1] == Reply::Number(now) ==> (if now >= deadline {
            await_run(config, until, paths, run_id, deadline, log, at) is Fail
        } else {
            await_run(config, until, paths, run_id, deadline, log, at) == Run::<
                Seq<Seq<char>>,
            >::Ask(RequestView::Sleep(50_000_000))
        }),
{
}

/// A controller is started with its log open, without a request to stop left over, with its state
/// recorded and the lock free for it.
pub proof fn law_how_a_controller_is_started(
    config: Config,
    until: Seq<char>,
    deadline: i64,
    paths: Seq<Seq<char>>,
    run_id: Seq<char>,
    log: Seq<Reply>,
)
    requires
        log == seq![Reply::Done, Reply::Done, Reply::Done, Reply::Done],
    ensures
        launch_run(config, until, deadline, paths, run_id, log.take(0), 0) == Run::<
            Seq<Seq<char>>,
        >::Ask(RequestView::OpenLog(log_path(config))),
        launch_run(config, until, deadline, paths, run_id, log.take(1), 0) == Run::<
            Seq<Seq<char>>,
        >::Ask(RequestView::Remove(stop_path(config))),
        launch_run(config, until, deadline, paths, run_id, log.take(2), 0) == Run::<
            Seq<Seq<char>>,
        >::Ask(
            RequestView::WriteBoost {
                path: state_path(config),
                boost: preparing_state(run_id, deadline, paths),
            },
        ),
        launch_run(config, until, deadline, paths, run_id, log.take(3), 0) == Run::<
            Seq<Seq<char>>,
        >::Ask(RequestView::Unlock(lock_path(config))),
        launch_run(config, until, deadline, paths, run_id, log, 0) == Run::<Seq<Seq<char>>>::Ask(
            RequestView::Spawn(controller_arguments(until, run_id, paths)),
        ),
{
}

/// A boost is named for the process that began it and the time.
pub proof fn law_boosts_have_names(process: u64, micros: i64)
    ensures
        micros >= 0 ==> run_name(process, micros) == decimal_text(process as nat) + "-"@
            + decimal_text(micros as nat),
{
}

/// Why a boost ended is recorded before anything is cleaned up: the reason that it gave, or the failure.
pub proof fn law_why_a_boost_ended_is_recorded(
    config: Config,
    state: StateView,
    reason: Seq<char>,
    error: crate::error::ErrorView,
    log: Seq<Reply>,
    at: nat,
)
    ensures
        log.len() == at ==> finish_step(config, state, Ok(reason), log, at) == Step::<()>::Ask(
            RequestView::WriteBoost {
                path: state_path(config),
                boost: StateView {
                    reason: Some(reason),
                    phase: Phase::Stopping,
                    errors: Seq::empty(),
                    ..state
                },
            },
        ),
        cutoff_run(config, state.deadline, log, at) == Run::Done(None::<Seq<char>>, log.len())
            ==> finish_step(config, state, Err(error), log, at) == Step::<()>::Ask(
            RequestView::WriteBoost {
                path: state_path(config),
                boost: StateView {
                    reason: Some("Stopped after error: "@ + error.text()),
                    phase: Phase::Stopping,
                    errors: Seq::empty(),
                    ..state
                },
            },
        ),
{
}

/// The defaults are owed until they are written; what keeps them from it is unfinished.
pub proof fn law_defaults_are_owed_until_written(
    config: Config,
    state: StateView,
    log: Seq<Reply>,
    at: nat,
    error: crate::error::ErrorView,
    n: nat,
)
    ensures
        !state.defaults_pending ==> defaults_step(config, state, log, at) == Step::Done(
            (),
            state,
            at,
        ),
        state.defaults_pending && baseline_run(config, log, at) == Run::Done((), n)
            ==> defaults_step(config, state, log, at) == Step::Done(
            (),
            StateView { defaults_pending: false, ..state },
            n,
        ),
        state.defaults_pending && baseline_run(config, log, at) == Run::<()>::Fail(error, n)
            ==> defaults_step(config, state, log, at) == Step::Done(
            (),
            StateView {
                errors: state.errors.push("Global defaults: "@ + error.text()),
                ..state
            },
            n,
        ),
{
}

}
