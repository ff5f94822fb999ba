//! What is asked of an app server, word for word.
use crate::app_server::{
    next_message_run, outcome, query_run, refusal_due, request_message, response_run,
    stop_server_run,
};
use crate::boost_state::TaskView;
use crate::boost_tasks::{
    boost_child_run, boost_own_run, boost_run, check_run, cutoff_run, idle, interrupt_run,
    loaded_run, matching, model_run, model_verdict, page_run, set_run, settings_run, settle_run,
    turn_run, update_params,
};
use crate::config::Config;
use crate::effects::{Reply, RequestView, Run};
use crate::error::{Error, ErrorView};
use crate::json::{Json, JsonView};
use vstd::prelude::*;

verus! {

/// What a call asks for.
pub open spec fn called(method: Seq<char>, params: JsonView) -> RequestView {
    RequestView::Call { method, params }
}

/// The tasks of a server are asked for page by page, up to a hundred at a time, until a page names no
/// next one; tasks of every page are kept, and a page that was there already ends it.
pub proof fn law_every_page_of_tasks_is_asked_for(
    log: Seq<Reply>,
    at: nat,
    socket: Seq<char>,
    cursor: Seq<char>,
    seen: Seq<Seq<char>>,
    tasks: Seq<TaskView>,
    page: Json,
    more: Seq<TaskView>,
    m: nat,
)
    ensures
        log.len() == at ==> loaded_run(log, at, socket, None, seen, tasks) == Run::<
            Seq<TaskView>,
        >::Ask(
            called(
                "thread/loaded/list"@,
                JsonView::Object(
                    seq![("cursor"@, JsonView::Null), ("limit"@, JsonView::Integer(100))],
                ),
            ),
        ),
        log.len() > at && log[at as int] == Reply::Message(page) && (page@.list_at("data"@) matches
            Some(ids) && page_run(log, at + 1, ids, socket, tasks) == Run::Done(more, m)) ==> ({
            &&& page@.text_at("nextCursor"@) is None ==> loaded_run(
                log,
                at,
                socket,
                Some(cursor),
                seen,
                tasks,
            ) == Run::Done(more, m)
            &&& page@.text_at("nextCursor"@) matches Some(next) ==> ({
                &&& seen.contains(next) ==> loaded_run(log, at, socket, Some(cursor), seen, tasks)
                    is Fail
                &&& !seen.contains(next) && m > at && m == log.len() ==> loaded_run(
                    log,
                    at,
                    socket,
                    Some(cursor),
                    seen,
                    tasks,
                ) == Run::<Seq<TaskView>>::Ask(
                    called(
                        "thread/loaded/list"@,
                        JsonView::Object(
                            seq![
                                ("cursor"@, JsonView::Text(next)),
                                ("limit"@, JsonView::Integer(100)),
                            ],
                        ),
                    ),
                )
                &&& !seen.contains(next) && at < m <= log.len() ==> loaded_run(
                    log,
                    at,
                    socket,
                    Some(cursor),
                    seen,
                    tasks,
                ) == loaded_run(log, m, socket, Some(next), seen.push(next), more)
            })
        }),
{
    reveal_with_fuel(loaded_run, 2);
}

/// Each task of a page is asked for, without its turns.
pub proof fn law_each_task_is_asked_for(
    log: Seq<Reply>,
    at: nat,
    ids: Seq<JsonView>,
    socket: Seq<char>,
    tasks: Seq<TaskView>,
    id: Seq<char>,
)
    requires
        ids.len() > 0,
        ids[0].text() == Some(id),
        log.len() == at,
    ensures
        page_run(log, at, ids, socket, tasks) == Run::<Seq<TaskView>>::Ask(
            called(
                "thread/read"@,
                JsonView::Object(
                    seq![
                        ("includeTurns"@, JsonView::Bool(false)),
                        ("threadId"@, JsonView::Text(id)),
                    ],
                ),
            ),
        ),
{
}

/// The models of a server are asked for page by page, without the hidden ones, until the one to boost
/// with is on a page.
pub proof fn law_every_page_of_models_is_asked_for(
    log: Seq<Reply>,
    at: nat,
    cursor: Option<Seq<char>>,
    seen: Seq<Seq<char>>,
    page: Json,
)
    ensures
        log.len() == at && cursor is None ==> model_run(log, at, cursor, seen) == Run::<()>::Ask(
            called(
                "model/list"@,
                JsonView::Object(
                    seq![("cursor"@, JsonView::Null), ("includeHidden"@, JsonView::Bool(false))],
                ),
            ),
        ),
        log.len() == at + 1 && log[at as int] == Reply::Message(page) && (page@.list_at("data"@)
            matches Some(models) && model_verdict(models) is None) ==> ({
            &&& page@.text_at("nextCursor"@) is None ==> model_run(log, at, cursor, seen) is Fail
            &&& page@.text_at("nextCursor"@) matches Some(next) ==> ({
                &&& seen.contains(next) ==> model_run(log, at, cursor, seen) is Fail
                &&& !seen.contains(next) ==> model_run(log, at, cursor, seen) == Run::<()>::Ask(
                    called(
                        "model/list"@,
                        JsonView::Object(
                            seq![
                                ("cursor"@, JsonView::Text(next)),
                                ("includeHidden"@, JsonView::Bool(false)),
                            ],
                        ),
                    ),
                )
            })
        }),
{
    reveal_with_fuel(model_run, 2);
}

/// The settings of a task come with taking it up, without its turns. A task of which nothing was saved
/// has none, where it rests; any other failure stands.
pub proof fn law_the_settings_of_a_task(
    log: Seq<Reply>,
    at: nat,
    id: Seq<char>,
    settings: Json,
    error: Error,
    metadata: Json,
)
    ensures
        log.len() == at ==> settings_run(log, at, id) == Run::<Option<JsonView>>::Ask(
            called(
                "thread/resume"@,
                JsonView::Object(
                    seq![
                        ("excludeTurns"@, JsonView::Bool(true)),
                        ("threadId"@, JsonView::Text(id)),
                    ],
                ),
            ),
        ),
        log.len() > at && log[at as int] == Reply::Message(settings) ==> settings_run(log, at, id)
            == Run::Done(Some(settings@), at + 1),
        log.len() > at && log[at as int] == Reply::Failed(error) && error@ != ErrorView::Protocol(
            "thread/resume failed: no rollout found for thread id "@ + id,
        ) ==> settings_run(log, at, id) is Fail,
        log.len() == at + 2 && log[at as int] == Reply::Failed(error) && error@
            == ErrorView::Protocol(
            "thread/resume failed: no rollout found for thread id "@ + id,
        ) && log[at as int + 1] == Reply::Message(metadata) ==> (if idle(metadata@) {
            settings_run(log, at, id) == Run::Done(None::<JsonView>, at + 2)
        } else {
            settings_run(log, at, id) is Fail
        }),
{
}

/// Whether a task rests is what its status says.
pub proof fn law_when_a_task_rests(metadata: JsonView, thread: JsonView, status: JsonView)
    requires
        metadata.get("thread"@) == Some(thread),
        thread.get("status"@) == Some(status),
    ensures
        idle(metadata) <==> status.text_at("type"@) == Some("idle"@),
{
}

/// Settings that were asked for are looked for again every twentieth of a second, until they are there
/// or five seconds have passed.
pub proof fn law_settings_take_their_time(
    log: Seq<Reply>,
    at: nat,
    id: Seq<char>,
    boosted: bool,
    answer: Json,
    now: u64,
    settings: Json,
    later: u64,
)
    requires
        log.len() == at + 4,
        log[at as int] == Reply::Message(answer),
        log[at as int + 1] == Reply::Number(now),
        log[at as int + 2] == Reply::Message(settings),
        log[at as int + 3] == Reply::Number(later),
    ensures
        set_run(log.take(at as int), at, id, boosted) == Run::<()>::Ask(
            called("thread/settings/update"@, update_params(id, boosted)),
        ),
        matching(settings@, boosted) ==> set_run(log, at, id, boosted) == Run::Done((), at + 3),
        !matching(settings@, boosted) && later >= now + 5_000_000_000 ==> set_run(
            log,
            at,
            id,
            boosted,
        ) is Fail,
        !matching(settings@, boosted) && later < now + 5_000_000_000 ==> set_run(
            log,
            at,
            id,
            boosted,
        ) == Run::<()>::Ask(RequestView::Sleep(50_000_000)),
{
}

/// What is looked for again is the settings, and what was asked for stays the same.
pub proof fn law_settings_are_looked_for_again(
    log: Seq<Reply>,
    at: nat,
    id: Seq<char>,
    boosted: bool,
    deadline: int,
    settings: Json,
    now: u64,
)
    requires
        log.len() >= at + 3,
        log[at as int] == Reply::Message(settings),
        !matching(settings@, boosted),
        log[at as int + 1] == Reply::Number(now),
        now < deadline,
        log[at as int + 2] == Reply::Done,
    ensures
        settle_run(log, at, id, boosted, deadline) == settle_run(
            log,
            at + 3,
            id,
            boosted,
            deadline,
        ),
{
}

/// Of the turns of a task the last one is asked for, without what is in it.
pub proof fn law_the_last_turn_is_asked_for(log: Seq<Reply>, at: nat, id: Seq<char>)
    requires
        log.len() == at,
    ensures
        turn_run(log, at, id) == Run::<Option<Seq<char>>>::Ask(
            called(
                "thread/turns/list"@,
                JsonView::Object(
                    seq![
                        ("itemsView"@, JsonView::Text("notLoaded"@)),
                        ("limit"@, JsonView::Integer(1)),
                        ("sortDirection"@, JsonView::Text("desc"@)),
                        ("threadId"@, JsonView::Text(id)),
                    ],
                ),
            ),
        ),
{
}

/// A turn that is under way is interrupted, and has five seconds to stop.
pub proof fn law_a_turn_is_interrupted(
    log: Seq<Reply>,
    at: nat,
    id: Seq<char>,
    turn: Seq<char>,
    n: nat,
    answer: Json,
    now: u64,
    still: Option<Seq<char>>,
    m: nat,
    later: u64,
)
    requires
        turn_run(log, at, id) == Run::Done(Some(turn), n),
        log.len() > n + 1,
        log[n as int] == Reply::Message(answer),
        log[n as int + 1] == Reply::Number(now),
        turn_run(log, n + 2, id) == Run::Done(still, m),
    ensures
        still is None ==> interrupt_run(log, at, id) == Run::Done(true, m),
        still is Some && log.len() == m + 1 && log[m as int] == Reply::Number(later) && later >= now
            + 5_000_000_000 ==> interrupt_run(log, at, id) is Fail,
        still is Some && log.len() == m + 1 && log[m as int] == Reply::Number(later) && later < now
            + 5_000_000_000 ==> interrupt_run(log, at, id) == Run::<bool>::Ask(
            RequestView::Sleep(50_000_000),
        ),
{
}

/// Nothing is interrupted where no turn is under way.
pub proof fn law_a_resting_task_is_not_interrupted(log: Seq<Reply>, at: nat, id: Seq<char>, n: nat)
    requires
        turn_run(log, at, id) == Run::Done(None::<Seq<char>>, n),
    ensures
        interrupt_run(log, at, id) == Run::Done(false, n),
{
}

/// A task that another one directs is boosted without being interrupted: the turn that is under way
/// first, and then the task.
pub proof fn law_a_directed_task_is_boosted(
    log: Seq<Reply>,
    at: nat,
    id: Seq<char>,
    turn: Option<Seq<char>>,
)
    requires
        turn_run(log, at, id) == Run::Done(turn, log.len()),
    ensures
        turn is None ==> boost_child_run(log, at, id) == Run::<()>::Ask(
            called("thread/settings/update"@, update_params(id, true)),
        ),
        turn matches Some(turn) ==> boost_child_run(log, at, id) == Run::<()>::Ask(
            called(
                "turn/settings/update"@,
                JsonView::Object(
                    seq![
                        ("effort"@, JsonView::Text("ultra"@)),
                        ("model"@, JsonView::Text("gpt-6-astra"@)),
                        ("serviceTier"@, JsonView::Text("fast"@)),
                        ("threadId"@, JsonView::Text(id)),
                        ("turnId"@, JsonView::Text(turn)),
                    ],
                ),
            ),
        ),
{
}

/// What a task is set to: the model to boost with, at its highest effort and its fast tier in a boost,
/// and at its usual effort and tier otherwise.
pub proof fn law_what_a_task_is_set_to(id: Seq<char>)
    ensures
        update_params(id, true) == JsonView::Object(
            seq![
                ("effort"@, JsonView::Text("ultra"@)),
                ("model"@, JsonView::Text("gpt-6-astra"@)),
                ("serviceTier"@, JsonView::Text("fast"@)),
                ("threadId"@, JsonView::Text(id)),
            ],
        ),
        update_params(id, false) == JsonView::Object(
            seq![
                ("effort"@, JsonView::Text("medium"@)),
                ("model"@, JsonView::Text("gpt-6-astra"@)),
                ("serviceTier"@, JsonView::Text("default"@)),
                ("threadId"@, JsonView::Text(id)),
            ],
        ),
{
}

/// A task that was interrupted is told to go on from where it is, boosted.
pub proof fn law_a_task_is_told_to_go_on(
    config: Config,
    deadline: i64,
    log: Seq<Reply>,
    at: nat,
    id: Seq<char>,
    n: nat,
    m: nat,
    k: nat,
)
    requires
        interrupt_run(log, at, id) == Run::Done(true, n),
        cutoff_run(config, deadline, log, n) == Run::Done(None::<Seq<char>>, m),
        set_run(log, m, id, true) == Run::Done((), k),
        cutoff_run(config, deadline, log, k) == Run::Done(None::<Seq<char>>, log.len()),
    ensures
        boost_own_run(config, deadline, log, at, id) == Run::<()>::Ask(
            called(
                "turn/start"@,
                JsonView::Object(
                    seq![
                        ("effort"@, JsonView::Text("ultra"@)),
                        (
                            "input"@,
                            JsonView::List(
                                seq![
                                    JsonView::Object(
                                        seq![
                                            (
                                                "text"@,
                                                JsonView::Text(
                                                    "Continue the interrupted task from its current state."@,
                                                ),
                                            ),
                                            ("text_elements"@, JsonView::List(Seq::empty())),
                                            ("type"@, JsonView::Text("text"@)),
                                        ],
                                    ),
                                ],
                            ),
                        ),
                        ("model"@, JsonView::Text("gpt-6-astra"@)),
                        ("serviceTier"@, JsonView::Text("fast"@)),
                        ("threadId"@, JsonView::Text(id)),
                    ],
                ),
            ),
        ),
{
}

/// A task is boosted unless it is already, and always where it is new; nothing is begun once the boost is
/// over. Only a task that another one directs is boosted without being interrupted.
pub proof fn law_when_a_task_is_boosted(
    config: Config,
    deadline: i64,
    log: Seq<Reply>,
    at: nat,
    task: TaskView,
    settings: JsonView,
    newly_enrolled: bool,
    reason: Seq<char>,
    n: nat,
)
    ensures
        !newly_enrolled && matching(settings, true) ==> boost_run(
            config,
            deadline,
            log,
            at,
            task,
            settings,
            newly_enrolled,
        ) == Run::Done((), at),
        newly_enrolled || !matching(settings, true) ==> ({
            let run = boost_run(config, deadline, log, at, task, settings, newly_enrolled);
            &&& log.len() == at ==> run == Run::<()>::Ask(RequestView::Signalled)
            &&& cutoff_run(config, deadline, log, at) == Run::Done(Some(reason), n) ==> run
                == Run::Done((), n)
            &&& cutoff_run(config, deadline, log, at) == Run::Done(None::<Seq<char>>, n)
                && task.child ==> run == boost_child_run(log, n, task.thread_id)
            &&& cutoff_run(config, deadline, log, at) == Run::Done(None::<Seq<char>>, n)
                && !task.child ==> run == boost_own_run(config, deadline, log, n, task.thread_id)
        }),
{
}

/// Before a boost the account of a server is asked for, without having its token refreshed.
pub proof fn law_the_account_of_a_server_is_asked_for(log: Seq<Reply>, at: nat, path: Seq<char>)
    requires
        log.len() == at + 1,
        log[at as int] == Reply::Done,
    ensures
        check_run(log.take(at as int), at, path) == Run::<()>::Ask(RequestView::Dial(path)),
        check_run(log, at, path) == Run::<()>::Ask(
            called(
                "account/read"@,
                JsonView::Object(seq![("refreshToken"@, JsonView::Bool(false))]),
            ),
        ),
{
}

// ---------------------------------------------------------------- an app server of one's own

/// A message is waited for until the deadline, at most eighty milliseconds at a time; between the waits
/// it is looked whether the whole was given up.
pub proof fn law_how_a_message_is_waited_for(deadline: u64, log: Seq<Reply>, at: nat, now: u64)
    ensures
        log.len() == at ==> next_message_run(deadline, log, at) == Run::<JsonView>::Ask(
            RequestView::Cancelled,
        ),
        log.len() > at && log[at as int] == Reply::Flag(true) ==> next_message_run(
            deadline,
            log,
            at,
        ) == Run::<JsonView>::Fail(ErrorView::Cancelled, at + 1),
        log.len() > at + 1 && log[at as int] == Reply::Flag(false) && log[at as int + 1]
            == Reply::Number(now) && now >= deadline ==> next_message_run(deadline, log, at)
            == Run::<JsonView>::Fail(ErrorView::Timeout, at + 2),
        log.len() == at + 2 && log[at as int] == Reply::Flag(false) && log[at as int + 1]
            == Reply::Number(now) && now < deadline ==> next_message_run(deadline, log, at)
            == Run::<JsonView>::Ask(
            RequestView::WaitMessage(
                if deadline - now < 80_000_000 {
                    (deadline - now) as u64
                } else {
                    80_000_000
                },
            ),
        ),
{
}

/// Where nothing came, it is waited for again; the output's end is a failure.
pub proof fn law_a_message_may_take_several_waits(
    deadline: u64,
    log: Seq<Reply>,
    at: nat,
    now: u64,
    message: Json,
)
    requires
        log.len() > at + 2,
        log[at as int] == Reply::Flag(false),
        log[at as int + 1] == Reply::Number(now),
        now < deadline,
    ensures
        log[at as int + 2] == Reply::Message(message) ==> next_message_run(deadline, log, at)
            == Run::Done(message@, at + 3),
        log[at as int + 2] is Missing ==> next_message_run(deadline, log, at) == next_message_run(
            deadline,
            log,
            at + 3,
        ),
        log[at as int + 2] is Closed ==> next_message_run(deadline, log, at) is Fail,
{
}

/// A server is asked to end, and made to where it has not after a second.
pub proof fn law_how_a_server_is_stopped(log: Seq<Reply>, at: nat, now: u64, then: u64)
    requires
        now < u64::MAX - 1_000_000_000,
    ensures
        log.len() == at ==> stop_server_run(log, at) == Run::<()>::Ask(
            RequestView::SignalServer { force: false },
        ),
        log.len() == at + 3 && log[at as int] == Reply::Done && log[at as int + 1] == Reply::Number(
            now,
        ) && log[at as int + 2] == Reply::Number(then) ==> stop_server_run(log, at) == Run::<
            (),
        >::Ask(
            if then >= now + 1_000_000_000 {
                RequestView::SignalServer { force: true }
            } else {
                RequestView::ServerExited
            },
        ),
        log.len() > at + 3 && log[at as int] == Reply::Done && log[at as int + 1] == Reply::Number(
            now,
        ) && log[at as int + 2] == Reply::Number(then) && then < now + 1_000_000_000 && log[at as int
            + 3] == Reply::Flag(true) ==> stop_server_run(log, at) == Run::Done((), at + 4),
        log.len() == at + 4 && log[at as int] == Reply::Done && log[at as int + 1] == Reply::Number(
            now,
        ) && log[at as int + 2] == Reply::Number(then) && then < now + 1_000_000_000 && log[at as int
            + 3] == Reply::Flag(false) ==> stop_server_run(log, at) == Run::<()>::Ask(
            RequestView::Sleep(10_000_000),
        ),
{
}

/// A request has the number, the method and the parameters that it was made with.
pub proof fn law_a_request_says_what_is_asked(id: int, method: Seq<char>, params: JsonView)
    ensures
        request_message(id, method, Some(params)) == JsonView::Object(
            seq![
                ("id"@, JsonView::Integer(id)),
                ("method"@, JsonView::Text(method)),
                ("params"@, params),
            ],
        ),
        request_message(id, method, None) == JsonView::Object(
            seq![("id"@, JsonView::Integer(id)), ("method"@, JsonView::Text(method))],
        ),
{
}

/// A server is greeted, then asked whose account it has, without having its token refreshed, and then
/// for the quota.
pub proof fn law_a_quota_is_asked_for(
    log: Seq<Reply>,
    greeting: Json,
    account: Json,
)
    requires
        log == seq![
            Reply::Done,
            Reply::Message(greeting),
            Reply::Done,
            Reply::Done,
            Reply::Message(account),
        ],
        greeting@.integer_at("id"@) == Some(0int),
        greeting@.get("error"@) is None,
        account@.integer_at("id"@) == Some(1int),
        account@.get("error"@) is None,
    ensures
        query_run(log.take(0), 0) == Run::<JsonView>::Ask(
            RequestView::Send(
                JsonView::Object(
                    seq![
                        ("id"@, JsonView::Integer(0)),
                        ("method"@, JsonView::Text("initialize"@)),
                        (
                            "params"@,
                            JsonView::Object(
                                seq![
                                    (
                                        "clientInfo"@,
                                        JsonView::Object(
                                            seq![
                                                ("name"@, JsonView::Text("cxa"@)),
                                                (
                                                    "title"@,
                                                    JsonView::Text("Codex Account Switcher"@),
                                                ),
                                                ("version"@, JsonView::Text("1"@)),
                                            ],
                                        ),
                                    ),
                                ],
                            ),
                        ),
                    ],
                ),
            ),
        ),
        query_run(log.take(2), 0) == Run::<JsonView>::Ask(
            RequestView::Send(
                JsonView::Object(seq![("method"@, JsonView::Text("initialized"@))]),
            ),
        ),
        query_run(log.take(3), 0) == Run::<JsonView>::Ask(
            RequestView::Send(
                JsonView::Object(
                    seq![
                        ("id"@, JsonView::Integer(1)),
                        ("method"@, JsonView::Text("account/read"@)),
                        (
                            "params"@,
                            JsonView::Object(seq![("refreshToken"@, JsonView::Bool(false))]),
                        ),
                    ],
                ),
            ),
        ),
        query_run(log, 0) == Run::<JsonView>::Ask(
            RequestView::Send(
                JsonView::Object(
                    seq![
                        ("id"@, JsonView::Integer(2)),
                        ("method"@, JsonView::Text("account/rateLimits/read"@)),
                    ],
                ),
            ),
        ),
{
    reveal_with_fuel(response_run, 2);
}

/// A response with an error fails, with what the error says where details are wanted; one without has
/// its result, and an empty one where there is none.
pub proof fn law_what_a_response_comes_to(response: JsonView, method: Seq<char>, detailed: bool)
    ensures
        (response.get("error"@) matches Some(error) && error !is Null) ==> outcome(
            response,
            method,
            detailed,
        ) is Err,
        (response.get("error"@) matches Some(error) && error !is Null && detailed
            && error.text_at("message"@) is Some) ==> outcome(response, method, detailed) == Err::<
            JsonView,
            ErrorView,
        >(
            ErrorView::Protocol(
                method + " failed"@ + ": "@ + response.get("error"@)->0.text_at("message"@)->0,
            ),
        ),
        (response.get("error"@) is None || response.get("error"@) == Some(JsonView::Null))
            && response.get("result"@) is Some ==> outcome(response, method, detailed) == Ok::<
            JsonView,
            ErrorView,
        >(response.get("result"@)->0),
        (response.get("error"@) is None || response.get("error"@) == Some(JsonView::Null))
            && response.get("result"@) is None ==> outcome(response, method, detailed) == Ok::<
            JsonView,
            ErrorView,
        >(JsonView::Object(Seq::empty())),
{
}

/// A request that a server makes is refused under its own number; a notice is passed over, and so is
/// everything where nothing is to be answered.
pub proof fn law_what_a_server_asks_is_refused(message: JsonView)
    ensures
        refusal_due(message, false) is None,
        message.text_at("method"@) is None || message.get("id"@) is None ==> refusal_due(
            message,
            true,
        ) is None,
        message.text_at("method"@) is Some && message.get("id"@) is Some ==> refusal_due(
            message,
            true,
        ) == Some(
            JsonView::Object(
                seq![
                    (
                        "error"@,
                        JsonView::Object(
                            seq![
                                ("code"@, JsonView::Integer(-32601)),
                                (
                                    "message"@,
                                    JsonView::Text(
                                        "unsupported server request: "@ + message.text_at(
                                            "method"@,
                                        )->0,
                                    ),
                                ),
                            ],
                        ),
                    ),
                    ("id"@, message.get("id"@)->0),
                ],
            ),
        ),
{
}

}
