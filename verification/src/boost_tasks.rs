//! What a boost does with the tasks of an app server.
use crate::boost_policy::{
    BASELINE_EFFORT, BASELINE_TIER, BOOST_EFFORT, BOOST_MODEL, FAST_TIER,
};
use crate::boost_state::{stop_path, task_views, Files, Task, TaskView};
use crate::config::Config;
use crate::effects::{
    ask, clock, clock_run, done, done_run, flag, flag_run, mismatch, mismatched, reply_run, time,
    time_run, told, told_json_ref, told_opt_text, Halt, Reply, Request, RequestView, Run,
};
use crate::error::{Error, ErrorView};
use crate::json::{
    field, field_views, object, object1, object2, text_under, text_under_is, views, Field, Json,
    JsonView,
};
use crate::text::{holds, same, texts};
use vstd::prelude::*;

verus! {

/// How long a change may take to show, in nanoseconds.
pub const SETTLE_TIME: u64 = 5_000_000_000;

/// How long to wait before looking again, in nanoseconds.
pub const LOOK_AGAIN: u64 = 50_000_000;

// ---------------------------------------------------------------- calls

/// A call on the control connection.
pub open spec fn rpc_run(log: Seq<Reply>, at: nat, method: Seq<char>, params: JsonView) -> Run<
    JsonView,
> {
    reply_run(log, at, RequestView::Call { method, params }).bind(
        |reply: Reply, n: nat|
            match reply {
                Reply::Message(result) => Run::Done(result@, n),
                Reply::Failed(error) => Run::Fail(error@, n),
                _ => Run::Fail(mismatch(), n),
            },
    )
}

fn rpc<'a>(method: &str, params: Json, log: &'a Vec<Reply>, at: &mut usize) -> (r: Result<
    &'a Json,
    Halt,
>)
    requires
        *old(at) <= log.len(),
    ensures
        *final(at) <= log.len(),
        told_json_ref(r, *final(at), rpc_run(log@, *old(at) as nat, method@, params@)),
{
    match ask(log, at, Request::Call { method: method.to_owned(), params })? {
        Reply::Message(result) => Ok(result),
        Reply::Failed(error) => Err(Halt::Fail(error.clone())),
        _ => Err(mismatched()),
    }
}

/// What is said when an app server cannot be controlled.
pub open spec fn unreachable_text(path: Seq<char>, error: ErrorView) -> Seq<char> {
    "Cannot control Codex at "@ + path + ": "@ + error.text()
        + ". Boost requires an existing app-server Unix socket; desktop sessions using private stdio are not covered. No process is restarted or replaced."@
}

/// Opens a control connection.
pub open spec fn connect_run(log: Seq<Reply>, at: nat, path: Seq<char>) -> Run<()> {
    reply_run(log, at, RequestView::Dial(path)).bind(
        |reply: Reply, n: nat|
            match reply {
                Reply::Done => Run::Done((), n),
                Reply::Failed(error) => Run::Fail(
                    ErrorView::Message(unreachable_text(path, error@)),
                    n,
                ),
                _ => Run::Fail(mismatch(), n),
            },
    )
}

/// Opens a control connection.
pub fn connect(path: &str, log: &Vec<Reply>, at: &mut usize) -> (r: Result<(), Halt>)
    requires
        *old(at) <= log.len(),
    ensures
        *final(at) <= log.len(),
        told(r, *final(at), connect_run(log@, *old(at) as nat, path@)),
{
    match ask(log, at, Request::Dial(path.to_owned()))? {
        Reply::Done => Ok(()),
        Reply::Failed(error) => {
            let text = "Cannot control Codex at ".to_owned().concat(path).concat(": ").concat(
                &error.text(),
            ).concat(
                ". Boost requires an existing app-server Unix socket; desktop sessions using private stdio are not covered. No process is restarted or replaced.",
            );
            Err(Halt::Fail(Error::Message(text)))
        },
        _ => Err(mismatched()),
    }
}

/// The items of a list that has to be there.
pub open spec fn items_of(value: JsonView, name: Seq<char>) -> Result<Seq<JsonView>, ErrorView> {
    match value.list_at(name) {
        Some(items) => Ok(items),
        None => Err(ErrorView::Protocol("Missing "@ + name + " array"@)),
    }
}

/// The items of a list that has to be there.
pub fn array<'a>(value: &'a Json, name: &str) -> (r: Result<&'a Vec<Json>, Error>)
    ensures
        match r {
            Ok(items) => items_of(value@, name@) == Ok::<Seq<JsonView>, ErrorView>(views(items@)),
            Err(error) => items_of(value@, name@) == Err::<Seq<JsonView>, ErrorView>(error@),
        },
{
    match value.list_at(name) {
        Some(items) => Ok(items),
        None => Err(
            Error::Protocol("Missing ".to_owned().concat(name).concat(" array")),
        ),
    }
}

/// A place in a list that is read page by page.
pub open spec fn cursor_json(cursor: Option<Seq<char>>) -> JsonView {
    match cursor {
        Some(text) => JsonView::Text(text),
        None => JsonView::Null,
    }
}

fn cursor_value(cursor: Option<&String>) -> (r: Json)
    ensures
        r@ == cursor_json(
            match cursor {
                Some(text) => Some(text@),
                None => None,
            },
        ),
{
    match cursor {
        Some(text) => Json::of(text),
        None => Json::Null,
    }
}

// ---------------------------------------------------------------- the model

/// Whether a service tier is a fast one.
pub open spec fn fast_tier(tier: Option<Seq<char>>) -> bool {
    tier == Some("fast"@) || tier == Some("priority"@)
}

/// Whether a field that names a service tier names a fast one.
pub fn is_fast_tier(value: &Json, name: &str) -> (r: bool)
    ensures
        r == fast_tier(value@.text_at(name@)),
{
    value.text_at_is(name, "fast") || value.text_at_is(name, "priority")
}

/// Whether a model offers a reasoning effort.
pub open spec fn offers_effort(model: JsonView, effort: Seq<char>) -> bool {
    match model.list_at("supportedReasoningEfforts"@) {
        Some(items) => exists|i: int|
            0 <= i < items.len() && (#[trigger] items[i]).text_at("reasoningEffort"@) == Some(
                effort,
            ),
        None => false,
    }
}

/// Whether a model offers a fast tier.
pub open spec fn offers_fast(model: JsonView) -> bool {
    match model.list_at("serviceTiers"@) {
        Some(items) => exists|i: int|
            0 <= i < items.len() && fast_tier((#[trigger] items[i]).text_at("id"@)),
        None => false,
    }
}

/// Whether a model can be boosted and set back.
pub open spec fn boostable(model: JsonView) -> bool {
    offers_effort(model, BOOST_EFFORT@) && offers_effort(model, BASELINE_EFFORT@) && offers_fast(
        model,
    )
}

/// Whether the first model of that name can be boosted; `None` where there is none.
pub open spec fn model_verdict(models: Seq<JsonView>) -> Option<bool>
    decreases models.len(),
{
    if models.len() == 0 {
        None
    } else if models[0].text_at("model"@) == Some(BOOST_MODEL@) {
        Some(boostable(models[0]))
    } else {
        model_verdict(models.skip(1))
    }
}

fn has_effort(model: &Json, effort: &str) -> (r: bool)
    ensures
        r == offers_effort(model@, effort@),
{
    match model.list_at("supportedReasoningEfforts") {
        Some(items) => {
            let ghost all = views(items@);
            let mut i: usize = 0;
            while i < items.len()
                invariant
                    i <= items.len(),
                    all == views(items@),
                    model@.list_at("supportedReasoningEfforts"@) == Some(all),
                    forall|k: int|
                        0 <= k < i ==> (#[trigger] all[k]).text_at("reasoningEffort"@) != Some(
                            effort@,
                        ),
                decreases items.len() - i,
            {
                assert(all[i as int] == items@[i as int]@);
                if items[i].text_at_is("reasoningEffort", effort) {
                    return true;
                }
                i += 1;
            }
            false
        },
        None => false,
    }
}

fn has_fast(model: &Json) -> (r: bool)
    ensures
        r == offers_fast(model@),
{
    match model.list_at("serviceTiers") {
        Some(items) => {
            let ghost all = views(items@);
            let mut i: usize = 0;
            while i < items.len()
                invariant
                    i <= items.len(),
                    all == views(items@),
                    model@.list_at("serviceTiers"@) == Some(all),
                    forall|k: int| 0 <= k < i ==> !fast_tier((#[trigger] all[k]).text_at("id"@)),
                decreases items.len() - i,
            {
                assert(all[i as int] == items@[i as int]@);
                if is_fast_tier(&items[i], "id") {
                    return true;
                }
                i += 1;
            }
            false
        },
        None => false,
    }
}

fn judge_models(models: &Vec<Json>) -> (r: Option<bool>)
    ensures
        r == model_verdict(views(models@)),
{
    let ghost all = views(models@);
    let mut i: usize = 0;
    proof {
        assert(all.skip(0) =~= all);
    }
    while i < models.len()
        invariant
            i <= models.len(),
            all == views(models@),
            model_verdict(all) == model_verdict(all.skip(i as int)),
        decreases models.len() - i,
    {
        proof {
            assert(all.skip(i as int)[0] == models@[i as int]@);
            assert(all.skip(i as int).skip(1) =~= all.skip(i + 1));
        }
        if models[i].text_at_is("model", BOOST_MODEL) {
            return Some(
                has_effort(&models[i], BOOST_EFFORT) && has_effort(&models[i], BASELINE_EFFORT)
                    && has_fast(&models[i]),
            );
        }
        i += 1;
    }
    None
}

pub open spec fn model_params(cursor: Option<Seq<char>>) -> JsonView {
    JsonView::Object(
        seq![("cursor"@, cursor_json(cursor)), ("includeHidden"@, JsonView::Bool(false))],
    )
}

/// Looks for the boosted model page by page, where `seen` are the places read so far.
pub open spec fn model_run(
    log: Seq<Reply>,
    at: nat,
    cursor: Option<Seq<char>>,
    seen: Seq<Seq<char>>,
) -> Run<()>
    decreases log.len() - at,
{
    rpc_run(log, at, "model/list"@, model_params(cursor)).bind(
        |page: JsonView, n: nat|
            match items_of(page, "data"@) {
                Err(error) => Run::Fail(error, n),
                Ok(models) => match model_verdict(models) {
                    Some(true) => Run::Done((), n),
                    Some(false) => Run::Fail(
                        ErrorView::Message(
                            "This Codex account does not advertise Astra with Ultra, Medium, and Fast; nothing was boosted."@,
                        ),
                        n,
                    ),
                    None => match page.text_at("nextCursor"@) {
                        None => Run::Fail(
                            ErrorView::Message(
                                "Astra is not available in this server's live model catalog; nothing was boosted."@,
                            ),
                            n,
                        ),
                        Some(next) => if seen.contains(next) {
                            Run::Fail(ErrorView::Protocol("model/list repeated its cursor"@), n)
                        } else if at < n <= log.len() {
                            model_run(log, n, Some(next), seen.push(next))
                        } else {
                            Run::Fail(mismatch(), n)
                        },
                    },
                },
            },
    )
}

/// Requires that an app server offers the boosted model with all that a boost needs.
pub fn require_boost_model(log: &Vec<Reply>, at: &mut usize) -> (r: Result<(), Halt>)
    requires
        *old(at) <= log.len(),
    ensures
        *final(at) <= log.len(),
        told(r, *final(at), model_run(log@, *old(at) as nat, None, Seq::empty())),
{
    let mut cursor: Option<&String> = None;
    let mut seen: Vec<String> = Vec::new();
    proof {
        assert(texts(seen@) =~= Seq::empty());
    }
    loop
        invariant
            *at <= log.len(),
            model_run(log@, *old(at) as nat, None, Seq::empty()) == model_run(
                log@,
                *at as nat,
                match cursor {
                    Some(text) => Some(text@),
                    None => None,
                },
                texts(seen@),
            ),
        decreases log.len() - *at,
    {
        let params = object2(
            field("cursor", cursor_value(cursor)),
            field("includeHidden", Json::Bool(false)),
        );
        let page = rpc("model/list", params, log, at)?;
        let models = match array(page, "data") {
            Ok(models) => models,
            Err(error) => return Err(Halt::Fail(error)),
        };
        match judge_models(models) {
            Some(true) => return Ok(()),
            Some(false) => {
                return Err(
                    Halt::Fail(
                        Error::message(
                            "This Codex account does not advertise Astra with Ultra, Medium, and Fast; nothing was boosted.",
                        ),
                    ),
                );
            },
            None => {},
        }
        match page.text_at("nextCursor") {
            None => {
                return Err(
                    Halt::Fail(
                        Error::message(
                            "Astra is not available in this server's live model catalog; nothing was boosted.",
                        ),
                    ),
                );
            },
            Some(next) => {
                if holds(&seen, next) {
                    return Err(Halt::Fail(Error::protocol("model/list repeated its cursor")));
                }
                let ghost before = seen@;
                seen.push(next.clone());
                proof {
                    assert(texts(seen@) =~= texts(before).push(next@));
                }
                cursor = Some(next);
            },
        }
    }
}

// ---------------------------------------------------------------- loaded tasks

pub open spec fn read_params(id: Seq<char>) -> JsonView {
    JsonView::Object(
        seq![("includeTurns"@, JsonView::Bool(false)), ("threadId"@, JsonView::Text(id))],
    )
}

fn read_parameters(id: &str) -> (r: Json)
    ensures
        r@ == read_params(id@),
{
    object2(field("includeTurns", Json::Bool(false)), field("threadId", Json::of(id)))
}

/// Whether a thread belongs to another one.
pub open spec fn directed(thread: JsonView) -> bool {
    (thread.get("parentThreadId"@) matches Some(parent) && parent !is Null) || thread.bool_at(
        "canAcceptDirectInput"@,
    ) == Some(false)
}

/// Reads up on listed threads and keeps those of the provider.
pub open spec fn page_run(
    log: Seq<Reply>,
    at: nat,
    ids: Seq<JsonView>,
    socket: Seq<char>,
    tasks: Seq<TaskView>,
) -> Run<Seq<TaskView>>
    decreases ids.len(),
{
    if ids.len() == 0 {
        Run::Done(tasks, at)
    } else {
        match ids[0].text() {
            None => Run::Fail(ErrorView::Protocol("Invalid loaded task ID"@), at),
            Some(id) => rpc_run(log, at, "thread/read"@, read_params(id)).bind(
                |metadata: JsonView, n: nat|
                    match metadata.get("thread"@) {
                        None => Run::Fail(ErrorView::Protocol("Missing task metadata"@), n),
                        Some(thread) => if thread.text_at("modelProvider"@) != Some("openai"@) {
                            page_run(log, n, ids.skip(1), socket, tasks)
                        } else {
                            page_run(
                                log,
                                n,
                                ids.skip(1),
                                socket,
                                tasks.push(
                                    TaskView { socket, thread_id: id, child: directed(thread) },
                                ),
                            )
                        },
                    },
            ),
        }
    }
}

pub open spec fn list_params(cursor: Option<Seq<char>>) -> JsonView {
    JsonView::Object(seq![("cursor"@, cursor_json(cursor)), ("limit"@, JsonView::Integer(100))])
}

/// Reads the loaded tasks page by page.
pub open spec fn loaded_run(
    log: Seq<Reply>,
    at: nat,
    socket: Seq<char>,
    cursor: Option<Seq<char>>,
    seen: Seq<Seq<char>>,
    tasks: Seq<TaskView>,
) -> Run<Seq<TaskView>>
    decreases log.len() - at,
{
    rpc_run(log, at, "thread/loaded/list"@, list_params(cursor)).bind(
        |page: JsonView, n: nat|
            match items_of(page, "data"@) {
                Err(error) => Run::Fail(error, n),
                Ok(ids) => page_run(log, n, ids, socket, tasks).bind(
                    |more: Seq<TaskView>, m: nat|
                        match page.text_at("nextCursor"@) {
                            None => Run::Done(more, m),
                            Some(next) => if seen.contains(next) {
                                Run::Fail(
                                    ErrorView::Protocol("thread/loaded/list repeated its cursor"@),
                                    m,
                                )
                            } else if at < m <= log.len() {
                                loaded_run(log, m, socket, Some(next), seen.push(next), more)
                            } else {
                                Run::Fail(mismatch(), m)
                            },
                        },
                ),
            },
    )
}

/// `told` for a procedure whose result is a list of tasks.
pub open spec fn told_tasks(r: Result<Vec<Task>, Halt>, at: usize, run: Run<Seq<TaskView>>) -> bool {
    match r {
        Ok(tasks) => run == Run::Done(task_views(tasks@), at as nat),
        Err(Halt::Fail(error)) => run == Run::<Seq<TaskView>>::Fail(error@, at as nat),
        Err(Halt::Ask(request)) => run == Run::<Seq<TaskView>>::Ask(request@),
    }
}

fn is_directed(thread: &Json) -> (r: bool)
    ensures
        r == directed(thread@),
{
    let has_parent = match thread.get("parentThreadId") {
        Some(parent) => match parent {
            Json::Null => false,
            _ => true,
        },
        None => false,
    };
    has_parent || thread.bool_at("canAcceptDirectInput") == Some(false)
}

fn read_page(
    ids: &Vec<Json>,
    socket: &str,
    tasks: Vec<Task>,
    log: &Vec<Reply>,
    at: &mut usize,
) -> (r: Result<Vec<Task>, Halt>)
    requires
        *old(at) <= log.len(),
    ensures
        *final(at) <= log.len(),
        r is Ok ==> *old(at) <= *final(at),
        told_tasks(
            r,
            *final(at),
            page_run(log@, *old(at) as nat, views(ids@), socket@, task_views(tasks@)),
        ),
{
    let mut found = tasks;
    let ghost all = views(ids@);
    let ghost start = task_views(tasks@);
    let mut i: usize = 0;
    proof {
        assert(all.skip(0) =~= all);
    }
    while i < ids.len()
        invariant
            *old(at) <= *at <= log.len(),
            i <= ids.len(),
            all == views(ids@),
            page_run(log@, *old(at) as nat, all, socket@, start) == page_run(
                log@,
                *at as nat,
                all.skip(i as int),
                socket@,
                task_views(found@),
            ),
            start == task_views(tasks@),
        decreases ids.len() - i,
    {
        proof {
            assert(all.skip(i as int)[0] == ids@[i as int]@);
            assert(all.skip(i as int).skip(1) =~= all.skip(i + 1));
        }
        let id = match ids[i].text() {
            Some(id) => id,
            None => return Err(Halt::Fail(Error::protocol("Invalid loaded task ID"))),
        };
        let metadata = rpc("thread/read", read_parameters(id), log, at)?;
        let thread = match metadata.get("thread") {
            Some(thread) => thread,
            None => return Err(Halt::Fail(Error::protocol("Missing task metadata"))),
        };
        if thread.text_at_is("modelProvider", "openai") {
            let ghost was = found@;
            let task = Task {
                socket: socket.to_owned(),
                thread_id: id.clone(),
                child: is_directed(thread),
            };
            found.push(task);
            proof {
                assert(task_views(found@) =~= task_views(was).push(task@));
            }
        }
        i += 1;
    }
    Ok(found)
}

/// The tasks that an app server has loaded.
pub fn loaded_tasks(socket: &str, log: &Vec<Reply>, at: &mut usize) -> (r: Result<Vec<Task>, Halt>)
    requires
        *old(at) <= log.len(),
    ensures
        *final(at) <= log.len(),
        told_tasks(
            r,
            *final(at),
            loaded_run(log@, *old(at) as nat, socket@, None, Seq::empty(), Seq::empty()),
        ),
{
    let mut tasks: Vec<Task> = Vec::new();
    let mut cursor: Option<&String> = None;
    let mut seen: Vec<String> = Vec::new();
    proof {
        assert(texts(seen@) =~= Seq::empty());
        assert(task_views(tasks@) =~= Seq::empty());
    }
    loop
        invariant
            *at <= log.len(),
            loaded_run(log@, *old(at) as nat, socket@, None, Seq::empty(), Seq::empty())
                == loaded_run(
                log@,
                *at as nat,
                socket@,
                match cursor {
                    Some(text) => Some(text@),
                    None => None,
                },
                texts(seen@),
                task_views(tasks@),
            ),
        decreases log.len() - *at,
    {
        let params = object2(
            field("cursor", cursor_value(cursor)),
            field("limit", Json::Unsigned(100)),
        );
        let page = rpc("thread/loaded/list", params, log, at)?;
        let ids = match array(page, "data") {
            Ok(ids) => ids,
            Err(error) => return Err(Halt::Fail(error)),
        };
        tasks = read_page(ids, socket, tasks, log, at)?;
        match page.text_at("nextCursor") {
            None => return Ok(tasks),
            Some(next) => {
                if holds(&seen, next) {
                    return Err(
                        Halt::Fail(Error::protocol("thread/loaded/list repeated its cursor")),
                    );
                }
                let ghost before = seen@;
                seen.push(next.clone());
                proof {
                    assert(texts(seen@) =~= texts(before).push(next@));
                }
                cursor = Some(next);
            },
        }
    }
}

// ---------------------------------------------------------------- settings

pub open spec fn resume_params(id: Seq<char>) -> JsonView {
    JsonView::Object(
        seq![("excludeTurns"@, JsonView::Bool(true)), ("threadId"@, JsonView::Text(id))],
    )
}

/// The failure of a thread that has not saved anything yet.
pub open spec fn unsaved(id: Seq<char>) -> ErrorView {
    ErrorView::Protocol("thread/resume failed: no rollout found for thread id "@ + id)
}

/// Whether a thread is idle.
pub open spec fn idle(metadata: JsonView) -> bool {
    match metadata.get("thread"@) {
        Some(thread) => text_under(thread, "status"@, "type"@) == Some("idle"@),
        None => false,
    }
}

/// The settings of a task. A task that is loaded but has not saved its first message has none
/// yet; it is taken in once real work starts.
pub open spec fn settings_run(log: Seq<Reply>, at: nat, id: Seq<char>) -> Run<Option<JsonView>> {
    rpc_run(log, at, "thread/resume"@, resume_params(id)).bind(
        |settings: JsonView, n: nat| Run::Done(Some(settings), n),
    ).rescue(
        |error: ErrorView, n: nat|
            if error == unsaved(id) {
                rpc_run(log, n, "thread/read"@, read_params(id)).bind(
                    |metadata: JsonView, m: nat|
                        if idle(metadata) {
                            Run::Done(None, m)
                        } else {
                            Run::Fail(error, m)
                        },
                )
            } else {
                Run::Fail(error, n)
            },
    )
}

/// `told` for a procedure that may hand out a JSON value of a reply.
pub open spec fn told_opt_json(
    r: Result<Option<&Json>, Halt>,
    at: usize,
    run: Run<Option<JsonView>>,
) -> bool {
    match r {
        Ok(value) => run == Run::Done(
            match value {
                Some(json) => Some(json@),
                None => None,
            },
            at as nat,
        ),
        Err(Halt::Fail(error)) => run == Run::<Option<JsonView>>::Fail(error@, at as nat),
        Err(Halt::Ask(request)) => run == Run::<Option<JsonView>>::Ask(request@),
    }
}

fn is_idle(metadata: &Json) -> (r: bool)
    ensures
        r == idle(metadata@),
{
    match metadata.get("thread") {
        Some(thread) => text_under_is(thread, "status", "type", "idle"),
        None => false,
    }
}

/// The settings of a task, if it has saved anything yet.
pub fn live_settings<'a>(id: &str, log: &'a Vec<Reply>, at: &mut usize) -> (r: Result<
    Option<&'a Json>,
    Halt,
>)
    requires
        *old(at) <= log.len(),
    ensures
        *final(at) <= log.len(),
        told_opt_json(r, *final(at), settings_run(log@, *old(at) as nat, id@)),
{
    let params = object2(
        field("excludeTurns", Json::Bool(true)),
        field("threadId", Json::of(id)),
    );
    let error = match rpc("thread/resume", params, log, at) {
        Ok(settings) => return Ok(Some(settings)),
        Err(Halt::Ask(request)) => return Err(Halt::Ask(request)),
        Err(Halt::Fail(error)) => error,
    };
    let expected = "thread/resume failed: no rollout found for thread id ".to_owned().concat(id);
    let unsaved = match &error {
        Error::Protocol(text) => same(text, &expected),
        _ => false,
    };
    if !unsaved {
        return Err(Halt::Fail(error));
    }
    let metadata = rpc("thread/read", read_parameters(id), log, at)?;
    if is_idle(metadata) {
        Ok(None)
    } else {
        Err(Halt::Fail(error))
    }
}

/// Whether settings are those of a boost, or those of the baseline.
pub open spec fn matching(settings: JsonView, boosted: bool) -> bool {
    &&& settings.text_at("model"@) == Some(BOOST_MODEL@)
    &&& settings.text_at("reasoningEffort"@) == Some(
        if boosted {
            BOOST_EFFORT@
        } else {
            BASELINE_EFFORT@
        },
    )
    &&& if boosted {
        fast_tier(settings.text_at("serviceTier"@))
    } else {
        settings.text_at("serviceTier"@) == Some(BASELINE_TIER@)
    }
}

/// Whether settings are those of a boost, or those of the baseline.
pub fn settings_match(settings: &Json, boosted: bool) -> (r: bool)
    ensures
        r == matching(settings@, boosted),
{
    let effort = if boosted {
        BOOST_EFFORT
    } else {
        BASELINE_EFFORT
    };
    settings.text_at_is("model", BOOST_MODEL) && settings.text_at_is("reasoningEffort", effort)
        && if boosted {
        is_fast_tier(settings, "serviceTier")
    } else {
        settings.text_at_is("serviceTier", BASELINE_TIER)
    }
}

pub open spec fn effort_for(boosted: bool) -> Seq<char> {
    if boosted {
        BOOST_EFFORT@
    } else {
        BASELINE_EFFORT@
    }
}

pub open spec fn tier_for(boosted: bool) -> Seq<char> {
    if boosted {
        FAST_TIER@
    } else {
        BASELINE_TIER@
    }
}

pub open spec fn update_params(id: Seq<char>, boosted: bool) -> JsonView {
    JsonView::Object(
        seq![
            ("effort"@, JsonView::Text(effort_for(boosted))),
            ("model"@, JsonView::Text(BOOST_MODEL@)),
            ("serviceTier"@, JsonView::Text(tier_for(boosted))),
            ("threadId"@, JsonView::Text(id)),
        ],
    )
}

/// Looks at a task's settings until they are as asked for, or the time is up.
pub open spec fn settle_run(
    log: Seq<Reply>,
    at: nat,
    id: Seq<char>,
    boosted: bool,
    deadline: int,
) -> Run<()>
    decreases log.len() - at,
{
    settings_run(log, at, id).bind(
        |found: Option<JsonView>, n: nat|
            if found matches Some(settings) && matching(settings, boosted) {
                Run::Done((), n)
            } else {
                clock_run(log, n).bind(
                    |now: u64, m: nat|
                        if now >= deadline {
                            Run::Fail(
                                ErrorView::Message(
                                    "Task "@ + id + " did not apply its requested settings."@,
                                ),
                                m,
                            )
                        } else {
                            done_run(log, m, RequestView::Sleep(LOOK_AGAIN)).next(
                                |k: nat|
                                    if at < k <= log.len() {
                                        settle_run(log, k, id, boosted, deadline)
                                    } else {
                                        Run::Fail(mismatch(), k)
                                    },
                            )
                        },
                )
            },
    )
}

/// Changes a task's settings, and waits until the change shows.
pub open spec fn set_run(log: Seq<Reply>, at: nat, id: Seq<char>, boosted: bool) -> Run<()> {
    rpc_run(log, at, "thread/settings/update"@, update_params(id, boosted)).next(
        |n: nat|
            clock_run(log, n).bind(
                |now: u64, m: nat| settle_run(log, m, id, boosted, now + SETTLE_TIME),
            ),
    )
}

fn update_parameters(id: &str, boosted: bool) -> (r: Json)
    ensures
        r@ == update_params(id@, boosted),
{
    let effort = if boosted {
        BOOST_EFFORT
    } else {
        BASELINE_EFFORT
    };
    let tier = if boosted {
        FAST_TIER
    } else {
        BASELINE_TIER
    };
    let fields: Vec<Field> = vec![
        field("effort", Json::of(effort)),
        field("model", Json::of(BOOST_MODEL)),
        field("serviceTier", Json::of(tier)),
        field("threadId", Json::of(id)),
    ];
    proof {
        assert(field_views(fields@) =~= update_params(id@, boosted)->Object_0);
    }
    object(fields)
}

/// Whether so much time has passed.
fn is_past(start: u64, span: u64, now: u64) -> (r: bool)
    ensures
        r == (now >= start + span),
{
    now >= start && now - start >= span
}

/// Changes a task's settings, and waits until the change shows.
pub fn set_task_settings(id: &str, boosted: bool, log: &Vec<Reply>, at: &mut usize) -> (r: Result<
    (),
    Halt,
>)
    requires
        *old(at) <= log.len(),
    ensures
        *final(at) <= log.len(),
        told(r, *final(at), set_run(log@, *old(at) as nat, id@, boosted)),
{
    let _ = rpc("thread/settings/update", update_parameters(id, boosted), log, at)?;
    let start: u64 = clock(log, at)?;
    let ghost begin = *at as nat;
    loop
        invariant
            *at <= log.len(),
            settle_run(log@, begin, id@, boosted, start + SETTLE_TIME) == settle_run(
                log@,
                *at as nat,
                id@,
                boosted,
                start + SETTLE_TIME,
            ),
            set_run(log@, *old(at) as nat, id@, boosted) == settle_run(
                log@,
                begin,
                id@,
                boosted,
                start + SETTLE_TIME,
            ),
        decreases log.len() - *at,
    {
        if let Some(settings) = live_settings(id, log, at)? {
            if settings_match(settings, boosted) {
                return Ok(());
            }
        }
        let now: u64 = clock(log, at)?;
        if is_past(start, SETTLE_TIME, now) {
            return Err(
                Halt::Fail(
                    Error::Message(
                        "Task ".to_owned().concat(id).concat(
                            " did not apply its requested settings.",
                        ),
                    ),
                ),
            );
        }
        done(log, at, Request::Sleep(LOOK_AGAIN))?;
    }
}

// ---------------------------------------------------------------- turns

pub open spec fn turns_params(id: Seq<char>) -> JsonView {
    JsonView::Object(
        seq![
            ("itemsView"@, JsonView::Text("notLoaded"@)),
            ("limit"@, JsonView::Integer(1)),
            ("sortDirection"@, JsonView::Text("desc"@)),
            ("threadId"@, JsonView::Text(id)),
        ],
    )
}

/// The turn that is under way, among turns from the latest back.
pub open spec fn turn_under_way(turns: Seq<JsonView>) -> Option<Seq<char>> {
    if turns.len() > 0 && turns[0].text_at("status"@) == Some("inProgress"@) {
        turns[0].text_at("id"@)
    } else {
        None
    }
}

/// The turn of a task that is under way.
pub open spec fn turn_run(log: Seq<Reply>, at: nat, id: Seq<char>) -> Run<Option<Seq<char>>> {
    rpc_run(log, at, "thread/turns/list"@, turns_params(id)).bind(
        |page: JsonView, n: nat|
            match items_of(page, "data"@) {
                Err(error) => Run::Fail(error, n),
                Ok(turns) => Run::Done(turn_under_way(turns), n),
            },
    )
}

fn turns_parameters(id: &str) -> (r: Json)
    ensures
        r@ == turns_params(id@),
{
    let fields: Vec<Field> = vec![
        field("itemsView", Json::of("notLoaded")),
        field("limit", Json::Unsigned(1)),
        field("sortDirection", Json::of("desc")),
        field("threadId", Json::of(id)),
    ];
    proof {
        assert(field_views(fields@) =~= turns_params(id@)->Object_0);
    }
    object(fields)
}

/// The turn of a task that is under way.
pub fn active_turn(id: &str, log: &Vec<Reply>, at: &mut usize) -> (r: Result<Option<String>, Halt>)
    requires
        *old(at) <= log.len(),
    ensures
        *final(at) <= log.len(),
        told_opt_text(r, *final(at), turn_run(log@, *old(at) as nat, id@)),
{
    let page = rpc("thread/turns/list", turns_parameters(id), log, at)?;
    let turns = match array(page, "data") {
        Ok(turns) => turns,
        Err(error) => return Err(Halt::Fail(error)),
    };
    if turns.len() > 0 {
        assert(views(turns@)[0] == turns@[0]@);
        if turns[0].text_at_is("status", "inProgress") {
            return match turns[0].text_at("id") {
                Some(turn) => Ok(Some(turn.clone())),
                None => Ok(None),
            };
        }
    }
    Ok(None)
}

pub open spec fn interrupt_params(id: Seq<char>, turn: Seq<char>) -> JsonView {
    JsonView::Object(seq![("threadId"@, JsonView::Text(id)), ("turnId"@, JsonView::Text(turn))])
}

/// Looks at a task until no turn is under way, or the time is up.
pub open spec fn quiet_run(log: Seq<Reply>, at: nat, id: Seq<char>, deadline: int) -> Run<bool>
    decreases log.len() - at,
{
    turn_run(log, at, id).bind(
        |turn: Option<Seq<char>>, n: nat|
            if turn is None {
                Run::Done(true, n)
            } else {
                clock_run(log, n).bind(
                    |now: u64, m: nat|
                        if now >= deadline {
                            Run::Fail(
                                ErrorView::Message(
                                    "Task "@ + id + " did not stop after interruption."@,
                                ),
                                m,
                            )
                        } else {
                            done_run(log, m, RequestView::Sleep(LOOK_AGAIN)).next(
                                |k: nat|
                                    if at < k <= log.len() {
                                        quiet_run(log, k, id, deadline)
                                    } else {
                                        Run::Fail(mismatch(), k)
                                    },
                            )
                        },
                )
            },
    )
}

/// Interrupts a task's turn and waits until it has ended: whether one was under way.
pub open spec fn interrupt_run(log: Seq<Reply>, at: nat, id: Seq<char>) -> Run<bool> {
    turn_run(log, at, id).bind(
        |turn: Option<Seq<char>>, n: nat|
            match turn {
                None => Run::Done(false, n),
                Some(turn) => rpc_run(log, n, "turn/interrupt"@, interrupt_params(id, turn)).next(
                    |m: nat|
                        clock_run(log, m).bind(
                            |now: u64, k: nat| quiet_run(log, k, id, now + SETTLE_TIME),
                        ),
                ),
            },
    )
}

/// Interrupts a task's turn and waits until it has ended: whether one was under way.
pub fn interrupt(id: &str, log: &Vec<Reply>, at: &mut usize) -> (r: Result<bool, Halt>)
    requires
        *old(at) <= log.len(),
    ensures
        *final(at) <= log.len(),
        told(r, *final(at), interrupt_run(log@, *old(at) as nat, id@)),
{
    let turn = match active_turn(id, log, at)? {
        Some(turn) => turn,
        None => return Ok(false),
    };
    let params = object2(field("threadId", Json::of(id)), field("turnId", Json::of(&turn)));
    let _ = rpc("turn/interrupt", params, log, at)?;
    let start: u64 = clock(log, at)?;
    let ghost begin = *at as nat;
    loop
        invariant
            *at <= log.len(),
            quiet_run(log@, begin, id@, start + SETTLE_TIME) == quiet_run(
                log@,
                *at as nat,
                id@,
                start + SETTLE_TIME,
            ),
            interrupt_run(log@, *old(at) as nat, id@) == quiet_run(
                log@,
                begin,
                id@,
                start + SETTLE_TIME,
            ),
        decreases log.len() - *at,
    {
        if active_turn(id, log, at)?.is_none() {
            return Ok(true);
        }
        let now: u64 = clock(log, at)?;
        if is_past(start, SETTLE_TIME, now) {
            return Err(
                Halt::Fail(
                    Error::Message(
                        "Task ".to_owned().concat(id).concat(" did not stop after interruption."),
                    ),
                ),
            );
        }
        done(log, at, Request::Sleep(LOOK_AGAIN))?;
    }
}

// ---------------------------------------------------------------- boosting

/// Why a boost has to end now, if it has to: it was asked to, or its time is up.
pub open spec fn cutoff_run(config: Config, deadline: i64, log: Seq<Reply>, at: nat) -> Run<
    Option<Seq<char>>,
> {
    flag_run(log, at, RequestView::Signalled).bind(
        |signalled: bool, n: nat|
            if signalled {
                Run::Done(Some("Stop requested"@), n)
            } else {
                flag_run(log, n, RequestView::Exists(stop_path(config))).bind(
                    |asked: bool, m: nat|
                        if asked {
                            Run::Done(Some("Stop requested"@), m)
                        } else {
                            time_run(log, m, RequestView::Now).bind(
                                |now: i64, k: nat|
                                    Run::Done(
                                        if now >= deadline {
                                            Some("Deadline reached"@)
                                        } else {
                                            None
                                        },
                                        k,
                                    ),
                            )
                        },
                )
            },
    )
}

/// Why a boost has to end now, if it has to.
pub fn cutoff(
    config: &Config,
    files: &Files,
    deadline: i64,
    log: &Vec<Reply>,
    at: &mut usize,
) -> (r: Result<Option<String>, Halt>)
    requires
        files.of(*config),
        *old(at) <= log.len(),
    ensures
        *final(at) <= log.len(),
        told_opt_text(r, *final(at), cutoff_run(*config, deadline, log@, *old(at) as nat)),
{
    if flag(log, at, Request::Signalled)? {
        return Ok(Some("Stop requested".to_owned()));
    }
    if flag(log, at, Request::Exists(files.stop.clone()))? {
        return Ok(Some("Stop requested".to_owned()));
    }
    let now: i64 = time(log, at, Request::Now)?;
    if now >= deadline {
        Ok(Some("Deadline reached".to_owned()))
    } else {
        Ok(None)
    }
}

pub open spec fn turn_update_params(id: Seq<char>, turn: Seq<char>) -> JsonView {
    JsonView::Object(
        seq![
            ("effort"@, JsonView::Text(BOOST_EFFORT@)),
            ("model"@, JsonView::Text(BOOST_MODEL@)),
            ("serviceTier"@, JsonView::Text(FAST_TIER@)),
            ("threadId"@, JsonView::Text(id)),
            ("turnId"@, JsonView::Text(turn)),
        ],
    )
}

pub open spec fn continue_params(id: Seq<char>) -> JsonView {
    JsonView::Object(
        seq![
            ("effort"@, JsonView::Text(BOOST_EFFORT@)),
            (
                "input"@,
                JsonView::List(
                    seq![
                        JsonView::Object(
                            seq![
                                (
                                    "text"@,
                                    JsonView::Text(
                                        "Continue the interrupted task from its current state."@,
                                    ),
                                ),
                                ("text_elements"@, JsonView::List(Seq::empty())),
                                ("type"@, JsonView::Text("text"@)),
                            ],
                        ),
                    ],
                ),
            ),
            ("model"@, JsonView::Text(BOOST_MODEL@)),
            ("serviceTier"@, JsonView::Text(FAST_TIER@)),
            ("threadId"@, JsonView::Text(id)),
        ],
    )
}

/// Boosts a task that another thread directs: its settings change, with those of its turn, and
/// nothing is interrupted or started.
pub open spec fn boost_child_run(log: Seq<Reply>, at: nat, id: Seq<char>) -> Run<()> {
    turn_run(log, at, id).bind(
        |turn: Option<Seq<char>>, n: nat|
            match turn {
                Some(turn) => rpc_run(
                    log,
                    n,
                    "turn/settings/update"@,
                    turn_update_params(id, turn),
                ).next(|m: nat| set_run(log, m, id, true)),
                None => set_run(log, n, id, true),
            },
    )
}

/// Boosts a task of its own: it is interrupted, set anew, and continued where it was running.
pub open spec fn boost_own_run(
    config: Config,
    deadline: i64,
    log: Seq<Reply>,
    at: nat,
    id: Seq<char>,
) -> Run<()> {
    interrupt_run(log, at, id).bind(
        |was_running: bool, n: nat|
            cutoff_run(config, deadline, log, n).bind(
                |over: Option<Seq<char>>, m: nat|
                    if over is Some {
                        Run::Done((), m)
                    } else {
                        set_run(log, m, id, true).next(
                            |k: nat|
                                if !was_running {
                                    Run::Done((), k)
                                } else {
                                    cutoff_run(config, deadline, log, k).bind(
                                        |late: Option<Seq<char>>, q: nat|
                                            if late is Some {
                                                Run::Done((), q)
                                            } else {
                                                rpc_run(
                                                    log,
                                                    q,
                                                    "turn/start"@,
                                                    continue_params(id),
                                                ).next(|z: nat| Run::Done((), z))
                                            },
                                    )
                                },
                        )
                    },
            ),
    )
}

/// Boosts a task, unless it is boosted already or the boost has to end.
pub open spec fn boost_run(
    config: Config,
    deadline: i64,
    log: Seq<Reply>,
    at: nat,
    task: TaskView,
    settings: JsonView,
    newly_enrolled: bool,
) -> Run<()> {
    if !newly_enrolled && matching(settings, true) {
        Run::Done((), at)
    } else {
        cutoff_run(config, deadline, log, at).bind(
            |over: Option<Seq<char>>, n: nat|
                if over is Some {
                    Run::Done((), n)
                } else if task.child {
                    boost_child_run(log, n, task.thread_id)
                } else {
                    boost_own_run(config, deadline, log, n, task.thread_id)
                },
        )
    }
}

fn turn_update_parameters(id: &str, turn: &str) -> (r: Json)
    ensures
        r@ == turn_update_params(id@, turn@),
{
    let fields: Vec<Field> = vec![
        field("effort", Json::of(BOOST_EFFORT)),
        field("model", Json::of(BOOST_MODEL)),
        field("serviceTier", Json::of(FAST_TIER)),
        field("threadId", Json::of(id)),
        field("turnId", Json::of(turn)),
    ];
    proof {
        assert(field_views(fields@) =~= turn_update_params(id@, turn@)->Object_0);
    }
    object(fields)
}

/// A list of values.
fn list(items: Vec<Json>) -> (r: Json)
    ensures
        r@ == JsonView::List(views(items@)),
{
    let r = Json::List(items);
    proof {
        assert(r@->List_0 =~= views(items@));
    }
    r
}

fn continue_parameters(id: &str) -> (r: Json)
    ensures
        r@ == continue_params(id@),
{
    let no_items: Vec<Json> = Vec::new();
    proof {
        assert(views(no_items@) =~= Seq::empty());
    }
    let text_fields: Vec<Field> = vec![
        field("text", Json::of("Continue the interrupted task from its current state.")),
        field("text_elements", list(no_items)),
        field("type", Json::of("text")),
    ];
    let ghost inner = continue_params(id@)->Object_0[1].1->List_0;
    proof {
        assert(field_views(text_fields@) =~= inner[0]->Object_0);
    }
    let items: Vec<Json> = vec![object(text_fields)];
    proof {
        assert(views(items@) =~= inner);
    }
    let fields: Vec<Field> = vec![
        field("effort", Json::of(BOOST_EFFORT)),
        field("input", list(items)),
        field("model", Json::of(BOOST_MODEL)),
        field("serviceTier", Json::of(FAST_TIER)),
        field("threadId", Json::of(id)),
    ];
    proof {
        assert(field_views(fields@) =~= continue_params(id@)->Object_0);
    }
    object(fields)
}

/// Boosts a task, unless it is boosted already or the boost has to end.
pub fn boost_task(
    config: &Config,
    files: &Files,
    task: &Task,
    settings: &Json,
    deadline: i64,
    newly_enrolled: bool,
    log: &Vec<Reply>,
    at: &mut usize,
) -> (r: Result<(), Halt>)
    requires
        files.of(*config),
        *old(at) <= log.len(),
    ensures
        *final(at) <= log.len(),
        told(
            r,
            *final(at),
            boost_run(
                *config,
                deadline,
                log@,
                *old(at) as nat,
                task@,
                settings@,
                newly_enrolled,
            ),
        ),
{
    if !newly_enrolled && settings_match(settings, true) {
        return Ok(());
    }
    if cutoff(config, files, deadline, log, at)?.is_some() {
        return Ok(());
    }
    let id = &task.thread_id;
    if task.child {
        if let Some(turn) = active_turn(id, log, at)? {
            let _ = rpc("turn/settings/update", turn_update_parameters(id, &turn), log, at)?;
        }
        return set_task_settings(id, true, log, at);
    }
    let was_running = interrupt(id, log, at)?;
    if cutoff(config, files, deadline, log, at)?.is_some() {
        return Ok(());
    }
    set_task_settings(id, true, log, at)?;
    if was_running {
        if cutoff(config, files, deadline, log, at)?.is_none() {
            let _ = rpc("turn/start", continue_parameters(id), log, at)?;
        }
    }
    Ok(())
}

// ---------------------------------------------------------------- before a boost

pub open spec fn account_params() -> JsonView {
    JsonView::Object(seq![("refreshToken"@, JsonView::Bool(false))])
}

/// Checks one app server.
pub open spec fn check_run(log: Seq<Reply>, at: nat, path: Seq<char>) -> Run<()> {
    connect_run(log, at, path).next(
        |n: nat|
            rpc_run(log, n, "account/read"@, account_params()).bind(
                |account: JsonView, m: nat|
                    if text_under(account, "account"@, "type"@) != Some("chatgpt"@) {
                        Run::Fail(
                            ErrorView::Message(
                                "Boost requires a ChatGPT account on "@ + path
                                    + "; API-key sessions are not supported."@,
                            ),
                            m,
                        )
                    } else {
                        model_run(log, m, None, Seq::empty()).next(
                            |k: nat|
                                loaded_run(
                                    log,
                                    k,
                                    path,
                                    None,
                                    Seq::empty(),
                                    Seq::empty(),
                                ).next(|q: nat| Run::Done((), q)),
                        )
                    },
            ),
    )
}

/// Checks all app servers that a boost is to cover.
pub open spec fn preflight_run(log: Seq<Reply>, at: nat, paths: Seq<Seq<char>>) -> Run<()>
    decreases paths.len(),
{
    if paths.len() == 0 {
        Run::Done((), at)
    } else {
        check_run(log, at, paths[0]).next(|n: nat| preflight_run(log, n, paths.skip(1)))
    }
}

fn check(path: &str, log: &Vec<Reply>, at: &mut usize) -> (r: Result<(), Halt>)
    requires
        *old(at) <= log.len(),
    ensures
        *final(at) <= log.len(),
        told(r, *final(at), check_run(log@, *old(at) as nat, path@)),
{
    connect(path, log, at)?;
    let params = object1(field("refreshToken", Json::Bool(false)));
    let account = rpc("account/read", params, log, at)?;
    if !text_under_is(account, "account", "type", "chatgpt") {
        return Err(
            Halt::Fail(
                Error::Message(
                    "Boost requires a ChatGPT account on ".to_owned().concat(path).concat(
                        "; API-key sessions are not supported.",
                    ),
                ),
            ),
        );
    }
    require_boost_model(log, at)?;
    let _ = loaded_tasks(path, log, at)?;
    Ok(())
}

/// Checks all app servers that a boost is to cover: that they can be controlled, belong to a
/// ChatGPT account and offer the model. Nothing is changed.
pub fn preflight(paths: &Vec<String>, log: &Vec<Reply>, at: &mut usize) -> (r: Result<(), Halt>)
    requires
        *old(at) <= log.len(),
    ensures
        *final(at) <= log.len(),
        told(r, *final(at), preflight_run(log@, *old(at) as nat, texts(paths@))),
{
    let ghost all = texts(paths@);
    let mut i: usize = 0;
    proof {
        assert(all.skip(0) =~= all);
    }
    while i < paths.len()
        invariant
            *at <= log.len(),
            i <= paths.len(),
            all == texts(paths@),
            preflight_run(log@, *old(at) as nat, all) == preflight_run(
                log@,
                *at as nat,
                all.skip(i as int),
            ),
        decreases paths.len() - i,
    {
        proof {
            assert(all.skip(i as int)[0] == paths@[i as int]@);
            assert(all.skip(i as int).skip(1) =~= all.skip(i + 1));
        }
        check(&paths[i], log, at)?;
        i += 1;
    }
    Ok(())
}

// ---------------------------------------------------------------- laws

/// Whether a request neither starts nor interrupts a turn.
pub open spec fn leaves_turns(request: RequestView) -> bool {
    match request {
        RequestView::Call { method, .. } => method != "turn/start"@ && method != "turn/interrupt"@,
        _ => true,
    }
}

proof fn lemma_names()
    ensures
        "thread/resume"@ != "turn/start"@,
        "thread/resume"@ != "turn/interrupt"@,
        "thread/read"@ != "turn/start"@,
        "thread/read"@ != "turn/interrupt"@,
        "thread/settings/update"@ != "turn/start"@,
        "thread/settings/update"@ != "turn/interrupt"@,
        "thread/turns/list"@ != "turn/start"@,
        "thread/turns/list"@ != "turn/interrupt"@,
        "turn/settings/update"@ != "turn/start"@,
        "turn/settings/update"@ != "turn/interrupt"@,
{
    reveal_strlit("thread/resume");
    reveal_strlit("thread/read");
    reveal_strlit("thread/settings/update");
    reveal_strlit("thread/turns/list");
    reveal_strlit("turn/settings/update");
    reveal_strlit("turn/start");
    reveal_strlit("turn/interrupt");
    assert("turn/start"@[1] == 'u');
    assert("turn/interrupt"@[1] == 'u');
    assert("thread/resume"@[1] == 'h');
    assert("thread/read"@[1] == 'h');
    assert("thread/settings/update"@[1] == 'h');
    assert("thread/turns/list"@[1] == 'h');
    assert("turn/start"@.len() == 10);
    assert("turn/interrupt"@.len() == 14);
    assert("turn/settings/update"@.len() == 20);
}

proof fn lemma_settle_leaves_turns(
    log: Seq<Reply>,
    at: nat,
    id: Seq<char>,
    boosted: bool,
    deadline: int,
)
    ensures
        settle_run(log, at, id, boosted, deadline) matches Run::Ask(request) ==> leaves_turns(
            request,
        ),
    decreases log.len() - at,
{
    lemma_names();
    if let Run::Done(found, n) = settings_run(log, at, id) {
        if let Run::Done(now, m) = clock_run(log, n) {
            if let Run::Done(_, k) = done_run(log, m, RequestView::Sleep(LOOK_AGAIN)) {
                if at < k <= log.len() {
                    lemma_settle_leaves_turns(log, k, id, boosted, deadline);
                }
            }
        }
    }
}

/// A task that another thread directs is neither interrupted nor given a turn: only its settings
/// change.
pub proof fn law_directed_tasks_keep_their_turns(
    config: Config,
    deadline: i64,
    log: Seq<Reply>,
    at: nat,
    task: TaskView,
    settings: JsonView,
    newly_enrolled: bool,
)
    requires
        task.child,
    ensures
        boost_run(config, deadline, log, at, task, settings, newly_enrolled) matches Run::Ask(
            request,
        ) ==> leaves_turns(request),
{
    lemma_names();
    let id = task.thread_id;
    if let Run::Done(_, n) = cutoff_run(config, deadline, log, at) {
        if let Run::Done(turn, m) = turn_run(log, n, id) {
            let start = match turn {
                Some(turn) => rpc_run(
                    log,
                    m,
                    "turn/settings/update"@,
                    turn_update_params(id, turn),
                ),
                None => Run::Done(JsonView::Null, m),
            };
            if let Run::Done(_, k) = start {
                if let Run::Done(_, p) = rpc_run(
                    log,
                    k,
                    "thread/settings/update"@,
                    update_params(id, true),
                ) {
                    if let Run::Done(now, q) = clock_run(log, p) {
                        lemma_settle_leaves_turns(log, q, id, true, now + SETTLE_TIME);
                    }
                }
            }
        }
    }
}

/// A task that is boosted already is left alone.
pub proof fn law_boosted_tasks_are_left_alone(
    config: Config,
    deadline: i64,
    log: Seq<Reply>,
    at: nat,
    task: TaskView,
    settings: JsonView,
)
    requires
        matching(settings, true),
    ensures
        boost_run(config, deadline, log, at, task, settings, false) == Run::Done((), at),
{
}

}
