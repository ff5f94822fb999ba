//! What reading a quota leaves alone, whatever replies it gets.
use crate::app_server::{
    call_run, check_store_run, credentials_run, initialize_run, prepare_home_run, query_run,
    read_quota_run, response_run, save_refreshed_run,
};
use crate::auth::{copy_to_same_run, AuthView};
use crate::cli::{refresh_run, stale_run};
use crate::config::Config;
use crate::effects::{Reply, RequestView, Run};
use crate::json::JsonView;
use crate::paths::joined;
use crate::safety::replaces;
use vstd::prelude::*;

verus! {

/// Whether a request is part of a conversation with an app server.
pub open spec fn conversation(request: RequestView) -> bool {
    request is StartServer || request is StopServer || request is Send || request is Receive
}

/// Whether a run, where it asks for something, only goes on with a conversation.
pub open spec fn converses<T>(run: Run<T>) -> bool {
    run matches Run::Ask(request) ==> conversation(request)
}

/// Whether a path is that of a copy in the temporary home that a reply named.
pub open spec fn home_file(reply: Reply, path: Seq<char>) -> bool {
    reply matches Reply::Text(home) && (path == joined(home@, "auth.json"@) || path == joined(
        home@,
        "config.toml"@,
    ))
}

proof fn lemma_response(id: int, method: Seq<char>, answer: bool, log: Seq<Reply>, at: nat)
    ensures
        converses(response_run(id, method, answer, log, at)),
    decreases log.len() - at,
{
    if at < log.len() {
        lemma_response(id, method, answer, log, at + 1);
        if at + 1 < log.len() {
            lemma_response(id, method, answer, log, at + 2);
        }
    }
}

proof fn lemma_call(
    id: int,
    method: Seq<char>,
    params: Option<JsonView>,
    answer: bool,
    log: Seq<Reply>,
    at: nat,
)
    ensures
        converses(call_run(id, method, params, answer, log, at)),
{
    lemma_response(id, method, answer, log, at + 1);
}

proof fn lemma_initialize(log: Seq<Reply>, at: nat)
    ensures
        converses(initialize_run(log, at)),
{
    lemma_call(
        0,
        "initialize"@,
        Some(JsonView::Object(seq![("clientInfo"@, crate::app_server::client_info())])),
        false,
        log,
        at,
    );
}

proof fn lemma_query(log: Seq<Reply>, at: nat)
    ensures
        converses(query_run(log, at)),
{
    lemma_initialize(log, at);
    if let Run::Done(_, n) = initialize_run(log, at) {
        let params = Some(JsonView::Object(seq![("refreshToken"@, JsonView::Bool(false))]));
        lemma_call(1, "account/read"@, params, false, log, n);
        if let Run::Done(_, m) = call_run(1, "account/read"@, params, false, log, n) {
            lemma_call(2, "account/rateLimits/read"@, None, false, log, m);
        }
    }
}

proof fn lemma_check(log: Seq<Reply>, at: nat)
    ensures
        converses(check_store_run(log, at)),
{
    lemma_initialize(log, at);
    if let Run::Done(_, n) = initialize_run(log, at) {
        let params = Some(JsonView::Object(seq![("includeLayers"@, JsonView::Bool(false))]));
        lemma_call(1, "config/read"@, params, false, log, n);
    }
}

/// Until Codex is known to keep its credentials in a file, nothing is asked for but a conversation
/// with its app server.
pub proof fn law_credentials_are_checked_first(
    c: Config,
    access_token: Option<Seq<char>>,
    log: Seq<Reply>,
    at: nat,
)
    ensures
        converses(credentials_run(c, access_token, log, at)),
{
    lemma_check(log, at + 1);
}

/// Where refreshing is switched off, recorded quotas are shown as they are: no account is read
/// anew, and nothing is asked for to find that out.
pub proof fn law_recorded_quotas_are_enough(
    c: Config,
    slot: u32,
    slots: Seq<u32>,
    force: bool,
    log: Seq<Reply>,
    at: nat,
)
    requires
        c.skip_usage_refresh,
    ensures
        refresh_run(c, slot, force, log, at) == Run::Done(false, at),
        stale_run(c, slots, force, log, at) == Run::Done(
            Seq::new(slots.len(), |i: int| false),
            at,
        ),
    decreases slots.len(),
{
    if slots.len() == 0 {
        assert(Seq::new(slots.len(), |i: int| false) =~= Seq::empty());
    } else {
        law_recorded_quotas_are_enough(c, slot, slots.drop_last(), force, log, at);
        assert(Seq::new(slots.len(), |i: int| false) =~= Seq::new(
            slots.drop_last().len(),
            |i: int| false,
        ).push(false));
    }
}

proof fn lemma_home(c: Config, source: Seq<char>, log: Seq<Reply>, at: nat, path: Seq<char>)
    ensures
        match prepare_home_run(c, source, log, at) {
            Run::Ask(request) => replaces(request, path) ==> at < log.len() && home_file(
                log[at as int],
                path,
            ),
            _ => true,
        },
{
}

/// What a copy to credentials of the same account asks for, and what was replied before it.
proof fn lemma_copy(document: AuthView, destination: Seq<char>, log: Seq<Reply>, at: nat)
    ensures
        match copy_to_same_run(document, destination, log, at) {
            Run::Ask(request) => match request {
                RequestView::ReadAuth(_) => true,
                RequestView::Write { path, bytes } => {
                    &&& path == destination
                    &&& bytes == document.bytes
                    &&& at < log.len() == at + 1
                    &&& log[at as int] matches Reply::Auth(current)
                        && document.identity.same_account(current@.identity)
                        && !document.same_credentials(current@)
                },
                _ => false,
            },
            _ => true,
        },
{
}

/// Whether the last reply is credentials of the same account as earlier ones that hold these
/// bytes, but different ones.
pub open spec fn checked_before(log: Seq<Reply>, bytes: Seq<u8>) -> bool {
    &&& log.len() > 0
    &&& log.last() matches Reply::Auth(current) && exists|i: int|
        0 <= i < log.len() - 1 && (#[trigger] log[i] matches Reply::Auth(refreshed)
            && refreshed@.bytes == bytes && refreshed@.identity.same_account(current@.identity)
            && !refreshed@.same_credentials(current@))
}

proof fn lemma_save(
    c: Config,
    source: Seq<char>,
    original: AuthView,
    home: Seq<char>,
    log: Seq<Reply>,
    at: nat,
)
    ensures
        match save_refreshed_run(c, source, original, home, log, at) {
            Run::Ask(request) => match request {
                RequestView::ReadAuth(_) => true,
                RequestView::Write { path, bytes } => {
                    &&& path == source || path == c.session_auth@
                    &&& checked_before(log, bytes)
                },
                _ => false,
            },
            _ => true,
        },
{
    if at < log.len() {
        if let Reply::Auth(refreshed) = log[at as int] {
            lemma_copy(refreshed@, source, log, at + 1);
            if let Run::Done(_, m) = copy_to_same_run(refreshed@, source, log, at + 1) {
                lemma_copy(refreshed@, c.session_auth@, log, m + 1);
            }
        }
    }
}

/// Reading a quota changes no files but copies in its temporary home, the saved credentials of the
/// account that it reads, and those of a session: which account is selected stays as it is.
pub proof fn law_reading_keeps_to_its_files(
    c: Config,
    source: Seq<char>,
    log: Seq<Reply>,
    at: nat,
    path: Seq<char>,
)
    requires
        read_quota_run(c, source, log, at) matches Run::Ask(request) && replaces(request, path),
    ensures
        path == source || path == c.session_auth@ || exists|i: int|
            0 <= i < log.len() && home_file(#[trigger] log[i], path),
{
    lemma_home(c, source, log, at + 2, path);
    if let Run::Done(home, k) = prepare_home_run(c, source, log, at + 2) {
        lemma_query(log, k + 1);
        let end = match query_run(log, k + 1) {
            Run::Done(_, n) => n,
            Run::Fail(_, n) => n,
            Run::Ask(_) => 0,
        };
        if let Reply::Auth(original) = log[at as int + 1] {
            lemma_save(c, source, original@, home, log, end + 1);
        }
    }
}

/// Credentials that Codex refreshed while a quota was read are saved only after those in their
/// place were read and found to be different ones of the same account, and what is saved is what
/// was checked.
pub proof fn law_refreshed_credentials_are_checked(
    c: Config,
    source: Seq<char>,
    log: Seq<Reply>,
    at: nat,
)
    requires
        read_quota_run(c, source, log, at) matches Run::Ask(RequestView::Write { .. }),
    ensures
        read_quota_run(c, source, log, at) matches Run::Ask(
            RequestView::Write { path, bytes },
        ) && (path == source || path == c.session_auth@) && checked_before(log, bytes),
{
    if let Run::Done(home, k) = prepare_home_run(c, source, log, at + 2) {
        lemma_query(log, k + 1);
        let end = match query_run(log, k + 1) {
            Run::Done(_, n) => n,
            Run::Fail(_, n) => n,
            Run::Ask(_) => 0,
        };
        if let Reply::Auth(original) = log[at as int + 1] {
            lemma_save(c, source, original@, home, log, end + 1);
        }
    }
}

}
