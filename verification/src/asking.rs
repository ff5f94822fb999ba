//! What Codex is asked, and what is read out of its answers.
use crate::app_server::{
    baseline_edits, bucket_of, call_run, check_store_run, client_info, credential_store_run,
    credentials_run, edit_of, groups_of, individual_of, initialize_run, limits_of, placed,
    prepare_home_run, query_run, read_quota_run, reading_fault, response_run, save_refreshed_run,
    session_touched, unavailable, user_version, window_of,
};
use crate::auth::{auth_of, copy_to_same_run, identity_of, AuthDocument, AuthView};
use crate::config::Config;
use crate::effects::{Reply, RequestView, Run};
use crate::error::{Error, ErrorView};
use crate::json::JsonView;
use crate::paths::joined;
use crate::percent::{rest_of_hundred, Percent};
use crate::switching::relation_text;
use crate::usage::{BucketView, UsageRecord};
use vstd::prelude::*;

verus! {

// ---------------------------------------------------------------- fields

/// Of fields with the same name the last one counts, and a field is found wherever it stands.
pub proof fn law_a_field_is_found_anywhere(
    fields: Seq<(Seq<char>, JsonView)>,
    name: Seq<char>,
    i: int,
)
    requires
        0 <= i < fields.len(),
        fields[i].0 == name,
        forall|j: int| i < j < fields.len() ==> (#[trigger] fields[j]).0 != name,
    ensures
        JsonView::Object(fields).get(name) == Some(fields[i].1),
    decreases fields.len(),
{
    if i < fields.len() - 1 {
        let before = fields.drop_last();
        assert(fields.last() == fields[fields.len() - 1]);
        assert(before[i] == fields[i]);
        assert forall|j: int| i < j < before.len() implies (#[trigger] before[j]).0 != name by {
            assert(before[j] == fields[j]);
        }
        law_a_field_is_found_anywhere(before, name, i);
    }
}

/// A field that is not there is not found.
pub proof fn law_a_missing_field_is_not_found(fields: Seq<(Seq<char>, JsonView)>, name: Seq<char>)
    requires
        forall|j: int| 0 <= j < fields.len() ==> (#[trigger] fields[j]).0 != name,
    ensures
        JsonView::Object(fields).get(name) is None,
    decreases fields.len(),
{
    if fields.len() > 0 {
        assert(fields.last() == fields[fields.len() - 1]);
        assert forall|j: int| 0 <= j < fields.drop_last().len() implies (
        #[trigger] fields.drop_last()[j]).0 != name by {
            assert(fields.drop_last()[j] == fields[j]);
        }
        law_a_missing_field_is_not_found(fields.drop_last(), name);
    }
}

// ---------------------------------------------------------------- quotas

/// A window has what its object says: how much is used, when it starts anew and how long it is.
pub proof fn law_a_window_has_what_is_said(limits: JsonView, name: Seq<char>)
    ensures
        limits.object_at(name) is None ==> window_of(limits, name) is None,
        limits.object_at(name) matches Some(said) ==> (window_of(limits, name) matches Some(window)
            && {
            &&& said.get("resetsAt"@) matches Some(JsonView::Integer(n)) ==> (-0x8000_0000_0000_0000
                <= n <= 0x7fff_ffff_ffff_ffff ==> window.resets_at == Some(n as i64))
            &&& said.get("resetsAt"@) is None ==> window.resets_at is None
            &&& said.get("windowDurationMins"@) matches Some(JsonView::Integer(n)) ==> (-0x8000_0000_0000_0000
                <= n <= 0x7fff_ffff_ffff_ffff ==> window.window_minutes == Some(n as i64))
            &&& said.get("windowDurationMins"@) is None ==> window.window_minutes is None
            &&& said.get("usedPercent"@) matches Some(JsonView::Real(bits, _)) ==> (
            window.used_percent matches Some(percent) && percent.bits == bits)
            &&& said.get("usedPercent"@) is None ==> window.used_percent is None
        }),
{
}

/// An individual limit is what is left of it, turned around, or else what is used of it.
pub proof fn law_an_individual_limit_is_what_is_left(limits: JsonView, said: JsonView)
    requires
        limits.object_at("individualLimit"@) == Some(said),
    ensures
        individual_of(limits) matches Some(window) && {
            &&& said.get("remainingPercent"@) matches Some(JsonView::Real(bits, _)) ==> (
            window.used_percent matches Some(percent) && percent.bits == rest_of_hundred(
                Percent { bits },
            ) as u64)
            &&& said.get("remainingPercent"@) is None ==> (said.get("usedPercent"@) matches Some(
                JsonView::Real(bits, _),
            ) ==> (window.used_percent matches Some(percent) && percent.bits == bits))
            &&& said.get("remainingPercent"@) is None && said.get("usedPercent"@) is None
                ==> window.used_percent is None
            &&& said.get("resetsAt"@) is None ==> window.resets_at is None
            &&& said.get("resetsAt"@) matches Some(JsonView::Integer(n)) ==> (-0x8000_0000_0000_0000
                <= n <= 0x7fff_ffff_ffff_ffff ==> window.resets_at == Some(n as i64))
        },
{
}

/// Of a hundred percent nothing is left, of less than nothing all is, and of no number none.
pub proof fn law_what_is_left_of_a_hundred(percent: Percent)
    ensures
        percent.nan() ==> rest_of_hundred(percent) == percent.bits,
        !percent.nan() && percent.negative() ==> rest_of_hundred(percent) == 0x4059_0000_0000_0000,
        !percent.nan() && !percent.negative() && percent.reaches(100) ==> rest_of_hundred(percent)
            == 0,
{
}

/// A group of models has its own identifier, or else the one that it stands under, and each of its
/// windows under its name; its limit is reached where a kind of limit or a spending limit is said to
/// be.
pub proof fn law_a_group_has_what_is_said(id: Seq<char>, limits: JsonView)
    ensures
        ({
            let group = bucket_of(id, limits);
            &&& limits.text_at("limitId"@) is None ==> group.limit_id == id
            &&& limits.text_at("limitId"@) matches Some(own) ==> group.limit_id == own
            &&& group.limit_name == limits.text_at("limitName"@)
            &&& group.plan_type == limits.text_at("planType"@)
            &&& group.reached_type == limits.text_at("rateLimitReachedType"@)
            &&& group.spend_control_reached <==> limits.get("spendControlReached"@) == Some(
                JsonView::Bool(true),
            )
            &&& group.reached <==> group.reached_type is Some || group.spend_control_reached
            &&& group.primary_window == window_of(limits, "primary"@)
            &&& group.secondary_window == window_of(limits, "secondary"@)
            &&& group.individual_window is Some <==> limits.object_at("individualLimit"@) is Some
        }),
{
}

proof fn lemma_placed_group(groups: Seq<BucketView>, group: BucketView)
    ensures
        placed(groups, group).to_multiset() == groups.to_multiset().insert(group),
    decreases groups.len(),
{
    broadcast use vstd::seq_lib::group_to_multiset_ensures;

    if groups.len() > 0 && crate::text::text_before(group.limit_id, groups.last().limit_id) {
        lemma_placed_group(groups.drop_last(), group);
        assert(groups =~= groups.drop_last().push(groups.last()));
        assert(groups.to_multiset().insert(group) =~= groups.drop_last().to_multiset().insert(
            group,
        ).insert(groups.last()));
    }
}

/// Every group of models that the service describes is read, under whichever identifier, and none is
/// made up.
pub proof fn law_every_group_is_read(fields: Seq<(Seq<char>, JsonView)>, group: BucketView)
    ensures
        groups_of(fields).contains(group) <==> exists|i: int|
            0 <= i < fields.len() && (#[trigger] fields[i]).1 is Object && group == bucket_of(
                fields[i].0,
                fields[i].1,
            ),
    decreases fields.len(),
{
    broadcast use vstd::seq_lib::group_to_multiset_ensures;

    if fields.len() > 0 {
        let before = fields.drop_last();
        law_every_group_is_read(before, group);
        assert(forall|i: int| 0 <= i < before.len() ==> before[i] == #[trigger] fields[i]);
        let (id, value) = fields.last();
        assert(fields[fields.len() - 1] == fields.last());
        if value is Object {
            lemma_placed_group(groups_of(before), bucket_of(id, value));
            assert(groups_of(fields).to_multiset().contains(group) <==> groups_of(
                before,
            ).to_multiset().contains(group) || group == bucket_of(id, value));
        }
    }
}

/// Groups by identifier go before the single one, which is taken only where there are none.
pub proof fn law_groups_by_identifier_go_first(
    result: JsonView,
    fields: Seq<(Seq<char>, JsonView)>,
)
    ensures
        fields.len() > 0 && result.get("rateLimitsByLimitId"@) == Some(JsonView::Object(fields))
            ==> limits_of(result) == Some(groups_of(fields)),
        result.get("rateLimitsByLimitId"@) is None ==> (result.get("rateLimits"@) matches Some(
            JsonView::Object(single),
        ) ==> (limits_of(result) matches Some(groups) && groups.len() == 1 && groups[0]
            == bucket_of("codex"@, JsonView::Object(single)))),
        result.get("rateLimitsByLimitId"@) is None && result.get("rateLimits"@) is None
            ==> limits_of(result) is None,
{
}

// ---------------------------------------------------------------- conversations

/// The response to a request is the message with its number, and what is handed out is its result; an
/// error in it is a failure. Messages with another number are passed over.
pub proof fn law_a_response_has_the_number_of_its_request(
    id: int,
    method: Seq<char>,
    message: crate::json::Json,
    log: Seq<Reply>,
    at: nat,
)
    requires
        at < log.len(),
        log[at as int] == Reply::Message(message),
        -0x8000_0000_0000_0000 <= id <= 0x7fff_ffff_ffff_ffff,
    ensures
        message@.get("id"@) == Some(JsonView::Integer(id)) && (message@.get("error"@) is None
            || message@.get("error"@) == Some(JsonView::Null)) && message@.get("result"@) is Some
            ==> response_run(id, method, false, log, at) == Run::Done(
            message@.get("result"@)->0,
            at + 1,
        ),
        message@.get("id"@) == Some(JsonView::Integer(id)) && (message@.get("error"@) matches Some(
            error,
        ) && error !is Null) ==> response_run(id, method, false, log, at) is Fail,
        message@.get("id"@) != Some(JsonView::Integer(id)) ==> response_run(
            id,
            method,
            false,
            log,
            at,
        ) == response_run(id, method, false, log, at + 1),
{
}

/// Whether a reply is the response to a request, with a result.
pub open spec fn responds(reply: Reply, id: int, result: JsonView) -> bool {
    reply matches Reply::Message(message) && message@.get("id"@) == Some(JsonView::Integer(id))
        && message@.get("error"@) is None && message@.get("result"@) == Some(result)
}

proof fn lemma_respond(id: int, method: Seq<char>, result: JsonView, log: Seq<Reply>, at: nat)
    requires
        at < log.len(),
        responds(log[at as int], id, result),
        0 <= id < 10,
    ensures
        response_run(id, method, false, log, at) == Run::Done(result, at + 1),
{
    if let Reply::Message(message) = log[at as int] {
        law_a_response_has_the_number_of_its_request(id, method, message, log, at);
    }
}

/// A quota is asked for after a greeting and a look at the account, without a refresh of its token;
/// what comes of it is the answer to the question for the quota, and to no other.
pub proof fn law_the_quota_is_what_is_answered(
    a: JsonView,
    b: JsonView,
    quota: JsonView,
    log: Seq<Reply>,
    at: nat,
)
    requires
        at + 7 <= log.len(),
        log[at as int] is Done,
        responds(log[at as int + 1], 0, a),
        log[at as int + 2] is Done,
        log[at as int + 3] is Done,
        responds(log[at as int + 4], 1, b),
        log[at as int + 5] is Done,
        responds(log[at as int + 6], 2, quota),
    ensures
        query_run(log, at) == Run::Done(quota, at + 7),
        query_run(log.take(at as int + 3), at) == Run::<JsonView>::Ask(
            RequestView::Send(
                JsonView::Object(
                    seq![
                        ("id"@, JsonView::Integer(1)),
                        ("method"@, JsonView::Text("account/read"@)),
                        (
                            "params"@,
                            JsonView::Object(seq![("refreshToken"@, JsonView::Bool(false))]),
                        ),
                    ],
                ),
            ),
        ),
        query_run(log.take(at as int + 5), at) == Run::<JsonView>::Ask(
            RequestView::Send(
                JsonView::Object(
                    seq![
                        ("id"@, JsonView::Integer(2)),
                        ("method"@, JsonView::Text("account/rateLimits/read"@)),
                    ],
                ),
            ),
        ),
{
    lemma_respond(0, "initialize"@, a, log, at + 1);
    lemma_respond(1, "account/read"@, b, log, at + 4);
    lemma_respond(2, "account/rateLimits/read"@, quota, log, at + 6);
    lemma_respond(0, "initialize"@, a, log.take(at as int + 3), at + 1);
    lemma_respond(0, "initialize"@, a, log.take(at as int + 5), at + 1);
    lemma_respond(1, "account/read"@, b, log.take(at as int + 5), at + 4);
}

/// Nothing is done unless Codex keeps its credentials in a file, and not at all where an access token
/// is set.
pub proof fn law_credentials_are_kept_in_a_file(
    c: Config,
    token: Option<Seq<char>>,
    log: Seq<Reply>,
    at: nat,
)
    requires
        at <= log.len(),
    ensures
        credentials_run(c, token, log, at) is Done ==> (credential_store_run(log, at + 1) matches
            Run::Done(mode, _) && mode == "file"@),
        (token matches Some(text) && text.len() > 0) ==> credentials_run(c, token, log, at) is Fail,
        check_store_run(log, at) is Done <==> (credential_store_run(log, at) matches Run::Done(
            mode,
            _,
        ) && mode == "file"@),
{
}

/// A quota is read in a temporary home of its own, which has a copy of the account's saved credentials
/// and keeps its own in a file.
pub proof fn law_a_quota_is_read_in_isolation(
    c: Config,
    source: Seq<char>,
    log: Seq<Reply>,
    at: nat,
    home: Seq<char>,
    force_file: bool,
)
    requires
        at <= log.len(),
        read_quota_run(c, source, log, at) == Run::<
            (Result<JsonView, crate::error::ErrorView>, bool),
        >::Ask(RequestView::StartServer { home, force_file }),
    ensures
        force_file,
        at + 5 <= log.len(),
        log[at as int + 2] matches Reply::Text(text) && text@ == home,
        read_quota_run(c, source, log.take(at as int + 3), at) == Run::<
            (Result<JsonView, crate::error::ErrorView>, bool),
        >::Ask(RequestView::Copy { from: source, to: joined(home, "auth.json"@) }),
        log[at as int + 3] is Done,
{
    lemma_home_first(c, source, log, at);
    lemma_query_talks(log, at + 6);
    lemma_query_talks(log, at + 7);
}

/// Whether a procedure asks for nothing but to send a message or to receive one.
spec fn talks<T>(run: Run<T>) -> bool {
    run matches Run::Ask(request) ==> request is Send || request is Receive
}

proof fn lemma_response_talks(id: int, method: Seq<char>, log: Seq<Reply>, at: nat)
    ensures
        talks(response_run(id, method, false, log, at)),
    decreases log.len() - at,
{
    if at < log.len() {
        lemma_response_talks(id, method, log, at + 1);
    }
}

proof fn lemma_call_talks(
    id: int,
    method: Seq<char>,
    params: Option<JsonView>,
    log: Seq<Reply>,
    at: nat,
)
    ensures
        talks(call_run(id, method, params, false, log, at)),
{
    lemma_response_talks(id, method, log, at + 1);
}

proof fn lemma_query_talks(log: Seq<Reply>, at: nat)
    ensures
        talks(query_run(log, at)),
{
    let greeting = Some(JsonView::Object(seq![("clientInfo"@, client_info())]));
    lemma_call_talks(0, "initialize"@, greeting, log, at);
    if let Run::Done(_, n) = initialize_run(log, at) {
        let params = Some(JsonView::Object(seq![("refreshToken"@, JsonView::Bool(false))]));
        lemma_call_talks(1, "account/read"@, params, log, n);
        if let Run::Done(_, m) = call_run(1, "account/read"@, params, false, log, n) {
            lemma_call_talks(2, "account/rateLimits/read"@, None, log, m);
        }
    }
}

proof fn lemma_home_first(c: Config, source: Seq<char>, log: Seq<Reply>, at: nat)
    ensures
        prepare_home_run(c, source, log, at + 2) matches Run::Done(home, k) ==> at + 5 <= log.len()
            && (log[at as int + 2] matches Reply::Text(text) && text@ == home)
            && log[at as int + 3] is Done && (k == at + 5 || k == at + 6),
        prepare_home_run(c, source, log, at + 2) matches Run::Ask(request) ==> request
            !is StartServer,
{
}

/// Credentials that Codex refreshed while a quota was read are saved for their account where they
/// differ from what was saved, and given to the session where it still has the ones before.
pub proof fn law_refreshed_credentials_reach_store_and_session(
    c: Config,
    source: Seq<char>,
    original: AuthView,
    home: Seq<char>,
    refreshed: AuthDocument,
    saved: AuthDocument,
    log: Seq<Reply>,
    at: nat,
)
    requires
        at + 2 <= log.len(),
        log[at as int] == Reply::Auth(refreshed),
        log[at as int + 1] == Reply::Auth(saved),
        refreshed@.identity.user_id == saved@.identity.user_id,
        refreshed@.identity.account_id == saved@.identity.account_id,
        !refreshed@.same_credentials(saved@),
    ensures
        log.len() == at + 2 ==> save_refreshed_run(c, source, original, home, log, at) == Run::<
            bool,
        >::Ask(RequestView::Write { path: source, bytes: refreshed@.bytes }),
        log.len() == at + 5 && log[at as int + 2] is Done && (log[at as int + 3] matches Reply::Auth(
            session,
        ) && session@.identity.user_id == refreshed@.identity.user_id
            && session@.identity.account_id == refreshed@.identity.account_id
            && session@.same_credentials(original) && log[at as int + 4] == Reply::Auth(session)
            && !refreshed@.same_credentials(session@)) ==> save_refreshed_run(
            c,
            source,
            original,
            home,
            log,
            at,
        ) == Run::<bool>::Ask(
            RequestView::Write { path: c.session_auth@, bytes: refreshed@.bytes },
        ),
        log.len() == at + 4 && log[at as int + 2] is Done && (log[at as int + 3] matches Reply::Auth(
            session,
        ) && !session@.same_credentials(original)) ==> save_refreshed_run(
            c,
            source,
            original,
            home,
            log,
            at,
        ) == Run::Done(false, at + 4),
{
}

/// The version of the user's own configuration is found wherever its layer stands.
pub proof fn law_the_users_layer_is_found_anywhere(layers: Seq<JsonView>, i: int)
    requires
        0 <= i < layers.len(),
        crate::json::text_under(layers[i], "name"@, "type"@) == Some("user"@),
        forall|j: int|
            0 <= j < i ==> crate::json::text_under(#[trigger] layers[j], "name"@, "type"@) != Some(
                "user"@,
            ),
    ensures
        user_version(layers) == layers[i].text_at("version"@),
    decreases layers.len(),
{
    if i > 0 {
        let rest = layers.skip(1);
        assert(rest[i - 1] == layers[i]);
        assert(layers[0] != layers[i]);
        assert forall|j: int| 0 <= j < i - 1 implies crate::json::text_under(
            #[trigger] rest[j],
            "name"@,
            "type"@,
        ) != Some("user"@) by {
            assert(rest[j] == layers[j + 1]);
        }
        law_the_users_layer_is_found_anywhere(rest, i - 1);
    }
}

/// The defaults that a boost leaves behind: the strongest model at medium effort, for plans as well,
/// and the default mode.
pub proof fn law_the_defaults_after_a_boost()
    ensures
        baseline_edits().len() == 5,
        baseline_edits().contains(edit_of("model"@, JsonView::Text("gpt-6-astra"@))),
        baseline_edits().contains(edit_of("model_reasoning_effort"@, JsonView::Text("medium"@))),
        baseline_edits().contains(
            edit_of("plan_mode_reasoning_effort"@, JsonView::Text("medium"@)),
        ),
        baseline_edits().contains(edit_of("service_tier"@, JsonView::Text("default"@))),
        baseline_edits().contains(edit_of("features.fast_mode"@, JsonView::Bool(true))),
{
    let edits = baseline_edits();
    assert(edits[0] == edit_of("model"@, JsonView::Text("gpt-6-astra"@)));
    assert(edits[1] == edit_of("model_reasoning_effort"@, JsonView::Text("medium"@)));
    assert(edits[2] == edit_of("plan_mode_reasoning_effort"@, JsonView::Text("medium"@)));
    assert(edits[3] == edit_of("service_tier"@, JsonView::Text("default"@)));
    assert(edits[4] == edit_of("features.fast_mode"@, JsonView::Bool(true)));
}

// ---------------------------------------------------------------- credentials

/// Who credentials belong to: the user is named by the claims, under the name of ChatGPT before the
/// general one; the workspace by the tokens, before the claims; the address by the claims themselves,
/// before the profile in them.
pub proof fn law_whose_credentials_these_are(tokens: JsonView, claims: JsonView)
    ensures
        ({
            let auth = claims.object_at("https://api.openai.com/auth"@);
            let profile = claims.object_at("https://api.openai.com/profile"@);
            let who = identity_of(tokens, claims);
            &&& auth is None ==> who is None
            &&& auth matches Some(auth) ==> {
                &&& auth.text_at("chatgpt_user_id"@) matches Some(user) ==> (who matches Some(one)
                    && one.user_id == user)
                &&& auth.text_at("chatgpt_user_id"@) is None ==> (auth.text_at("user_id"@) matches
                    Some(user) ==> (who matches Some(one) && one.user_id == user))
                &&& auth.text_at("chatgpt_user_id"@) is None && auth.text_at("user_id"@) is None
                    ==> who is None
            }
            &&& who matches Some(one) ==> {
                &&& tokens.text_at("account_id"@) is Some ==> one.account_id == tokens.text_at(
                    "account_id"@,
                )
                &&& tokens.text_at("account_id"@) is None ==> one.account_id == auth->0.text_at(
                    "chatgpt_account_id"@,
                )
                &&& claims.text_at("email"@) is Some ==> one.email == claims.text_at("email"@)
                &&& claims.text_at("email"@) is None && profile is Some ==> one.email
                    == profile->0.text_at("email"@)
                &&& claims.text_at("email"@) is None && profile is None ==> one.email is None
            }
        }),
{
}

/// Credentials need all of their tokens: without an identity token, or with an access or refresh token
/// that is missing or empty, a file holds none.
pub proof fn law_credentials_need_all_their_tokens(
    path: Seq<char>,
    bytes: Seq<u8>,
    raw: JsonView,
)
    requires
        crate::json::json_parsed(bytes) == Ok::<JsonView, Seq<char>>(raw),
    ensures
        auth_of(path, bytes) matches Ok(document) ==> {
            &&& document.raw == raw
            &&& document.bytes == bytes
            &&& raw.get("tokens"@) matches Some(tokens) && tokens.text_at("id_token"@) is Some && (
            tokens.text_at("access_token"@) matches Some(access) && access.len() > 0) && (
            tokens.text_at("refresh_token"@) matches Some(refresh) && refresh.len() > 0)
        },
        auth_of(path, bytes) is Err ==> auth_of(path, bytes) == Err::<
            AuthView,
            crate::error::ErrorView,
        >(crate::error::ErrorView::InvalidAuth(path)),
{
}

/// How the credentials of a session relate to an account, in words: those of another user or
/// workspace belong to another account, the same tokens match and others differ.
pub proof fn law_relations_are_told_apart(session: AuthDocument, saved: AuthView)
    ensures
        relation_text(None, saved) == "missing or invalid"@,
        session@.identity.user_id != saved.identity.user_id || session@.identity.account_id
            != saved.identity.account_id ==> relation_text(Some(session), saved)
            == "belongs to another account"@,
        session@.identity.user_id == saved.identity.user_id && session@.identity.account_id
            == saved.identity.account_id && session@.same_credentials(saved) ==> relation_text(
            Some(session),
            saved,
        ) == "matches the saved account"@,
        session@.identity.user_id == saved.identity.user_id && session@.identity.account_id
            == saved.identity.account_id && !session@.same_credentials(saved) ==> relation_text(
            Some(session),
            saved,
        ) == "differs from the saved account"@,
{
}

/// A quota is read in a directory of its own in the account store, with a copy of the credentials and of
/// the settings of the user, where there are any.
pub proof fn law_where_a_quota_is_read(
    c: Config,
    source: Seq<char>,
    log: Seq<Reply>,
    home: String,
    configured: bool,
)
    requires
        log == seq![Reply::Text(home), Reply::Done, Reply::Flag(configured), Reply::Done],
    ensures
        prepare_home_run(c, source, log.take(0), 0) == Run::<Seq<char>>::Ask(
            RequestView::TempDir { directory: c.account_store@, prefix: ".quota-"@ },
        ),
        prepare_home_run(c, source, log.take(1), 0) == Run::<Seq<char>>::Ask(
            RequestView::Copy { from: source, to: joined(home@, "auth.json"@) },
        ),
        prepare_home_run(c, source, log.take(2), 0) == Run::<Seq<char>>::Ask(
            RequestView::IsFile(joined(c.codex_home@, "config.toml"@)),
        ),
        configured ==> prepare_home_run(c, source, log.take(3), 0) == Run::<Seq<char>>::Ask(
            RequestView::Copy {
                from: joined(c.codex_home@, "config.toml"@),
                to: joined(home@, "config.toml"@),
            },
        ) && prepare_home_run(c, source, log, 0) == Run::Done(home@, 4),
        !configured ==> prepare_home_run(c, source, log, 0) == Run::Done(home@, 3),
{
}

/// Credentials are copied only over those of the same account, and only where they differ; it is told
/// whether they were.
pub proof fn law_credentials_are_copied_within_an_account(
    document: AuthView,
    destination: Seq<char>,
    log: Seq<Reply>,
    at: nat,
    current: AuthDocument,
)
    requires
        log.len() > at,
        log[at as int] == Reply::Auth(current),
    ensures
        document.identity.account_id != current@.identity.account_id || document.identity.user_id
            != current@.identity.user_id ==> copy_to_same_run(document, destination, log, at) is Fail,
        document.identity.account_id == current@.identity.account_id && document.identity.user_id
            == current@.identity.user_id ==> ({
            let run = copy_to_same_run(document, destination, log, at);
            &&& document.same_credentials(current@) ==> run == Run::Done(false, at + 1)
            &&& !document.same_credentials(current@) && log.len() == at + 1 ==> run == Run::<
                bool,
            >::Ask(RequestView::Write { path: destination, bytes: document.bytes })
            &&& !document.same_credentials(current@) && log.len() > at + 1 && log[at as int + 1]
                == Reply::Done ==> run == Run::Done(true, at + 2)
        }),
{
}

/// A reading that fails says why, and whether it changed the session all the same; one that could not
/// even begin changed nothing.
pub proof fn law_a_failed_reading_says_why(
    usage: UsageRecord,
    error: Error,
    changed: bool,
)
    ensures
        session_touched(Ok((Ok(usage), changed))) == changed,
        session_touched(Ok((Err(error), changed))) == changed,
        !session_touched(Err(error)),
        reading_fault(Ok((Ok(usage), changed))) is None,
        reading_fault(Ok((Err(error), changed))) == Some(error@),
        reading_fault(Err(error)) == Some(error@),
        unavailable(ErrorView::Timeout) == "quota unavailable ("@ + "Timeout"@ + ")"@,
        unavailable(error@) == "quota unavailable ("@ + error@.kind() + ")"@,
{
}

}
