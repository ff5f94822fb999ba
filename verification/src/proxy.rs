//! The quota bridge: which messages pass between a client and the app server, how frames are
//! followed on the wire, and when a connection has been silent for too long.
use crate::app_server::integer;
use crate::json::{
    field, json_parsed, json_text, lookup, object1, object2, object3, parse, render, Json,
    JsonView,
};
use crate::text::{same, texts};
use vstd::prelude::*;
use vstd::utf8::encode_utf8;

verus! {

pub const MAX_CLIENTS: usize = 16;

pub const MAX_PENDING_REQUESTS: usize = 16;

pub const MAX_MESSAGE_SIZE: usize = 4_194_304;

/// How many messages are taken from one side before the other is looked at again.
pub const MAX_DRAIN_MESSAGES: usize = 1;

/// How long a handshake may take, in nanoseconds.
pub const HANDSHAKE_TIMEOUT: u64 = 5_000_000_000;

/// How long a frame may stay unfinished, in nanoseconds.
pub const FRAME_TIMEOUT: u64 = 5_000_000_000;

/// How long a connection may be silent, in nanoseconds.
pub const IDLE_CONNECTION_TIMEOUT: u64 = 300_000_000_000;

pub const CODEX_SUBPROTOCOL: &'static str = "codex-app-server";

// ---------------------------------------------------------------- requests under way

/// The requests that wait for a response, by their identifiers as they are written. None occurs
/// twice.
pub struct Pending {
    pub ids: Vec<String>,
}

impl View for Pending {
    type V = Seq<Seq<char>>;

    open spec fn view(&self) -> Seq<Seq<char>> {
        texts(self.ids@)
    }
}

impl Pending {
    /// Whether no identifier occurs twice.
    pub open spec fn wf(&self) -> bool {
        self@.no_duplicates()
    }

    /// No requests.
    pub fn new() -> (r: Pending)
        ensures
            r.wf(),
            r@ == Seq::<Seq<char>>::empty(),
    {
        let r = Pending { ids: Vec::new() };
        proof {
            assert(r@ =~= Seq::<Seq<char>>::empty());
        }
        r
    }

    /// Whether a request waits.
    pub fn contains(&self, id: &str) -> (r: bool)
        ensures
            r == self@.contains(id@),
    {
        crate::text::holds(&self.ids, id)
    }

    /// How many requests wait.
    pub fn len(&self) -> (r: usize)
        ensures
            r == self@.len(),
    {
        self.ids.len()
    }

    /// Adds a request, if it does not wait already; the answer says whether it was added.
    pub fn insert(&mut self, id: String) -> (r: bool)
        requires
            old(self).wf(),
        ensures
            final(self).wf(),
            r == !old(self)@.contains(id@),
            final(self)@ == (if r {
                old(self)@.push(id@)
            } else {
                old(self)@
            }),
    {
        if self.contains(&id) {
            return false;
        }
        self.ids.push(id);
        proof {
            assert(self@ =~= old(self)@.push(id@));
        }
        true
    }

    /// Removes a request; the answer says whether it waited.
    pub fn remove(&mut self, id: &str) -> (r: bool)
        requires
            old(self).wf(),
        ensures
            final(self).wf(),
            r == old(self)@.contains(id@),
            final(self)@ == without(old(self)@, id@),
    {
        let mut i: usize = 0;
        while i < self.ids.len()
            invariant
                i <= self.ids.len(),
                self@ == old(self)@,
                old(self).wf(),
                forall|j: int| 0 <= j < i ==> self@[j] != id@,
            decreases self.ids.len() - i,
        {
            if same(&self.ids[i], id) {
                proof {
                    assert(self@[i as int] == id@);
                    lemma_without_first(self@, id@, i as int);
                }
                let _ = self.ids.remove(i);
                proof {
                    assert(self@ =~= old(self)@.remove(i as int));
                }
                return true;
            }
            i += 1;
        }
        proof {
            assert(!self@.contains(id@));
        }
        false
    }
}

/// The identifiers without the first occurrence of one.
pub open spec fn without(ids: Seq<Seq<char>>, id: Seq<char>) -> Seq<Seq<char>> {
    if ids.contains(id) {
        ids.remove(ids.index_of(id))
    } else {
        ids
    }
}

proof fn lemma_without_first(ids: Seq<Seq<char>>, id: Seq<char>, i: int)
    requires
        0 <= i < ids.len(),
        ids[i] == id,
        ids.no_duplicates(),
    ensures
        ids.contains(id),
        without(ids, id) == ids.remove(i),
        without(ids, id).no_duplicates(),
        !without(ids, id).contains(id),
{
    assert(ids.contains(id));
    let k = ids.index_of(id);
    assert(ids[k] == id);
    assert(k == i);
    let rest = ids.remove(i);
    assert forall|a: int, b: int| 0 <= a < rest.len() && 0 <= b < rest.len() && a != b implies rest[a]
        != rest[b] by {
        let x = if a < i {
            a
        } else {
            a + 1
        };
        let y = if b < i {
            b
        } else {
            b + 1
        };
        assert(rest[a] == ids[x] && rest[b] == ids[y] && x != y);
    }
    assert forall|a: int| 0 <= a < rest.len() implies rest[a] != id by {
        let x = if a < i {
            a
        } else {
            a + 1
        };
        assert(rest[a] == ids[x] && x != i);
    }
}

// ---------------------------------------------------------------- what passes

/// What becomes of a client's message.
pub enum ClientAction {
    /// It goes on to the app server, as this text.
    Forward(String),
    /// It is answered here, with this text.
    Reply(String),
}

/// A decision on a client's message, before it is put in words.
pub enum Decision {
    Forward(Json),
    Reply(Json),
}

/// A decision, with the message as a value.
pub enum DecisionView {
    Forward(JsonView),
    Reply(JsonView),
}

impl View for Decision {
    type V = DecisionView;

    open spec fn view(&self) -> DecisionView {
        match self {
            Decision::Forward(message) => DecisionView::Forward(message@),
            Decision::Reply(message) => DecisionView::Reply(message@),
        }
    }
}

/// The answer to a request that is refused.
pub open spec fn error_reply(id: JsonView, code: int, message: Seq<char>) -> JsonView {
    JsonView::Object(
        seq![
            (
                "error"@,
                JsonView::Object(
                    seq![
                        ("code"@, JsonView::Integer(code)),
                        ("message"@, JsonView::Text(message)),
                    ],
                ),
            ),
            ("id"@, id),
        ],
    )
}

/// Whether a method has to do with the account or its quota.
pub open spec fn allowed_method(method: Seq<char>) -> bool {
    method == "initialize"@ || method == "account/read"@ || method == "account/rateLimits/read"@
}

/// An allowed request as the app server gets it: nothing of the client's but the identifier and
/// the method.
pub open spec fn forwarded(id: JsonView, method: Seq<char>) -> JsonView {
    if method == "initialize"@ {
        JsonView::Object(
            seq![
                ("id"@, id),
                ("method"@, JsonView::Text(method)),
                (
                    "params"@,
                    JsonView::Object(
                        seq![
                            (
                                "clientInfo"@,
                                JsonView::Object(
                                    seq![
                                        ("name"@, JsonView::Text("codex-quota-proxy"@)),
                                        ("title"@, JsonView::Text("Codex Quota Proxy"@)),
                                        ("version"@, JsonView::Text("1"@)),
                                    ],
                                ),
                            ),
                        ],
                    ),
                ),
            ],
        )
    } else if method == "account/read"@ {
        JsonView::Object(
            seq![
                ("id"@, id),
                ("method"@, JsonView::Text(method)),
                ("params"@, JsonView::Object(seq![("refreshToken"@, JsonView::Bool(true))])),
            ],
        )
    } else {
        JsonView::Object(seq![("id"@, id), ("method"@, JsonView::Text(method))])
    }
}

/// What becomes of a client's message. `message` is what its text is read as, if it is JSON, and
/// `key` how its identifier is written.
pub open spec fn decision_on(
    message: Option<JsonView>,
    key: Seq<char>,
    pending: Seq<Seq<char>>,
) -> DecisionView {
    match message {
        None => DecisionView::Reply(error_reply(JsonView::Null, -32700, "invalid JSON"@)),
        Some(value) => if value !is Object {
            DecisionView::Reply(error_reply(JsonView::Null, -32600, "invalid request"@))
        } else {
            match (value.get("id"@), value.text_at("method"@)) {
                (None, method) => if method == Some("initialized"@) {
                    DecisionView::Forward(
                        JsonView::Object(seq![("method"@, JsonView::Text("initialized"@))]),
                    )
                } else {
                    DecisionView::Reply(
                        error_reply(JsonView::Null, -32600, "request id required"@),
                    )
                },
                (Some(id), None) => DecisionView::Reply(
                    error_reply(id, -32600, "request method required"@),
                ),
                (Some(id), Some(method)) => if !allowed_method(method) {
                    DecisionView::Reply(
                        error_reply(
                            id,
                            -32601,
                            "method not available through quota bridge"@,
                        ),
                    )
                } else if pending.contains(key) {
                    DecisionView::Reply(error_reply(id, -32600, "duplicate pending request id"@))
                } else if pending.len() >= MAX_PENDING_REQUESTS {
                    DecisionView::Reply(
                        error_reply(id, -32000, "too many pending quota requests"@),
                    )
                } else {
                    DecisionView::Forward(forwarded(id, method))
                },
            }
        },
    }
}

/// Whether a client's message is a request that goes on to the app server.
pub open spec fn is_request(message: Option<JsonView>) -> bool {
    match message {
        Some(value) => value.get("id"@) is Some,
        None => false,
    }
}

/// The requests that wait after a client's message.
pub open spec fn pending_after(
    message: Option<JsonView>,
    key: Seq<char>,
    pending: Seq<Seq<char>>,
) -> Seq<Seq<char>> {
    if is_request(message) && decision_on(message, key, pending) is Forward {
        pending.push(key)
    } else {
        pending
    }
}

/// How a message's identifier is written; nothing where it has none.
pub open spec fn key_of(message: Option<JsonView>) -> Seq<char> {
    match message {
        Some(value) => match value.get("id"@) {
            Some(id) => json_text(id),
            None => ""@,
        },
        None => ""@,
    }
}

/// What a text is read as, if it is JSON.
pub open spec fn message_of(payload: Seq<char>) -> Option<JsonView> {
    match json_parsed(encode_utf8(payload)) {
        Ok(value) => Some(value),
        Err(_) => None,
    }
}

/// The value behind an optional message.
pub open spec fn opt_view(message: Option<Json>) -> Option<JsonView> {
    match message {
        Some(value) => Some(value@),
        None => None,
    }
}

fn refuse(id: Json, code: i64, message: &str) -> (r: Decision)
    ensures
        r@ == DecisionView::Reply(error_reply(id@, code as int, message@)),
{
    let error = object2(field("code", integer(code)), field("message", Json::of(message)));
    Decision::Reply(object2(field("error", error), field("id", id)))
}

fn forward(id: Json, method: &str) -> (r: Json)
    requires
        allowed_method(method@),
    ensures
        r@ == forwarded(id@, method@),
{
    let id_field = field("id", id);
    let method_field = field("method", Json::of(method));
    if same(method, "initialize") {
        let info = object3(
            field("name", Json::of("codex-quota-proxy")),
            field("title", Json::of("Codex Quota Proxy")),
            field("version", Json::of("1")),
        );
        object3(id_field, method_field, field("params", object1(field("clientInfo", info))))
    } else if same(method, "account/read") {
        let params = object1(field("refreshToken", Json::Bool(true)));
        object3(id_field, method_field, field("params", params))
    } else {
        object2(id_field, method_field)
    }
}

/// Decides what becomes of a client's message, given what its text was read as and how its
/// identifier is written.
pub fn decide(message: &Option<Json>, key: &str, pending: &mut Pending) -> (r: Decision)
    requires
        old(pending).wf(),
    ensures
        final(pending).wf(),
        r@ == decision_on(opt_view(*message), key@, old(pending)@),
        final(pending)@ == pending_after(opt_view(*message), key@, old(pending)@),
{
    let value = match message {
        Some(value) => value,
        None => {
            return refuse(Json::Null, -32700, "invalid JSON");
        },
    };
    let is_object = match value {
        Json::Object(_) => true,
        _ => false,
    };
    if !is_object {
        return refuse(Json::Null, -32600, "invalid request");
    }
    let id = match value.get("id") {
        Some(id) => id,
        None => {
            if value.text_at_is("method", "initialized") {
                return Decision::Forward(object1(field("method", Json::of("initialized"))));
            }
            return refuse(Json::Null, -32600, "request id required");
        },
    };
    let method = match value.text_at("method") {
        Some(method) => method,
        None => {
            return refuse(id.copy(), -32600, "request method required");
        },
    };
    let available = same(method, "initialize") || same(method, "account/read") || same(
        method,
        "account/rateLimits/read",
    );
    if !available {
        return refuse(id.copy(), -32601, "method not available through quota bridge");
    }
    if pending.contains(key) {
        return refuse(id.copy(), -32600, "duplicate pending request id");
    }
    if pending.len() >= MAX_PENDING_REQUESTS {
        return refuse(id.copy(), -32000, "too many pending quota requests");
    }
    let _ = pending.insert(key.to_owned());
    Decision::Forward(forward(id.copy(), method))
}

fn read_message(payload: &str) -> (r: Option<Json>)
    ensures
        opt_view(r) == message_of(payload@),
{
    match parse(payload.as_bytes()) {
        Ok(value) => Some(value),
        Err(_) => None,
    }
}

fn write_key(message: &Option<Json>) -> (r: String)
    ensures
        r@ == key_of(opt_view(*message)),
{
    match message {
        Some(value) => match value.get("id") {
            Some(id) => render(id),
            None => "".to_owned(),
        },
        None => "".to_owned(),
    }
}

/// Decides what becomes of a client's message.
pub fn client_action(payload: &str, pending: &mut Pending) -> (r: ClientAction)
    requires
        old(pending).wf(),
    ensures
        final(pending).wf(),
        final(pending)@ == pending_after(
            message_of(payload@),
            key_of(message_of(payload@)),
            old(pending)@,
        ),
        match decision_on(message_of(payload@), key_of(message_of(payload@)), old(pending)@) {
            DecisionView::Forward(message) => r matches ClientAction::Forward(text) && text@
                == json_text(message),
            DecisionView::Reply(message) => r matches ClientAction::Reply(text) && text@
                == json_text(message),
        },
{
    let message = read_message(payload);
    let key = write_key(&message);
    match decide(&message, &key, pending) {
        Decision::Forward(forwarded) => ClientAction::Forward(render(&forwarded)),
        Decision::Reply(reply) => ClientAction::Reply(render(&reply)),
    }
}

/// Whether a message is a response.
pub open spec fn is_response(value: JsonView) -> bool {
    value is Object && value.get("id"@) is Some && value.get("method"@) is None
}

/// Whether a message from the app server goes on to the client: a response that the client waits
/// for, or a notice about the quota.
pub open spec fn passes(message: Option<JsonView>, key: Seq<char>, pending: Seq<Seq<char>>) -> bool {
    match message {
        Some(value) => if is_response(value) {
            pending.contains(key)
        } else {
            value.text_at("method"@) == Some("account/rateLimits/updated"@)
        },
        None => false,
    }
}

/// The requests that wait after a message from the app server.
pub open spec fn pending_left(
    message: Option<JsonView>,
    key: Seq<char>,
    pending: Seq<Seq<char>>,
) -> Seq<Seq<char>> {
    match message {
        Some(value) => if is_response(value) {
            without(pending, key)
        } else {
            pending
        },
        None => pending,
    }
}

/// Decides whether a message from the app server goes on to the client, given what its text was
/// read as and how its identifier is written.
pub fn admit_message(message: &Option<Json>, key: &str, pending: &mut Pending) -> (r: bool)
    requires
        old(pending).wf(),
    ensures
        final(pending).wf(),
        r == passes(opt_view(*message), key@, old(pending)@),
        final(pending)@ == pending_left(opt_view(*message), key@, old(pending)@),
{
    let value = match message {
        Some(value) => value,
        None => {
            return false;
        },
    };
    let is_object = match value {
        Json::Object(_) => true,
        _ => false,
    };
    if is_object && value.get("id").is_some() && value.get("method").is_none() {
        return pending.remove(key);
    }
    value.text_at_is("method", "account/rateLimits/updated")
}

/// Decides whether a message from the app server goes on to the client.
pub fn server_message_allowed(payload: &str, pending: &mut Pending) -> (r: bool)
    requires
        old(pending).wf(),
    ensures
        final(pending).wf(),
        r == passes(message_of(payload@), key_of(message_of(payload@)), old(pending)@),
        final(pending)@ == pending_left(
            message_of(payload@),
            key_of(message_of(payload@)),
            old(pending)@,
        ),
{
    let message = read_message(payload);
    let key = write_key(&message);
    admit_message(&message, &key, pending)
}

// ---------------------------------------------------------------- laws of the bridge

/// Only account and quota methods, and the end of the greeting, ever reach the app server.
pub proof fn law_only_quota_methods_pass(
    message: Option<JsonView>,
    key: Seq<char>,
    pending: Seq<Seq<char>>,
)
    requires
        decision_on(message, key, pending) is Forward,
    ensures
        message is Some,
        message->0.text_at("method"@) matches Some(method) && (allowed_method(method) || method
            == "initialized"@),
{
}

/// Never more requests wait than the limit.
pub proof fn law_pending_is_bounded(
    message: Option<JsonView>,
    key: Seq<char>,
    pending: Seq<Seq<char>>,
)
    requires
        pending.len() <= MAX_PENDING_REQUESTS,
    ensures
        pending_after(message, key, pending).len() <= MAX_PENDING_REQUESTS,
        pending_left(message, key, pending).len() <= MAX_PENDING_REQUESTS,
{
}

/// The response to a request that went on is passed to the client, and only once.
pub proof fn law_response_passes_once(
    request: Option<JsonView>,
    response: JsonView,
    key: Seq<char>,
    pending: Seq<Seq<char>>,
)
    requires
        pending.no_duplicates(),
        is_request(request),
        decision_on(request, key, pending) is Forward,
        is_response(response),
    ensures
        passes(Some(response), key, pending_after(request, key, pending)),
        pending_left(Some(response), key, pending_after(request, key, pending)) == pending,
        !passes(Some(response), key, pending),
{
    let after = pending.push(key);
    assert(!pending.contains(key));
    assert(after[pending.len() as int] == key);
    assert(after.no_duplicates());
    lemma_without_first(after, key, pending.len() as int);
    assert(after.remove(pending.len() as int) =~= pending);
}

/// A request that is answered here is answered under its own identifier, and does not wait.
pub proof fn law_refusals_carry_the_id(
    message: Option<JsonView>,
    key: Seq<char>,
    pending: Seq<Seq<char>>,
)
    requires
        decision_on(message, key, pending) is Reply,
        message is Some,
        message->0 is Object,
        message->0.get("id"@) is Some,
    ensures
        exists|code: int, text: Seq<char>|
            decision_on(message, key, pending) == DecisionView::Reply(
                #[trigger] error_reply(message->0.get("id"@)->0, code, text),
            ),
        pending_after(message, key, pending) == pending,
{
    let id = message->0.get("id"@)->0;
    let a = error_reply(id, -32600, "request method required"@);
    let b = error_reply(id, -32601, "method not available through quota bridge"@);
    let c = error_reply(id, -32600, "duplicate pending request id"@);
    let d = error_reply(id, -32000, "too many pending quota requests"@);
    assert(decision_on(message, key, pending) == DecisionView::Reply(a) || decision_on(
        message,
        key,
        pending,
    ) == DecisionView::Reply(b) || decision_on(message, key, pending) == DecisionView::Reply(c)
        || decision_on(message, key, pending) == DecisionView::Reply(d));
}

proof fn lemma_field_names()
    ensures
        "id"@ != "method"@,
        "id"@ != "params"@,
        "id"@ != "error"@,
        "method"@ != "params"@,
        "code"@ != "message"@,
        "name"@ != "title"@,
        "name"@ != "version"@,
        "title"@ != "version"@,
{
    reveal_strlit("id");
    reveal_strlit("method");
    reveal_strlit("params");
    reveal_strlit("error");
    reveal_strlit("code");
    reveal_strlit("message");
    reveal_strlit("name");
    reveal_strlit("title");
    reveal_strlit("version");
    assert("id"@.len() == 2);
    assert("method"@[0] == 'm');
    assert("params"@[0] == 'p');
    assert("error"@.len() == 5);
    assert("code"@.len() == 4);
    assert("message"@.len() == 7);
    assert("name"@.len() == 4);
    assert("title"@.len() == 5);
    assert("version"@.len() == 7);
}

proof fn lemma_two(a: (Seq<char>, JsonView), b: (Seq<char>, JsonView), name: Seq<char>)
    ensures
        lookup(seq![a, b], name) == (if b.0 == name {
            Some(b.1)
        } else if a.0 == name {
            Some(a.1)
        } else {
            None
        }),
{
    reveal_with_fuel(lookup, 3);
    assert(seq![a, b].drop_last() =~= seq![a]);
    assert(seq![a].drop_last() =~= Seq::<(Seq<char>, JsonView)>::empty());
}

proof fn lemma_three(
    a: (Seq<char>, JsonView),
    b: (Seq<char>, JsonView),
    c: (Seq<char>, JsonView),
    name: Seq<char>,
)
    ensures
        lookup(seq![a, b, c], name) == (if c.0 == name {
            Some(c.1)
        } else if b.0 == name {
            Some(b.1)
        } else if a.0 == name {
            Some(a.1)
        } else {
            None
        }),
{
    reveal_with_fuel(lookup, 2);
    assert(seq![a, b, c].drop_last() =~= seq![a, b]);
    lemma_two(a, b, name);
}

/// A request that goes on reaches the app server under its own identifier and with its own method.
/// Of its parameters nothing goes on: those of an allowed method are always the same, and a request
/// for the quota has none.
pub proof fn law_forwarded_requests_keep_id_and_method(
    message: JsonView,
    key: Seq<char>,
    pending: Seq<Seq<char>>,
    onward: JsonView,
)
    requires
        message.get("id"@) is Some,
        decision_on(Some(message), key, pending) == DecisionView::Forward(onward),
    ensures
        onward.get("id"@) == message.get("id"@),
        onward.text_at("method"@) == message.text_at("method"@),
        message.text_at("method"@) == Some("account/rateLimits/read"@) ==> onward.get("params"@)
            is None,
        message.text_at("method"@) == Some("account/read"@) ==> onward.get("params"@) == Some(
            JsonView::Object(seq![("refreshToken"@, JsonView::Bool(true))]),
        ),
        message.text_at("method"@) == Some("initialize"@) ==> (onward.get("params"@) matches Some(
            params,
        ) && params.get("clientInfo"@) matches Some(info) && info.text_at("name"@) == Some(
            "codex-quota-proxy"@,
        )),
{
    lemma_field_names();
    let id = message.get("id"@)->0;
    let method = message.text_at("method"@)->0;
    let a = ("id"@, id);
    let b = ("method"@, JsonView::Text(method));
    reveal_strlit("initialize");
    reveal_strlit("account/read");
    reveal_strlit("account/rateLimits/read");
    assert("initialize"@.len() == 10);
    assert("account/read"@.len() == 12);
    assert("account/rateLimits/read"@.len() == 23);
    if method == "initialize"@ {
        let x = ("name"@, JsonView::Text("codex-quota-proxy"@));
        let y = ("title"@, JsonView::Text("Codex Quota Proxy"@));
        let z = ("version"@, JsonView::Text("1"@));
        let info = ("clientInfo"@, JsonView::Object(seq![x, y, z]));
        let c = ("params"@, JsonView::Object(seq![info]));
        lemma_three(a, b, c, "id"@);
        lemma_three(a, b, c, "method"@);
        lemma_three(a, b, c, "params"@);
        lemma_three(x, y, z, "name"@);
        assert(seq![info].drop_last() =~= Seq::<(Seq<char>, JsonView)>::empty());
        assert(lookup(seq![info], "clientInfo"@) == Some(info.1));
    } else if method == "account/read"@ {
        let c = (
            "params"@,
            JsonView::Object(seq![("refreshToken"@, JsonView::Bool(true))]),
        );
        lemma_three(a, b, c, "id"@);
        lemma_three(a, b, c, "method"@);
        lemma_three(a, b, c, "params"@);
    } else {
        lemma_two(a, b, "id"@);
        lemma_two(a, b, "method"@);
        lemma_two(a, b, "params"@);
    }
}

/// What goes on depends on nothing of a request but its identifier and its method.
pub proof fn law_nothing_else_of_a_request_goes_on(
    one: JsonView,
    other: JsonView,
    key: Seq<char>,
    pending: Seq<Seq<char>>,
)
    requires
        one is Object,
        other is Object,
        one.get("id"@) == other.get("id"@),
        one.get("method"@) == other.get("method"@),
    ensures
        decision_on(Some(one), key, pending) == decision_on(Some(other), key, pending),
{
}

/// A request for the account, for the quota or for a greeting goes on, as long as its identifier does
/// not wait for a response already and there is room for it; it waits for its response from then on.
pub proof fn law_quota_requests_go_on(
    message: JsonView,
    key: Seq<char>,
    pending: Seq<Seq<char>>,
)
    requires
        message is Object,
        message.get("id"@) is Some,
        message.text_at("method"@) == Some("account/rateLimits/read"@) || message.text_at(
            "method"@,
        ) == Some("account/read"@) || message.text_at("method"@) == Some("initialize"@),
        !pending.contains(key),
        pending.len() < 16,
    ensures
        decision_on(Some(message), key, pending) is Forward,
        pending_after(Some(message), key, pending) == pending.push(key),
{
}

/// Whether a decision is an error under an identifier, with a code.
pub open spec fn refuses(decision: DecisionView, id: JsonView, code: int) -> bool {
    decision matches DecisionView::Reply(reply) && reply.get("id"@) == Some(id) && (reply.get(
        "error"@,
    ) matches Some(error) && error.get("code"@) == Some(JsonView::Integer(code)))
}

proof fn lemma_refuses(id: JsonView, code: int, text: Seq<char>)
    ensures
        refuses(DecisionView::Reply(error_reply(id, code, text)), id, code),
{
    lemma_field_names();
    let x = ("code"@, JsonView::Integer(code));
    let y = ("message"@, JsonView::Text(text));
    let a = ("error"@, JsonView::Object(seq![x, y]));
    let b = ("id"@, id);
    lemma_two(a, b, "id"@);
    lemma_two(a, b, "error"@);
    lemma_two(x, y, "code"@);
}

/// Everything else is refused, and the code tells why: a text that is no JSON, a message that is no
/// object, a request without an identifier or a method, a method that has nothing to do with the
/// quota, an identifier that waits already, and a request too many.
pub proof fn law_everything_else_is_refused(
    message: JsonView,
    key: Seq<char>,
    pending: Seq<Seq<char>>,
)
    ensures
        refuses(decision_on(None, key, pending), JsonView::Null, -32700),
        message !is Object ==> refuses(
            decision_on(Some(message), key, pending),
            JsonView::Null,
            -32600,
        ),
        message is Object && message.get("id"@) is None && message.text_at("method"@) != Some(
            "initialized"@,
        ) ==> refuses(decision_on(Some(message), key, pending), JsonView::Null, -32600),
        message.get("id"@) matches Some(id) ==> {
            let decision = decision_on(Some(message), key, pending);
            let method = message.text_at("method"@);
            let quota = method == Some("account/rateLimits/read"@) || method == Some(
                "account/read"@,
            ) || method == Some("initialize"@);
            &&& method is None ==> refuses(decision, id, -32600)
            &&& method is Some && !quota ==> refuses(decision, id, -32601)
            &&& quota && pending.contains(key) ==> refuses(decision, id, -32600)
            &&& quota && !pending.contains(key) && pending.len() >= 16 ==> refuses(
                decision,
                id,
                -32000,
            )
        },
{
    lemma_refuses(JsonView::Null, -32700, "invalid JSON"@);
    lemma_refuses(JsonView::Null, -32600, "invalid request"@);
    lemma_refuses(JsonView::Null, -32600, "request id required"@);
    if let Some(id) = message.get("id"@) {
        lemma_refuses(id, -32600, "request method required"@);
        lemma_refuses(id, -32601, "method not available through quota bridge"@);
        lemma_refuses(id, -32600, "duplicate pending request id"@);
        lemma_refuses(id, -32000, "too many pending quota requests"@);
    }
}

/// From the app server a client gets the responses that it waits for, each of which it does not wait
/// for any more, and notices of a changed quota. It gets nothing else: no other notice, no request,
/// no response to somebody else and nothing that is no JSON.
pub proof fn law_clients_get_their_responses_and_quota_notices(
    message: JsonView,
    key: Seq<char>,
    pending: Seq<Seq<char>>,
)
    requires
        pending.no_duplicates(),
    ensures
        !passes(None, key, pending),
        pending_left(None, key, pending) == pending,
        message is Object && message.get("id"@) is Some && message.get("method"@) is None ==> {
            &&& passes(Some(message), key, pending) <==> exists|i: int|
                0 <= i < pending.len() && #[trigger] pending[i] == key
            &&& !pending_left(Some(message), key, pending).contains(key)
            &&& forall|other: Seq<char>|
                other != key ==> (#[trigger] pending_left(
                    Some(message),
                    key,
                    pending,
                ).contains(other) <==> pending.contains(other))
        },
        message.get("method"@) is Some ==> {
            &&& passes(Some(message), key, pending) <==> message.get("method"@) == Some(
                JsonView::Text("account/rateLimits/updated"@),
            )
            &&& pending_left(Some(message), key, pending) == pending
        },
        message.get("method"@) is None && message.get("id"@) is None ==> !passes(
            Some(message),
            key,
            pending,
        ),
{
    if is_response(message) && pending.contains(key) {
        let i = pending.index_of(key);
        lemma_without_first(pending, key, i);
        let rest = pending.remove(i);
        assert forall|other: Seq<char>| other != key implies (#[trigger] rest.contains(other)
            <==> pending.contains(other)) by {
            if pending.contains(other) {
                let k = pending.index_of(other);
                if k < i {
                    assert(rest[k] == other);
                } else {
                    assert(rest[k - 1] == other);
                }
            }
            if rest.contains(other) {
                let k = rest.index_of(other);
                if k < i {
                    assert(pending[k] == other);
                } else {
                    assert(pending[k + 1] == other);
                }
            }
        }
    }
}

}
