//! Credential files: what makes one valid, whose account it belongs to, and when two of them
//! hold the same credentials.
use crate::effects::{
    auth, auth_run, done, done_run, told, Halt, Reply, Request, RequestView, Run,
};
use crate::error::{Error, ErrorView};
use crate::json::{alike_opt, json_parsed, parse, same_json, Json, JsonView};
use crate::text::{copy_opt, opt_text, same, same_opt, split, split_on, texts};
use vstd::prelude::*;

verus! {

/// Whose account credentials belong to. Accounts that share an email address are told apart by
/// the user and, where there is one, the workspace.
pub struct Identity {
    pub email: Option<String>,
    pub account_id: Option<String>,
    pub user_id: String,
}

/// What an identity says.
pub struct IdentityView {
    pub email: Option<Seq<char>>,
    pub account_id: Option<Seq<char>>,
    pub user_id: Seq<char>,
}

impl View for Identity {
    type V = IdentityView;

    open spec fn view(&self) -> IdentityView {
        IdentityView {
            email: opt_text(self.email),
            account_id: opt_text(self.account_id),
            user_id: self.user_id@,
        }
    }
}

impl IdentityView {
    /// Whether two identities are the same account: the same user in the same workspace.
    pub open spec fn same_account(self, other: IdentityView) -> bool {
        self.account_id == other.account_id && self.user_id == other.user_id
    }

    /// What an account is called: its email address, else its workspace, else its user.
    pub open spec fn label(self) -> Seq<char> {
        match (self.email, self.account_id) {
            (Some(email), _) => email,
            (None, Some(account)) => account,
            (None, None) => self.user_id,
        }
    }
}

impl Identity {
    /// Whether two identities are the same account.
    pub fn same_account(&self, other: &Identity) -> (r: bool)
        ensures
            r == self@.same_account(other@),
    {
        same_opt(&self.account_id, &other.account_id) && same(&self.user_id, &other.user_id)
    }

    /// What the account is called.
    pub fn label(&self) -> (r: &String)
        ensures
            r@ == self@.label(),
    {
        match &self.email {
            Some(email) => email,
            None => match &self.account_id {
                Some(account) => account,
                None => &self.user_id,
            },
        }
    }
}

impl Clone for Identity {
    fn clone(&self) -> (r: Identity)
        ensures
            r == *self,
    {
        Identity {
            email: copy_opt(&self.email),
            account_id: copy_opt(&self.account_id),
            user_id: self.user_id.clone(),
        }
    }
}

/// A valid credential file: its JSON, the account it belongs to, when it was last refreshed, and
/// the bytes it was read from.
pub struct AuthDocument {
    pub raw: Json,
    pub identity: Identity,
    pub refresh_ns: Option<i128>,
    pub bytes: Vec<u8>,
}

/// What a credential file says.
pub struct AuthView {
    pub raw: JsonView,
    pub identity: IdentityView,
    pub refresh_ns: Option<int>,
    pub bytes: Seq<u8>,
}

impl View for AuthDocument {
    type V = AuthView;

    open spec fn view(&self) -> AuthView {
        AuthView {
            raw: self.raw@,
            identity: self.identity@,
            refresh_ns: match self.refresh_ns {
                Some(ns) => Some(ns as int),
                None => None,
            },
            bytes: self.bytes@,
        }
    }
}

impl AuthView {
    /// Whether two files hold the same credentials.
    pub open spec fn same_credentials(self, other: AuthView) -> bool {
        alike_opt(self.raw.get("tokens"@), other.raw.get("tokens"@))
    }

    /// Whether this file was refreshed after the other; one without a time counts as the oldest.
    pub open spec fn newer(self, other: AuthView) -> bool {
        match (self.refresh_ns, other.refresh_ns) {
            (Some(a), Some(b)) => a > b,
            (Some(_), None) => true,
            (None, _) => false,
        }
    }
}

// ---------------------------------------------------------------- outside calls

/// The bytes that a text stands for in base64 with the URL-safe alphabet and no padding.
pub uninterp spec fn base64_url_unpadded(text: Seq<char>) -> Option<Seq<u8>>;

/// The bytes that a text stands for in base64 with the URL-safe alphabet and padding.
pub uninterp spec fn base64_url_padded(text: Seq<char>) -> Option<Seq<u8>>;

/// The moment that an RFC 3339 text names: whole seconds since the Unix epoch, and nanoseconds.
pub uninterp spec fn rfc3339(text: Seq<char>) -> Option<(int, int)>;

/// `base64::Engine::decode` of `URL_SAFE_NO_PAD`: a function of the text, with no result for a
/// text that is not in that form.
#[verifier::external_body]
fn decode_unpadded(text: &str) -> (r: Option<Vec<u8>>)
    ensures
        match r {
            Some(bytes) => base64_url_unpadded(text@) == Some(bytes@),
            None => base64_url_unpadded(text@) is None,
        },
{
    base64::Engine::decode(&base64::engine::general_purpose::URL_SAFE_NO_PAD, text).ok()
}

/// `base64::Engine::decode` of `URL_SAFE`: a function of the text, with no result for a text that
/// is not in that form.
#[verifier::external_body]
fn decode_padded(text: &str) -> (r: Option<Vec<u8>>)
    ensures
        match r {
            Some(bytes) => base64_url_padded(text@) == Some(bytes@),
            None => base64_url_padded(text@) is None,
        },
{
    base64::Engine::decode(&base64::engine::general_purpose::URL_SAFE, text).ok()
}

/// `chrono::DateTime::parse_from_rfc3339`: the moment is a function of the text, whose offset it
/// takes into account; the nanoseconds stay below two seconds' worth.
#[verifier::external_body]
pub(crate) fn parse_rfc3339(text: &str) -> (r: Option<(i64, u32)>)
    ensures
        match r {
            Some((seconds, nanos)) => rfc3339(text@) == Some((seconds as int, nanos as int))
                && nanos < 2_000_000_000,
            None => rfc3339(text@) is None,
        },
{
    chrono::DateTime::parse_from_rfc3339(text).ok().map(|time| (time.timestamp(), time.timestamp_subsec_nanos()))
}

// ---------------------------------------------------------------- reading

/// The claims inside an identity token: the JSON in the second of its dot-separated parts.
pub open spec fn claims_of(token: Seq<char>) -> Option<JsonView> {
    let pieces = split_on(token, '.');
    if pieces.len() < 2 {
        None
    } else {
        let decoded = match base64_url_unpadded(pieces[1]) {
            Some(bytes) => Some(bytes),
            None => base64_url_padded(pieces[1]),
        };
        match decoded {
            Some(bytes) => match json_parsed(bytes) {
                Ok(claims) => Some(claims),
                Err(_) => None,
            },
            None => None,
        }
    }
}

/// Whether a field holds a string that is not empty.
pub open spec fn filled(value: JsonView, name: Seq<char>) -> bool {
    match value.text_at(name) {
        Some(text) => text.len() > 0,
        None => false,
    }
}

/// The first of two optional texts that is there.
pub open spec fn either(a: Option<Seq<char>>, b: Option<Seq<char>>) -> Option<Seq<char>> {
    match a {
        Some(_) => a,
        None => b,
    }
}

/// A text field of an optional object.
pub open spec fn inner_text(value: Option<JsonView>, name: Seq<char>) -> Option<Seq<char>> {
    match value {
        Some(object) => object.text_at(name),
        None => None,
    }
}

/// The account that tokens and claims name; none where they do not name a user.
pub open spec fn identity_of(tokens: JsonView, claims: JsonView) -> Option<IdentityView> {
    let profile = claims.object_at("https://api.openai.com/profile"@);
    let auth = claims.object_at("https://api.openai.com/auth"@);
    match either(inner_text(auth, "chatgpt_user_id"@), inner_text(auth, "user_id"@)) {
        Some(user_id) => Some(
            IdentityView {
                email: either(claims.text_at("email"@), inner_text(profile, "email"@)),
                account_id: either(
                    tokens.text_at("account_id"@),
                    inner_text(auth, "chatgpt_account_id"@),
                ),
                user_id,
            },
        ),
        None => None,
    }
}

/// The account that the JSON of a credential file belongs to; none where it is not one.
pub open spec fn account_of(raw: JsonView) -> Option<IdentityView> {
    match raw.object_at("tokens"@) {
        Some(tokens) => match tokens.text_at("id_token"@) {
            Some(id_token) => if filled(tokens, "access_token"@) && filled(
                tokens,
                "refresh_token"@,
            ) {
                match claims_of(id_token) {
                    Some(claims) => identity_of(tokens, claims),
                    None => None,
                }
            } else {
                None
            },
            None => None,
        },
        None => None,
    }
}

/// When the file was last refreshed, in nanoseconds; none where it does not say.
pub open spec fn refreshed_at(raw: JsonView) -> Option<int> {
    match raw.text_at("last_refresh"@) {
        Some(text) => match rfc3339(text) {
            Some((seconds, nanos)) => Some(seconds * 1_000_000_000 + nanos),
            None => None,
        },
        None => None,
    }
}

/// What the bytes of a file at `path` are as credentials.
pub open spec fn auth_of(path: Seq<char>, bytes: Seq<u8>) -> Result<AuthView, ErrorView> {
    match json_parsed(bytes) {
        Ok(raw) => match account_of(raw) {
            Some(identity) => Ok(
                AuthView { raw, identity, refresh_ns: refreshed_at(raw), bytes },
            ),
            None => Err(ErrorView::InvalidAuth(path)),
        },
        Err(detail) => Err(ErrorView::Json { path, detail }),
    }
}

/// The claims inside an identity token.
fn decode_claims(token: &str) -> (r: Option<Json>)
    ensures
        match r {
            Some(claims) => claims_of(token@) == Some(claims@),
            None => claims_of(token@) is None,
        },
{
    let pieces = split(token, '.');
    proof {
        assert(texts(pieces@).len() == pieces.len());
    }
    if pieces.len() < 2 {
        return None;
    }
    proof {
        assert(texts(pieces@)[1] == pieces@[1]@);
    }
    let decoded = match decode_unpadded(&pieces[1]) {
        Some(bytes) => Some(bytes),
        None => decode_padded(&pieces[1]),
    };
    match decoded {
        Some(bytes) => match parse(bytes.as_slice()) {
            Ok(claims) => Some(claims),
            Err(_) => None,
        },
        None => None,
    }
}

fn is_filled(value: &Json, name: &str) -> (r: bool)
    ensures
        r == filled(value@, name@),
{
    match value.text_at(name) {
        Some(text) => !text.as_str().is_empty(),
        None => false,
    }
}

fn first_text(a: Option<&String>, b: Option<&String>) -> (r: Option<String>)
    ensures
        opt_text(r) == either(ref_text(a), ref_text(b)),
{
    match a {
        Some(text) => Some(text.clone()),
        None => match b {
            Some(text) => Some(text.clone()),
            None => None,
        },
    }
}

/// The text behind an optional reference to a string.
pub open spec fn ref_text(value: Option<&String>) -> Option<Seq<char>> {
    match value {
        Some(s) => Some(s@),
        None => None,
    }
}

fn text_in<'a>(value: Option<&'a Json>, name: &str) -> (r: Option<&'a String>)
    ensures
        ref_text(r) == inner_text(
            match value {
                Some(json) => Some(json@),
                None => None,
            },
            name@,
        ),
{
    match value {
        Some(object) => object.text_at(name),
        None => None,
    }
}

/// The account that tokens and claims name.
fn identify(tokens: &Json, claims: &Json) -> (r: Option<Identity>)
    ensures
        match r {
            Some(identity) => identity_of(tokens@, claims@) == Some(identity@),
            None => identity_of(tokens@, claims@) is None,
        },
{
    let profile = claims.object_at("https://api.openai.com/profile");
    let auth = claims.object_at("https://api.openai.com/auth");
    let email = first_text(claims.text_at("email"), text_in(profile, "email"));
    let account_id = first_text(tokens.text_at("account_id"), text_in(auth, "chatgpt_account_id"));
    match first_text(text_in(auth, "chatgpt_user_id"), text_in(auth, "user_id")) {
        Some(user_id) => Some(Identity { email, account_id, user_id }),
        None => None,
    }
}

/// The account that the JSON of a credential file belongs to.
fn account(raw: &Json) -> (r: Option<Identity>)
    ensures
        match r {
            Some(identity) => account_of(raw@) == Some(identity@),
            None => account_of(raw@) is None,
        },
{
    let tokens = match raw.object_at("tokens") {
        Some(tokens) => tokens,
        None => {
            return None;
        },
    };
    let id_token = match tokens.text_at("id_token") {
        Some(id_token) => id_token,
        None => {
            return None;
        },
    };
    if !is_filled(tokens, "access_token") || !is_filled(tokens, "refresh_token") {
        return None;
    }
    match decode_claims(id_token) {
        Some(claims) => identify(tokens, &claims),
        None => None,
    }
}

fn refresh_time(raw: &Json) -> (r: Option<i128>)
    ensures
        match r {
            Some(ns) => refreshed_at(raw@) == Some(ns as int),
            None => refreshed_at(raw@) is None,
        },
{
    match raw.text_at("last_refresh") {
        Some(text) => match parse_rfc3339(text) {
            Some((seconds, nanos)) => Some(seconds as i128 * 1_000_000_000 + nanos as i128),
            None => None,
        },
        None => None,
    }
}

impl AuthDocument {
    /// Reads the bytes of a file at `path` as credentials.
    pub fn read(path: &str, bytes: Vec<u8>) -> (r: Result<AuthDocument, Error>)
        ensures
            match r {
                Ok(document) => auth_of(path@, bytes@) == Ok::<AuthView, ErrorView>(document@),
                Err(error) => auth_of(path@, bytes@) == Err::<AuthView, ErrorView>(error@),
            },
    {
        let raw = match parse(bytes.as_slice()) {
            Ok(raw) => raw,
            Err(detail) => {
                return Err(Error::Json { path: path.to_owned(), detail });
            },
        };
        match account(&raw) {
            Some(identity) => {
                let refresh_ns = refresh_time(&raw);
                Ok(AuthDocument { raw, identity, refresh_ns, bytes })
            },
            None => Err(Error::InvalidAuth(path.to_owned())),
        }
    }

    /// Whether two files hold the same credentials.
    pub fn same_credentials(&self, other: &AuthDocument) -> (r: bool)
        ensures
            r == self@.same_credentials(other@),
    {
        match (self.raw.get("tokens"), other.raw.get("tokens")) {
            (Some(a), Some(b)) => same_json(a, b),
            (None, None) => true,
            _ => false,
        }
    }

    /// Whether this file was refreshed after the other.
    pub fn newer(&self, other: &AuthDocument) -> (r: bool)
        ensures
            r == self@.newer(other@),
    {
        match (self.refresh_ns, other.refresh_ns) {
            (Some(a), Some(b)) => a > b,
            (Some(_), None) => true,
            (None, _) => false,
        }
    }

    /// Whether both files were refreshed at the same moment, or neither says when.
    pub fn as_old_as(&self, other: &AuthDocument) -> (r: bool)
        ensures
            r == (self@.refresh_ns == other@.refresh_ns),
    {
        match (self.refresh_ns, other.refresh_ns) {
            (Some(a), Some(b)) => a == b,
            (None, None) => true,
            _ => false,
        }
    }
}

// ---------------------------------------------------------------- writing

pub open spec fn other_account_text(destination: Seq<char>) -> Seq<char> {
    "Refusing to replace credentials for another account at "@ + destination + "."@
}

/// Writes the bytes that were checked.
pub open spec fn write_run(document: AuthView, destination: Seq<char>, log: Seq<Reply>, at: nat) -> Run<
    (),
> {
    done_run(log, at, RequestView::Write { path: destination, bytes: document.bytes })
}

/// Replaces credentials of the same account, if they are different ones; the answer says whether
/// they were.
pub open spec fn copy_to_same_run(
    document: AuthView,
    destination: Seq<char>,
    log: Seq<Reply>,
    at: nat,
) -> Run<bool> {
    auth_run(log, at, destination).bind(
        |current: AuthDocument, n: nat|
            if !document.identity.same_account(current@.identity) {
                Run::Fail(ErrorView::Message(other_account_text(destination)), n)
            } else if document.same_credentials(current@) {
                Run::Done(false, n)
            } else {
                write_run(document, destination, log, n).next(|m: nat| Run::Done(true, m))
            },
    )
}

impl AuthDocument {
    /// Writes the bytes that were checked, whatever became of the file they were read from.
    pub fn write_to(&self, destination: &str, log: &Vec<Reply>, at: &mut usize) -> (r: Result<
        (),
        Halt,
    >)
        requires
            *old(at) <= log.len(),
        ensures
            *final(at) <= log.len(),
            told(r, *final(at), write_run(self@, destination@, log@, *old(at) as nat)),
    {
        done(
            log,
            at,
            Request::Write { path: destination.to_owned(), bytes: copy_bytes(&self.bytes) },
        )
    }

    /// Replaces credentials of the same account, if they are different ones.
    pub fn copy_to_same_account(&self, destination: &str, log: &Vec<Reply>, at: &mut usize) -> (r:
        Result<bool, Halt>)
        requires
            *old(at) <= log.len(),
        ensures
            *final(at) <= log.len(),
            told(r, *final(at), copy_to_same_run(self@, destination@, log@, *old(at) as nat)),
    {
        let current = auth(log, at, destination)?;
        if !self.identity.same_account(&current.identity) {
            return Err(
                Halt::Fail(
                    Error::Message(
                        "Refusing to replace credentials for another account at ".to_owned().concat(
                            destination,
                        ).concat("."),
                    ),
                ),
            );
        }
        if self.same_credentials(current) {
            return Ok(false);
        }
        self.write_to(destination, log, at)?;
        Ok(true)
    }
}

/// A copy of bytes.
pub fn copy_bytes(bytes: &Vec<u8>) -> (r: Vec<u8>)
    ensures
        r@ == bytes@,
{
    let mut out: Vec<u8> = Vec::new();
    let mut i: usize = 0;
    while i < bytes.len()
        invariant
            i <= bytes.len(),
            out@ == bytes@.take(i as int),
        decreases bytes.len() - i,
    {
        out.push(bytes[i]);
        i += 1;
    }
    proof {
        assert(bytes@.take(i as int) =~= bytes@);
    }
    out
}

// ---------------------------------------------------------------- laws

/// Credentials are never replaced by those of another account: a copy that is asked for goes to
/// the same account, is a different one, and is the document that was checked.
pub proof fn law_copy_stays_in_account(
    document: AuthView,
    destination: Seq<char>,
    log: Seq<Reply>,
    at: nat,
)
    requires
        copy_to_same_run(document, destination, log, at) matches Run::Ask(RequestView::Write { .. }),
    ensures
        copy_to_same_run(document, destination, log, at) == Run::<bool>::Ask(
            RequestView::Write { path: destination, bytes: document.bytes },
        ),
        auth_run(log, at, destination) matches Run::Done(current, _) && document.identity.same_account(
            current@.identity,
        ) && !document.same_credentials(current@),
{
}

/// Being the same account is an equivalence: reflexive, symmetric and transitive.
pub proof fn law_same_account(a: IdentityView, b: IdentityView, c: IdentityView)
    ensures
        a.same_account(a),
        a.same_account(b) == b.same_account(a),
        a.same_account(b) && b.same_account(c) ==> a.same_account(c),
{
}

/// Accounts that differ in user or workspace stay distinct, whatever their email address.
pub proof fn law_email_is_not_identity(a: IdentityView, b: IdentityView, email: Option<Seq<char>>)
    requires
        a.user_id != b.user_id || a.account_id != b.account_id,
    ensures
        !(IdentityView { email, ..a }).same_account(IdentityView { email, ..b }),
{
}

/// Of two files exactly one of three things holds: this one is newer, the other one is, or they
/// are of the same age.
pub proof fn law_age_is_total(a: AuthView, b: AuthView)
    ensures
        (a.newer(b) && !b.newer(a) && a.refresh_ns != b.refresh_ns) || (!a.newer(b) && b.newer(a)
            && a.refresh_ns != b.refresh_ns) || (!a.newer(b) && !b.newer(a) && a.refresh_ns
            == b.refresh_ns),
{
}

}
