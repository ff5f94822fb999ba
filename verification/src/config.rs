//! Where everything is kept, and the settings that say so.
use crate::effects::{
    ask, flag, flag_run, mismatch, mismatched, reply_run, told_opt_text, told_text, Halt, Reply,
    Request, RequestView, Run,
};
use crate::error::{Error, ErrorView};
use crate::paths::{
    is_absolute, join, joined, parts, parts_of, rooted, Parts, PathView,
};
use crate::text::{
    ascii_lower, copy_opt, decimal, decimal_text, lemma_decimal_apart, lowered, opt_text,
    parse_up_to, parsed, same, texts,
};
use vstd::prelude::*;

verus! {

/// The paths and settings of one installation.
pub struct Config {
    pub codex_home: String,
    pub codex_binary: Option<String>,
    /// The credentials that running sessions share.
    pub active_auth: String,
    pub account_store: String,
    /// The number of the selected account.
    pub active_profile: String,
    pub switch_lock: String,
    /// Says when a service is about to start.
    pub server_start_marker: String,
    pub app_server_socket: String,
    /// The credentials that Codex itself reads.
    pub session_auth: String,
    pub usage_ttl_seconds: u64,
    pub skip_usage_refresh: bool,
}

impl Clone for Config {
    fn clone(&self) -> (r: Config)
        ensures
            r == *self,
    {
        Config {
            codex_home: self.codex_home.clone(),
            codex_binary: copy_opt(&self.codex_binary),
            active_auth: self.active_auth.clone(),
            account_store: self.account_store.clone(),
            active_profile: self.active_profile.clone(),
            switch_lock: self.switch_lock.clone(),
            server_start_marker: self.server_start_marker.clone(),
            app_server_socket: self.app_server_socket.clone(),
            session_auth: self.session_auth.clone(),
            usage_ttl_seconds: self.usage_ttl_seconds,
            skip_usage_refresh: self.skip_usage_refresh,
        }
    }
}

impl Config {
    pub open spec fn profile_dir_path(&self, slot: u32) -> Seq<char> {
        joined(self.account_store@, "profile-"@ + decimal_text(slot as nat))
    }

    pub open spec fn profile_auth_path(&self, slot: u32) -> Seq<char> {
        joined(self.profile_dir_path(slot), "auth.json"@)
    }

    pub open spec fn profile_usage_path(&self, slot: u32) -> Seq<char> {
        joined(self.profile_dir_path(slot), "usage.json"@)
    }

    pub open spec fn usage_attempt_path(&self, slot: u32) -> Seq<char> {
        joined(self.profile_dir_path(slot), "usage-attempt"@)
    }

    pub open spec fn profile_pending_path(&self, slot: u32) -> Seq<char> {
        joined(self.account_store@, ".profile-"@ + decimal_text(slot as nat) + ".pending"@)
    }

    pub open spec fn profile_backup_path(&self, slot: u32) -> Seq<char> {
        joined(self.account_store@, ".profile-"@ + decimal_text(slot as nat) + ".backup"@)
    }

    pub open spec fn active_hold_path(&self) -> Seq<char> {
        self.active_auth@ + ".cxa-hold"@
    }

    pub open spec fn active_pending_path(&self) -> Seq<char> {
        self.active_auth@ + ".cxa-pending"@
    }

    pub open spec fn active_reappeared_path(&self) -> Seq<char> {
        self.active_auth@ + ".cxa-reappeared"@
    }

    pub open spec fn session_hold_path(&self) -> Seq<char> {
        self.session_auth@ + ".cxa-hold"@
    }

    pub open spec fn session_link_pending_path(&self) -> Seq<char> {
        self.session_auth@ + ".cxa-link"@
    }

    pub open spec fn transaction_path(&self) -> Seq<char> {
        joined(self.account_store@, "transaction.json"@)
    }

    /// The directory of an account.
    pub fn profile_dir(&self, slot: u32) -> (r: String)
        ensures
            r@ == self.profile_dir_path(slot),
    {
        join(&self.account_store, &"profile-".to_owned().concat(&decimal(slot as u64)))
    }

    /// The saved credentials of an account.
    pub fn profile_auth(&self, slot: u32) -> (r: String)
        ensures
            r@ == self.profile_auth_path(slot),
    {
        join(&self.profile_dir(slot), "auth.json")
    }

    /// The last known quota of an account.
    pub fn profile_usage(&self, slot: u32) -> (r: String)
        ensures
            r@ == self.profile_usage_path(slot),
    {
        join(&self.profile_dir(slot), "usage.json")
    }

    /// Says when the quota of an account was last asked for.
    pub fn usage_attempt(&self, slot: u32) -> (r: String)
        ensures
            r@ == self.usage_attempt_path(slot),
    {
        join(&self.profile_dir(slot), "usage-attempt")
    }

    /// Credentials on their way into an account.
    pub fn profile_pending(&self, slot: u32) -> (r: String)
        ensures
            r@ == self.profile_pending_path(slot),
    {
        join(
            &self.account_store,
            &".profile-".to_owned().concat(&decimal(slot as u64)).concat(".pending"),
        )
    }

    /// The credentials that a commit replaces.
    pub fn profile_backup(&self, slot: u32) -> (r: String)
        ensures
            r@ == self.profile_backup_path(slot),
    {
        join(
            &self.account_store,
            &".profile-".to_owned().concat(&decimal(slot as u64)).concat(".backup"),
        )
    }

    /// The active credentials while a transaction keeps them out of reach.
    pub fn active_hold(&self) -> (r: String)
        ensures
            r@ == self.active_hold_path(),
    {
        self.active_auth.clone().concat(".cxa-hold")
    }

    /// Active credentials that were not valid.
    pub fn active_pending(&self) -> (r: String)
        ensures
            r@ == self.active_pending_path(),
    {
        self.active_auth.clone().concat(".cxa-pending")
    }

    /// Active credentials that someone wrote during a transaction.
    pub fn active_reappeared(&self) -> (r: String)
        ensures
            r@ == self.active_reappeared_path(),
    {
        self.active_auth.clone().concat(".cxa-reappeared")
    }

    /// Session credentials that were found in place of the link.
    pub fn session_hold(&self) -> (r: String)
        ensures
            r@ == self.session_hold_path(),
    {
        self.session_auth.clone().concat(".cxa-hold")
    }

    /// The link before it is put in place.
    pub fn session_link_pending(&self) -> (r: String)
        ensures
            r@ == self.session_link_pending_path(),
    {
        self.session_auth.clone().concat(".cxa-link")
    }

    /// The record of an unfinished transaction.
    pub fn transaction_state(&self) -> (r: String)
        ensures
            r@ == self.transaction_path(),
    {
        join(&self.account_store, "transaction.json")
    }

    /// The Codex executable: the configured one, else `codex` from the search path.
    pub fn codex_binary(&self) -> (r: String)
        ensures
            r@ == (match self.codex_binary {
                Some(path) => path@,
                None => "codex"@,
            }),
    {
        match &self.codex_binary {
            Some(path) => path.clone(),
            None => "codex".to_owned(),
        }
    }

    /// Refuses to work beside an access token from the environment.
    pub fn require_no_credential_override(&self, access_token: &Option<String>) -> (r: Result<
        (),
        Error,
    >)
        ensures
            match r {
                Ok(_) => !set(opt_text(*access_token)),
                Err(error) => set(opt_text(*access_token)) && error@ == ErrorView::Message(
                    "cxa requires file-backed ChatGPT OAuth credentials. Unset CODEX_ACCESS_TOKEN, then run cxa again."@,
                ),
            },
    {
        match access_token {
            Some(value) => if value.as_str().is_empty() {
                Ok(())
            } else {
                Err(
                    Error::message(
                        "cxa requires file-backed ChatGPT OAuth credentials. Unset CODEX_ACCESS_TOKEN, then run cxa again.",
                    ),
                )
            },
            None => Ok(()),
        }
    }
}

/// Whether a variable is set to something.
pub open spec fn set(value: Option<Seq<char>>) -> bool {
    match value {
        Some(text) => text.len() > 0,
        None => false,
    }
}

// ---------------------------------------------------------------- overlapping directories

/// What a path is made of, letter case aside where the file system ignores it.
pub open spec fn place(path: Seq<char>, ignore_case: bool) -> PathView {
    parts_of(
        if ignore_case {
            lowered(path)
        } else {
            path
        },
    )
}

/// Whether two directories are the same or one lies inside the other.
pub open spec fn overlap(first: Seq<char>, second: Seq<char>, ignore_case: bool) -> bool {
    let a = place(first, ignore_case);
    let b = place(second, ignore_case);
    a == b || a.inside(b) || b.inside(a)
}

fn place_of(path: &str, ignore_case: bool) -> (r: Parts)
    ensures
        r@ == place(path@, ignore_case),
{
    if ignore_case {
        parts(&ascii_lower(path))
    } else {
        parts(path)
    }
}

/// Whether two directories are the same or one lies inside the other.
pub fn paths_overlap(first: &str, second: &str, ignore_case: bool) -> (r: bool)
    ensures
        r == overlap(first@, second@, ignore_case),
{
    let a = place_of(first, ignore_case);
    let b = place_of(second, ignore_case);
    a.same_as(&b) || a.inside(&b) || b.inside(&a)
}

/// Overlapping is symmetric, and every directory overlaps itself.
pub proof fn law_overlap(first: Seq<char>, second: Seq<char>, ignore_case: bool)
    ensures
        overlap(first, second, ignore_case) == overlap(second, first, ignore_case),
        overlap(first, first, ignore_case),
{
}

// ---------------------------------------------------------------- from the environment

/// The variables that say where everything is kept.
pub struct Environment {
    pub home: Option<String>,
    pub codex_home: Option<String>,
    pub account_store: Option<String>,
    pub codex_binary: Option<String>,
    pub usage_ttl: Option<String>,
    pub skip_usage_refresh: Option<String>,
}

/// A path that a variable names: nothing where it is empty, a failure where it is not absolute.
pub open spec fn path_from(name: Seq<char>, value: Option<String>) -> Result<
    Option<Seq<char>>,
    ErrorView,
> {
    match value {
        Some(path) => if path@.len() == 0 {
            Ok(None)
        } else if !rooted(path@) {
            Err(ErrorView::Message(name + " must be an absolute path."@))
        } else {
            Ok(Some(path@))
        },
        None => Ok(None),
    }
}

/// A path that a variable names: nothing where it is empty, a failure where it is not absolute.
pub fn env_path(name: &str, value: &Option<String>) -> (r: Result<Option<String>, Error>)
    ensures
        match r {
            Ok(path) => path_from(name@, *value) == Ok::<Option<Seq<char>>, ErrorView>(
                opt_text(path),
            ),
            Err(error) => path_from(name@, *value) == Err::<Option<Seq<char>>, ErrorView>(error@),
        },
{
    match value {
        Some(path) => if path.as_str().is_empty() {
            Ok(None)
        } else if !is_absolute(path) {
            Err(Error::Message(name.to_owned().concat(" must be an absolute path.")))
        } else {
            Ok(Some(path.clone()))
        },
        None => Ok(None),
    }
}

/// Where Codex and the accounts are kept.
pub struct Places {
    pub codex_home: Seq<char>,
    pub account_store: Seq<char>,
    pub codex_binary: Option<Seq<char>>,
}

/// A directory that is named, or else one in the home directory.
pub open spec fn named_or(path: Option<Seq<char>>, home: Option<String>, name: Seq<char>) -> Seq<
    char,
> {
    match path {
        Some(path) => path,
        None => joined(home->0@, name),
    }
}

/// Where the environment says that Codex and the accounts are kept.
pub open spec fn places(environment: Environment) -> Result<Places, ErrorView> {
    match path_from("CODEX_HOME"@, environment.codex_home) {
        Err(error) => Err(error),
        Ok(codex_home) => match path_from("CXA_ACCOUNT_STORE"@, environment.account_store) {
            Err(error) => Err(error),
            Ok(account_store) => if (codex_home is None || account_store is None)
                && environment.home is None {
                Err(ErrorView::Message("HOME is not set"@))
            } else {
                match path_from("CXA_CODEX_BIN"@, environment.codex_binary) {
                    Err(error) => Err(error),
                    Ok(codex_binary) => Ok(
                        Places {
                            codex_home: named_or(codex_home, environment.home, ".codex"@),
                            account_store: named_or(
                                account_store,
                                environment.home,
                                ".codex-auth"@,
                            ),
                            codex_binary,
                        },
                    ),
                }
            },
        },
    }
}

fn find_places(environment: &Environment) -> (r: Result<(String, String, Option<String>), Error>)
    ensures
        match r {
            Ok((codex_home, account_store, codex_binary)) => places(*environment) == Ok::<
                Places,
                ErrorView,
            >(
                Places {
                    codex_home: codex_home@,
                    account_store: account_store@,
                    codex_binary: opt_text(codex_binary),
                },
            ),
            Err(error) => places(*environment) == Err::<Places, ErrorView>(error@),
        },
{
    let codex_home = match env_path("CODEX_HOME", &environment.codex_home) {
        Ok(path) => path,
        Err(error) => {
            return Err(error);
        },
    };
    let account_store = match env_path("CXA_ACCOUNT_STORE", &environment.account_store) {
        Ok(path) => path,
        Err(error) => {
            return Err(error);
        },
    };
    if (codex_home.is_none() || account_store.is_none()) && environment.home.is_none() {
        return Err(Error::message("HOME is not set"));
    }
    let codex_binary = match env_path("CXA_CODEX_BIN", &environment.codex_binary) {
        Ok(path) => path,
        Err(error) => {
            return Err(error);
        },
    };
    let home = match &environment.home {
        Some(home) => home.clone(),
        None => String::new(),
    };
    let codex_home = match codex_home {
        Some(path) => path,
        None => join(&home, ".codex"),
    };
    let account_store = match account_store {
        Some(path) => path,
        None => join(&home, ".codex-auth"),
    };
    Ok((codex_home, account_store, codex_binary))
}

/// The real path of something that is there.
pub open spec fn canonical_run(log: Seq<Reply>, at: nat, path: Seq<char>) -> Run<Option<Seq<char>>> {
    reply_run(log, at, RequestView::Canonical(path)).bind(
        |reply: Reply, n: nat|
            match reply {
                Reply::Text(actual) => Run::Done(Some(actual@), n),
                Reply::Missing | Reply::Failed(_) => Run::Done(None, n),
                _ => Run::Fail(mismatch(), n),
            },
    )
}

fn canonical<'a>(path: &str, log: &'a Vec<Reply>, at: &mut usize) -> (r: Result<
    Option<String>,
    Halt,
>)
    requires
        *old(at) <= log.len(),
    ensures
        *final(at) <= log.len(),
        told_opt_text(r, *final(at), canonical_run(log@, *old(at) as nat, path@)),
{
    match ask(log, at, Request::Canonical(path.to_owned()))? {
        Reply::Text(actual) => Ok(Some(actual.clone())),
        Reply::Missing => Ok(None),
        Reply::Failed(_) => Ok(None),
        _ => Err(mismatched()),
    }
}

/// The nearest directory upward that is there, and the names below it that are missing, from the
/// deepest up.
pub open spec fn climb_run(
    log: Seq<Reply>,
    at: nat,
    existing: PathView,
    missing: Seq<Seq<char>>,
) -> Run<(PathView, Seq<Seq<char>>)>
    decreases existing.names.len(),
{
    flag_run(log, at, RequestView::Exists(existing.text())).bind(
        |there: bool, n: nat|
            if there {
                Run::Done((existing, missing), n)
            } else {
                match (existing.file_name(), existing.parent()) {
                    (Some(name), Some(parent)) => climb_run(log, n, parent, missing.push(name)),
                    _ => Run::Done((existing, missing), n),
                }
            },
    )
}

/// A path with names below it, given from the deepest up.
pub open spec fn below(base: Seq<char>, missing: Seq<Seq<char>>) -> Seq<char>
    decreases missing.len(),
{
    if missing.len() == 0 {
        base
    } else {
        below(joined(base, missing.last()), missing.drop_last())
    }
}

/// The real path of a directory that may not be there yet: the part that is there is resolved,
/// and the rest is put below it. Where nothing can be resolved, the path is tidied up as a text.
pub open spec fn resolved_run(log: Seq<Reply>, at: nat, path: Seq<char>) -> Run<Seq<char>> {
    canonical_run(log, at, path).bind(
        |actual: Option<Seq<char>>, n: nat|
            match actual {
                Some(actual) => Run::Done(actual, n),
                None => climb_run(log, n, parts_of(path), Seq::empty()).bind(
                    |found: (PathView, Seq<Seq<char>>), m: nat|
                        canonical_run(log, m, found.0.text()).bind(
                            |base: Option<Seq<char>>, k: nat|
                                Run::Done(
                                    match base {
                                        Some(base) => below(base, found.1),
                                        None => parts_of(path).normal().text(),
                                    },
                                    k,
                                ),
                        ),
                ),
            },
    )
}

/// The real path of a directory that may not be there yet.
pub fn resolved(path: &str, log: &Vec<Reply>, at: &mut usize) -> (r: Result<String, Halt>)
    requires
        *old(at) <= log.len(),
    ensures
        *final(at) <= log.len(),
        told_text(r, *final(at), resolved_run(log@, *old(at) as nat, path@)),
{
    if let Some(actual) = canonical(path, log, at)? {
        return Ok(actual);
    }
    let ghost begin = *at as nat;
    let ghost start = parts_of(path@);
    let mut existing = parts(path);
    let mut missing: Vec<String> = Vec::new();
    proof {
        assert(texts(missing@) =~= Seq::empty());
    }
    loop
        invariant_except_break
            climb_run(log@, begin, start, Seq::empty()) == climb_run(
                log@,
                *at as nat,
                existing@,
                texts(missing@),
            ),
        invariant
            *at <= log.len(),
            resolved_run(log@, *old(at) as nat, path@) == climb_run(
                log@,
                begin,
                start,
                Seq::empty(),
            ).bind(
                |found: (PathView, Seq<Seq<char>>), m: nat|
                    canonical_run(log@, m, found.0.text()).bind(
                        |base: Option<Seq<char>>, k: nat|
                            Run::Done(
                                match base {
                                    Some(base) => below(base, found.1),
                                    None => parts_of(path@).normal().text(),
                                },
                                k,
                            ),
                    ),
            ),
        ensures
            climb_run(log@, begin, start, Seq::empty()) == Run::Done(
                (existing@, texts(missing@)),
                *at as nat,
            ),
        decreases existing.names.len(),
    {
        if flag(log, at, Request::Exists(existing.text()))? {
            break ;
        }
        match (existing.file_name(), existing.parent()) {
            (Some(name), Some(parent)) => {
                proof {
                    assert(texts(missing@).push(name@) =~= texts(missing@.push(name)));
                    assert(parent@.names.len() < existing@.names.len());
                }
                missing.push(name);
                existing = parent;
            },
            _ => {
                break ;
            },
        }
    }
    match canonical(&existing.text(), log, at)? {
        Some(base) => {
            let mut out = base.clone();
            let mut n: usize = missing.len();
            let ghost all = texts(missing@);
            proof {
                assert(all.take(n as int) =~= all);
            }
            while n > 0
                invariant
                    n <= missing.len(),
                    all == texts(missing@),
                    below(base@, all) == below(out@, all.take(n as int)),
                decreases n,
            {
                proof {
                    assert(all.take(n as int).last() == missing@[n - 1]@);
                    assert(all.take(n as int).drop_last() =~= all.take(n - 1));
                }
                out = join(&out, &missing[n - 1]);
                n -= 1;
            }
            Ok(out)
        },
        None => Ok(parts(path).normal().text()),
    }
}

/// The configuration for these places and settings.
pub open spec fn configured(config: Config, places: Places, environment: Environment) -> bool {
    &&& config.codex_home@ == places.codex_home
    &&& opt_text(config.codex_binary) == places.codex_binary
    &&& config.account_store@ == places.account_store
    &&& config.active_auth@ == joined(places.account_store, "auth.json"@)
    &&& config.active_profile@ == joined(places.account_store, "active-profile"@)
    &&& config.switch_lock@ == joined(places.account_store, "switch.lock"@)
    &&& config.server_start_marker@ == joined(places.account_store, "starting"@)
    &&& config.app_server_socket@ == joined(places.account_store, "app-server.sock"@)
    &&& config.session_auth@ == joined(places.codex_home, "auth.json"@)
    &&& config.usage_ttl_seconds == ttl_from(environment.usage_ttl)
    &&& config.skip_usage_refresh == (opt_text(environment.skip_usage_refresh) == Some("1"@))
}

/// How long a quota reading counts as fresh, in seconds: two minutes where nothing else is said.
pub open spec fn ttl_from(value: Option<String>) -> nat {
    match value {
        Some(text) => match parsed(text@, u64::MAX as nat) {
            Some(seconds) => seconds,
            None => 120,
        },
        None => 120,
    }
}

/// Where two directories must not overlap, whether they do.
pub open spec fn overlap_run(log: Seq<Reply>, at: nat, places: Places, ignore_case: bool) -> Run<bool> {
    resolved_run(log, at, places.codex_home).bind(
        |first: Seq<char>, n: nat|
            resolved_run(log, n, places.account_store).bind(
                |second: Seq<char>, m: nat| Run::Done(overlap(first, second, ignore_case), m),
            ),
    )
}

/// What is said where the two directories overlap.
pub open spec fn overlap_text(places: Places) -> Seq<char> {
    "CODEX_HOME and CXA_ACCOUNT_STORE must be separate directories: "@ + places.codex_home
        + " and "@ + places.account_store
}

/// What the environment comes to.
pub open spec fn from_env_run(
    log: Seq<Reply>,
    at: nat,
    environment: Environment,
    ignore_case: bool,
) -> Run<Places> {
    match places(environment) {
        Err(error) => Run::Fail(error, at),
        Ok(places) => overlap_run(log, at, places, ignore_case).bind(
            |overlaps: bool, n: nat|
                if overlaps {
                    Run::Fail(ErrorView::Message(overlap_text(places)), n)
                } else {
                    Run::Done(places, n)
                },
        ),
    }
}

impl Config {
    /// The configuration that the environment asks for. The directory of Codex and that of the
    /// accounts have to be apart.
    pub fn from_env(
        environment: &Environment,
        ignore_case: bool,
        log: &Vec<Reply>,
        at: &mut usize,
    ) -> (r: Result<Config, Halt>)
        requires
            *old(at) <= log.len(),
        ensures
            *final(at) <= log.len(),
            match (r, from_env_run(log@, *old(at) as nat, *environment, ignore_case)) {
                (Ok(config), Run::Done(places, n)) => n == *final(at) && configured(
                    config,
                    places,
                    *environment,
                ),
                (Err(Halt::Fail(error)), Run::Fail(e, n)) => n == *final(at) && error@ == e,
                (Err(Halt::Ask(request)), Run::Ask(q)) => request@ == q,
                _ => false,
            },
    {
        let (codex_home, account_store, codex_binary) = match find_places(environment) {
            Ok(found) => found,
            Err(error) => {
                return Err(Halt::Fail(error));
            },
        };
        let first = resolved(&codex_home, log, at)?;
        let second = resolved(&account_store, log, at)?;
        if paths_overlap(&first, &second, ignore_case) {
            let text = "CODEX_HOME and CXA_ACCOUNT_STORE must be separate directories: ".to_owned().concat(
                &codex_home,
            ).concat(" and ").concat(&account_store);
            return Err(Halt::Fail(Error::Message(text)));
        }
        let usage_ttl_seconds: u64 = match &environment.usage_ttl {
            Some(text) => match parse_up_to(text, 0xffff_ffff_ffff_ffff) {
                Some(seconds) => seconds,
                None => 120,
            },
            None => 120,
        };
        let skip_usage_refresh = match &environment.skip_usage_refresh {
            Some(text) => same(text, "1"),
            None => false,
        };
        Ok(
            Config {
                active_auth: join(&account_store, "auth.json"),
                active_profile: join(&account_store, "active-profile"),
                switch_lock: join(&account_store, "switch.lock"),
                server_start_marker: join(&account_store, "starting"),
                app_server_socket: join(&account_store, "app-server.sock"),
                session_auth: join(&codex_home, "auth.json"),
                codex_home,
                codex_binary,
                account_store,
                usage_ttl_seconds,
                skip_usage_refresh,
            },
        )
    }
}

proof fn lemma_joined_apart(base: Seq<char>, a: Seq<char>, b: Seq<char>)
    requires
        !rooted(a) && !rooted(b),
        a != b,
    ensures
        joined(base, a) != joined(base, b),
{
    let x = joined(base, a);
    let y = joined(base, b);
    if x == y {
        assert(a =~= x.skip(x.len() - a.len()));
        assert(b =~= y.skip(y.len() - b.len()));
    }
}

/// Different accounts have different files.
pub proof fn law_accounts_are_apart(c: Config, a: u32, b: u32)
    requires
        a != b,
    ensures
        c.profile_dir_path(a) != c.profile_dir_path(b),
        c.profile_auth_path(a) != c.profile_auth_path(b),
        c.profile_usage_path(a) != c.profile_usage_path(b),
        c.usage_attempt_path(a) != c.usage_attempt_path(b),
        c.profile_pending_path(a) != c.profile_pending_path(b),
        c.profile_backup_path(a) != c.profile_backup_path(b),
{
    let x = decimal_text(a as nat);
    let y = decimal_text(b as nat);
    lemma_decimal_apart(a as nat, b as nat);
    lemma_decimal_apart(b as nat, a as nat);
    reveal_strlit("profile-");
    reveal_strlit(".profile-");
    reveal_strlit(".pending");
    reveal_strlit(".backup");
    reveal_strlit("auth.json");
    reveal_strlit("usage.json");
    reveal_strlit("usage-attempt");
    lemma_between_apart("profile-"@, x, y, Seq::empty());
    assert("profile-"@ + x + Seq::empty() =~= "profile-"@ + x);
    assert("profile-"@ + y + Seq::empty() =~= "profile-"@ + y);
    lemma_between_apart(".profile-"@, x, y, ".pending"@);
    lemma_between_apart(".profile-"@, x, y, ".backup"@);
    reveal_strlit("/");
    assert("/"@[0] == '/');
    assert(("profile-"@ + x)[0] == 'p' && ("profile-"@ + y)[0] == 'p');
    assert((".profile-"@ + x + ".pending"@)[0] == '.' && (".profile-"@ + y + ".pending"@)[0] == '.');
    assert((".profile-"@ + x + ".backup"@)[0] == '.' && (".profile-"@ + y + ".backup"@)[0] == '.');
    lemma_joined_apart(c.account_store@, "profile-"@ + x, "profile-"@ + y);
    lemma_joined_apart(
        c.account_store@,
        ".profile-"@ + x + ".pending"@,
        ".profile-"@ + y + ".pending"@,
    );
    lemma_joined_apart(
        c.account_store@,
        ".profile-"@ + x + ".backup"@,
        ".profile-"@ + y + ".backup"@,
    );
    lemma_inside_apart(c.profile_dir_path(a), c.profile_dir_path(b), "auth.json"@);
    lemma_inside_apart(c.profile_dir_path(a), c.profile_dir_path(b), "usage.json"@);
    lemma_inside_apart(c.profile_dir_path(a), c.profile_dir_path(b), "usage-attempt"@);
}

proof fn lemma_between_apart(before: Seq<char>, a: Seq<char>, b: Seq<char>, after: Seq<char>)
    requires
        a != b,
    ensures
        before + a + after != before + b + after,
{
    let x = before + a + after;
    let y = before + b + after;
    if x == y {
        assert(a =~= x.subrange(before.len() as int, x.len() - after.len()));
        assert(b =~= y.subrange(before.len() as int, y.len() - after.len()));
    }
}

proof fn lemma_inside_apart(a: Seq<char>, b: Seq<char>, name: Seq<char>)
    requires
        a.len() > 0 && a.last() != '/',
        b.len() > 0 && b.last() != '/',
        !rooted(name),
        a != b,
    ensures
        joined(a, name) != joined(b, name),
{
    let x = joined(a, name);
    let y = joined(b, name);
    reveal_strlit("/");
    if x == y {
        assert(a =~= x.take(x.len() - name.len() - 1));
        assert(b =~= y.take(y.len() - name.len() - 1));
    }
}

}
