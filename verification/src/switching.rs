//! Enrolling accounts, switching between them, and keeping what a running session has changed.
use crate::account_store::{
    next_slot_run, select_run, selected_run, selection_line, slot_for_run, slot_with, Profile,
    Store,
};
use crate::auth::{write_run, AuthDocument, AuthView};
use crate::config::Config;
use crate::effects::{
    auth, auth_if_valid, auth_if_valid_run, auth_run, done, done_run, told, told_text, Halt, Reply,
    Request, RequestView, Run,
};
use crate::error::{Error, ErrorView};
use crate::text::{decimal, decimal_text};
use vstd::prelude::*;

verus! {

/// `told` for an account: its number and its credentials.
pub open spec fn told_account(
    r: Result<(u32, &AuthDocument), Halt>,
    at: usize,
    run: Run<(u32, AuthDocument)>,
) -> bool {
    match r {
        Ok((slot, document)) => run == Run::Done((slot, *document), at as nat),
        Err(Halt::Fail(error)) => run == Run::<(u32, AuthDocument)>::Fail(error@, at as nat),
        Err(Halt::Ask(request)) => run == Run::<(u32, AuthDocument)>::Ask(request@),
    }
}

// ---------------------------------------------------------------- what a session changed

/// Saves a session's credentials to their account, unless those or newer ones are there.
pub open spec fn follow_session_run(
    c: Config,
    session: AuthView,
    slot: u32,
    log: Seq<Reply>,
    at: nat,
) -> Run<()> {
    auth_run(log, at, c.profile_auth_path(slot)).bind(
        |saved: AuthDocument, n: nat|
            if session.same_credentials(saved@) || saved@.newer(session) {
                Run::Done((), n)
            } else {
                write_run(session, c.profile_auth_path(slot), log, n)
            },
    )
}

/// Selects an account, where another one or none is selected.
pub open spec fn adopt_selection_run(c: Config, slot: u32, log: Seq<Reply>, at: nat) -> Run<()> {
    selected_run(c, log, at).bind(
        |selected: Option<u32>, n: nat|
            if selected == Some(slot) {
                Run::Done((), n)
            } else {
                select_run(c, slot, log, n)
            },
    )
}

/// Follows the session: its credentials are saved to the account that they belong to, and that
/// account is the selected one. Credentials of no enrolled account are left alone.
pub open spec fn sync_session_run(c: Config, log: Seq<Reply>, at: nat) -> Run<()> {
    auth_if_valid_run(log, at, c.session_auth@).bind(
        |session: Option<AuthDocument>, n: nat|
            match session {
                None => Run::Done((), n),
                Some(session) => slot_for_run(session@.identity, log, n).bind(
                    |known: Option<u32>, m: nat|
                        match known {
                            None => Run::Done((), m),
                            Some(slot) => follow_session_run(c, session@, slot, log, m).next(
                                |k: nat| adopt_selection_run(c, slot, log, k),
                            ),
                        },
                ),
            },
    )
}

// ---------------------------------------------------------------- accounts

pub open spec fn enrolled_already_text(label: Seq<char>, slot: u32) -> Seq<char> {
    label + " is already enrolled as account "@ + decimal_text(slot as nat) + "."@
}

/// Enrolls the account of a credential file under a new number. The account that the session uses
/// is the selected one.
pub open spec fn enroll_run(c: Config, source: Seq<char>, log: Seq<Reply>, at: nat) -> Run<
    (u32, AuthDocument),
> {
    auth_run(log, at, source).bind(
        |fresh: AuthDocument, n: nat|
            slot_for_run(fresh@.identity, log, n).bind(
                |known: Option<u32>, m: nat|
                    match known {
                        Some(slot) => Run::Fail(
                            ErrorView::Message(
                                enrolled_already_text(fresh@.identity.label(), slot),
                            ),
                            m,
                        ),
                        None => next_slot_run(c, log, m).bind(
                            |slot: u32, k: nat|
                                install_run(c, fresh@, slot, log, k).next(
                                    |j: nat| Run::Done((slot, fresh), j),
                                ),
                        ),
                    },
            ),
    )
}

/// Saves the credentials of a new account.
pub open spec fn install_run(c: Config, fresh: AuthView, slot: u32, log: Seq<Reply>, at: nat) -> Run<
    (),
> {
    done_run(log, at, RequestView::PrivateDir(c.profile_dir_path(slot))).next(
        |n: nat|
            write_run(fresh, c.profile_auth_path(slot), log, n).next(
                |m: nat|
                    auth_if_valid_run(log, m, c.session_auth@).bind(
                        |session: Option<AuthDocument>, k: nat|
                            if session is Some && session->0@.identity.same_account(
                                fresh.identity,
                            ) {
                                select_run(c, slot, log, k)
                            } else {
                                Run::Done((), k)
                            },
                    ),
            ),
    )
}

/// Gives the session an account's credentials and selects that account.
pub open spec fn switch_to_run(c: Config, slot: u32, log: Seq<Reply>, at: nat) -> Run<
    (u32, AuthDocument),
> {
    auth_run(log, at, c.profile_auth_path(slot)).bind(
        |saved: AuthDocument, n: nat|
            write_run(saved@, c.session_auth@, log, n).next(
                |m: nat|
                    select_run(c, slot, log, m).next(|k: nat| Run::Done((slot, saved), k)),
            ),
    )
}

pub open spec fn other_login_text(slot: u32) -> Seq<char> {
    "The new login belongs to a different account than account "@ + decimal_text(slot as nat)
        + "; nothing was changed."@
}

/// Replaces an account's saved credentials by those of a file of the same account.
pub open spec fn replace_run(c: Config, slot: u32, source: Seq<char>, log: Seq<Reply>, at: nat) -> Run<
    (u32, AuthDocument),
> {
    auth_run(log, at, source).bind(
        |fresh: AuthDocument, n: nat|
            auth_run(log, n, c.profile_auth_path(slot)).bind(
                |saved: AuthDocument, m: nat|
                    if !fresh@.identity.same_account(saved@.identity) {
                        Run::Fail(ErrorView::Message(other_login_text(slot)), m)
                    } else {
                        write_run(fresh@, c.profile_auth_path(slot), log, m).next(
                            |k: nat| Run::Done((slot, fresh), k),
                        )
                    },
            ),
    )
}

/// How the session's credentials relate to an account.
pub open spec fn relation_text(session: Option<AuthDocument>, saved: AuthView) -> Seq<char> {
    match session {
        None => "missing or invalid"@,
        Some(session) => if !session@.identity.same_account(saved.identity) {
            "belongs to another account"@
        } else if session@.same_credentials(saved) {
            "matches the saved account"@
        } else {
            "differs from the saved account"@
        },
    }
}

/// How the session's credentials relate to an account.
pub open spec fn credential_status_run(c: Config, slot: u32, log: Seq<Reply>, at: nat) -> Run<Seq<char>> {
    auth_run(log, at, c.profile_auth_path(slot)).bind(
        |saved: AuthDocument, n: nat|
            auth_if_valid_run(log, n, c.session_auth@).bind(
                |session: Option<AuthDocument>, m: nat|
                    Run::Done(relation_text(session, saved@), m),
            ),
    )
}

impl Store {
    fn follow_session(
        &self,
        session: &AuthDocument,
        slot: u32,
        log: &Vec<Reply>,
        at: &mut usize,
    ) -> (r: Result<(), Halt>)
        requires
            *old(at) <= log.len(),
        ensures
            *final(at) <= log.len(),
            told(
                r,
                *final(at),
                follow_session_run(self.config, session@, slot, log@, *old(at) as nat),
            ),
    {
        let path = self.config.profile_auth(slot);
        let saved = auth(log, at, &path)?;
        if session.same_credentials(saved) || saved.newer(session) {
            Ok(())
        } else {
            session.write_to(&path, log, at)
        }
    }

    /// Follows the session: its credentials are saved to the account that they belong to, and
    /// that account is the selected one.
    pub fn sync_session_profile(&self, log: &Vec<Reply>, at: &mut usize) -> (r: Result<(), Halt>)
        requires
            *old(at) <= log.len(),
        ensures
            *final(at) <= log.len(),
            told(r, *final(at), sync_session_run(self.config, log@, *old(at) as nat)),
    {
        let session = match auth_if_valid(log, at, &self.config.session_auth)? {
            Some(session) => session,
            None => {
                return Ok(());
            },
        };
        let slot: u32 = match self.slot_for(&session.identity, log, at)? {
            Some(slot) => slot,
            None => {
                return Ok(());
            },
        };
        self.follow_session(session, slot, log, at)?;
        if self.selected(log, at)? == Some(slot) {
            Ok(())
        } else {
            self.record_selection(slot, log, at)
        }
    }

    /// Enrolls the account of a credential file under a new number: the number and the
    /// credentials. An account that is already enrolled is refused.
    pub fn enroll<'a>(&self, source: &str, log: &'a Vec<Reply>, at: &mut usize) -> (r: Result<
        (u32, &'a AuthDocument),
        Halt,
    >)
        requires
            *old(at) <= log.len(),
        ensures
            *final(at) <= log.len(),
            told_account(r, *final(at), enroll_run(self.config, source@, log@, *old(at) as nat)),
    {
        let fresh = auth(log, at, source)?;
        if let Some(slot) = self.slot_for(&fresh.identity, log, at)? {
            return Err(
                Halt::Fail(
                    Error::Message(
                        fresh.identity.label().clone().concat(
                            " is already enrolled as account ",
                        ).concat(&decimal(slot as u64)).concat("."),
                    ),
                ),
            );
        }
        let slot: u32 = self.next_slot(log, at)?;
        done(log, at, Request::PrivateDir(self.config.profile_dir(slot)))?;
        fresh.write_to(&self.config.profile_auth(slot), log, at)?;
        if let Some(session) = auth_if_valid(log, at, &self.config.session_auth)? {
            if session.identity.same_account(&fresh.identity) {
                self.record_selection(slot, log, at)?;
            }
        }
        Ok((slot, fresh))
    }

    /// Gives the session an account's credentials and selects that account.
    pub fn select<'a>(&self, slot: u32, log: &'a Vec<Reply>, at: &mut usize) -> (r: Result<
        (u32, &'a AuthDocument),
        Halt,
    >)
        requires
            *old(at) <= log.len(),
        ensures
            *final(at) <= log.len(),
            told_account(r, *final(at), switch_to_run(self.config, slot, log@, *old(at) as nat)),
    {
        let saved = auth(log, at, &self.config.profile_auth(slot))?;
        saved.write_to(&self.config.session_auth, log, at)?;
        self.record_selection(slot, log, at)?;
        Ok((slot, saved))
    }

    /// Replaces an account's saved credentials by those of a file of the same account.
    pub fn replace<'a>(&self, slot: u32, source: &str, log: &'a Vec<Reply>, at: &mut usize) -> (r:
        Result<(u32, &'a AuthDocument), Halt>)
        requires
            *old(at) <= log.len(),
        ensures
            *final(at) <= log.len(),
            told_account(
                r,
                *final(at),
                replace_run(self.config, slot, source@, log@, *old(at) as nat),
            ),
    {
        let fresh = auth(log, at, source)?;
        let path = self.config.profile_auth(slot);
        let saved = auth(log, at, &path)?;
        if !fresh.identity.same_account(&saved.identity) {
            return Err(
                Halt::Fail(
                    Error::Message(
                        "The new login belongs to a different account than account ".to_owned().concat(
                            &decimal(slot as u64),
                        ).concat("; nothing was changed."),
                    ),
                ),
            );
        }
        fresh.write_to(&path, log, at)?;
        Ok((slot, fresh))
    }

    /// How the session's credentials relate to an account.
    pub fn credential_status(&self, slot: u32, log: &Vec<Reply>, at: &mut usize) -> (r: Result<
        String,
        Halt,
    >)
        requires
            *old(at) <= log.len(),
        ensures
            *final(at) <= log.len(),
            told_text(
                r,
                *final(at),
                credential_status_run(self.config, slot, log@, *old(at) as nat),
            ),
    {
        let saved = auth(log, at, &self.config.profile_auth(slot))?;
        let text = match auth_if_valid(log, at, &self.config.session_auth)? {
            None => "missing or invalid",
            Some(session) => if !session.identity.same_account(&saved.identity) {
                "belongs to another account"
            } else if session.same_credentials(saved) {
                "matches the saved account"
            } else {
                "differs from the saved account"
            },
        };
        Ok(text.to_owned())
    }
}

// ---------------------------------------------------------------- laws

/// A switch gives the session, byte for byte, the credentials that were saved for the account,
/// before it selects that account; it asks for no other change.
pub proof fn law_switch_copies_the_saved_account(c: Config, slot: u32, log: Seq<Reply>, at: nat)
    requires
        at <= log.len(),
    ensures
        match switch_to_run(c, slot, log, at) {
            Run::Ask(RequestView::ReadAuth(path)) => path == c.profile_auth_path(slot) && log.len()
                == at,
            Run::Ask(RequestView::Write { path, bytes }) => {
                &&& log.len() > at
                &&& log[at as int] matches Reply::Auth(saved) && (if log.len() == at + 1 {
                    path == c.session_auth@ && bytes == saved@.bytes
                } else {
                    path == c.active_profile@ && bytes == selection_line(slot) && log[at as int + 1]
                        == Reply::Done
                })
            },
            Run::Ask(_) => false,
            Run::Done((chosen, saved), n) => {
                &&& chosen == slot
                &&& n == at + 3
                &&& log[at as int] == Reply::Auth(saved)
            },
            Run::Fail(_, _) => true,
        },
{
}

/// What a session refreshed is never lost by a switch away from it: where the session's
/// credentials belong to an enrolled account and differ from the saved ones, which are not newer,
/// following the session asks for them to be saved, byte for byte.
pub proof fn law_live_credentials_are_saved(
    c: Config,
    session: AuthDocument,
    accounts: Vec<Profile>,
    saved: AuthDocument,
    slot: u32,
    log: Seq<Reply>,
    at: nat,
)
    requires
        log.len() == at + 3,
        log[at as int] == Reply::Auth(session),
        log[at as int + 1] == Reply::Profiles(accounts),
        log[at as int + 2] == Reply::Auth(saved),
        slot_with(accounts@, session@.identity) == Some(slot),
        !session@.same_credentials(saved@),
        !saved@.newer(session@),
    ensures
        sync_session_run(c, log, at) == Run::<()>::Ask(
            RequestView::Write { path: c.profile_auth_path(slot), bytes: session@.bytes },
        ),
{
}

/// An account is enrolled once: one whose identity is known already is refused, and nothing is
/// written.
pub proof fn law_accounts_are_enrolled_once(
    c: Config,
    source: Seq<char>,
    fresh: AuthDocument,
    accounts: Vec<Profile>,
    log: Seq<Reply>,
    at: nat,
)
    requires
        log.len() >= at + 2,
        log[at as int] == Reply::Auth(fresh),
        log[at as int + 1] == Reply::Profiles(accounts),
        slot_with(accounts@, fresh@.identity) is Some,
    ensures
        enroll_run(c, source, log, at) is Fail,
{
}

/// A new login never replaces the saved credentials of another account.
pub proof fn law_replacement_stays_in_account(
    c: Config,
    slot: u32,
    source: Seq<char>,
    log: Seq<Reply>,
    at: nat,
)
    requires
        replace_run(c, slot, source, log, at) matches Run::Ask(RequestView::Write { .. }),
    ensures
        log.len() == at + 2,
        log[at as int] matches Reply::Auth(fresh) && log[at as int + 1] matches Reply::Auth(saved)
            && fresh@.identity.same_account(saved@.identity) && replace_run(
            c,
            slot,
            source,
            log,
            at,
        ) == Run::<(u32, AuthDocument)>::Ask(
            RequestView::Write { path: c.profile_auth_path(slot), bytes: fresh@.bytes },
        ),
{
}

}
