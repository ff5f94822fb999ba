//! The barrier around the active credentials: taking up an interrupted transaction, holding the
//! credentials while nobody writes them, and ending the hold.
use crate::account_store::{
    copy, copy_run, is_file, is_file_run, is_there, next_slot_run, remove, remove_run, select_run,
    selected_run, slot_for_run, there_run, writers, writers_run, Store, TransactionMode,
    TransactionState, TransactionView,
};
use crate::auth::{AuthDocument, AuthView};
use crate::config::Config;
use crate::effects::{
    auth, auth_if_valid, auth_if_valid_run, auth_run, done, done_run, flag, flag_run, state,
    state_run, told, Halt, Reply, Request, RequestView, Run,
};
use crate::error::{Error, ErrorView};
use crate::json::{alike, same_json, JsonView};
use crate::paths::{join, joined, parts, parts_of};
use crate::text::{copy_opt, starts_with};
use crate::transaction::{
    cleanup_run, finish_commit_run, record_run, restore_if_held_run, STAGING_WRITER_LOCK,
};
use vstd::prelude::*;

verus! {

// ---------------------------------------------------------------- recovery

/// Whether credentials come from a staged login.
pub open spec fn staged_enrollment(source: Seq<char>) -> bool {
    match parts_of(source).parent() {
        Some(directory) => match directory.file_name() {
            Some(name) => ".enroll-"@.is_prefix_of(name),
            None => false,
        },
        None => false,
    }
}

/// The commit that saves refreshed credentials to an account.
pub open spec fn refresh_commit(c: Config, t: TransactionView, slot: u32) -> TransactionView {
    TransactionView {
        mode: TransactionMode::Commit,
        slot: Some(slot),
        profile_pending: Some(c.profile_pending_path(slot)),
        ..t
    }
}

/// Saves refreshed credentials to an account.
pub open spec fn save_refreshed_run(
    c: Config,
    t: TransactionView,
    source: Seq<char>,
    slot: u32,
    log: Seq<Reply>,
    at: nat,
) -> Run<bool> {
    copy_run(log, at, source, c.profile_pending_path(slot)).next(
        |n: nat|
            record_run(c, refresh_commit(c, t, slot), log, n).next(
                |m: nat|
                    finish_commit_run(c, refresh_commit(c, t, slot), log, m).next(
                        |k: nat| Run::Done(true, k),
                    ),
            ),
    )
}

/// Leaves the credentials as they were; the answer says whether their source can go.
pub open spec fn leave_run(
    c: Config,
    t: TransactionView,
    cleanup: bool,
    log: Seq<Reply>,
    at: nat,
) -> Run<bool> {
    restore_if_held_run(c, t.hold_active, log, at).next(|n: nat| Run::Done(cleanup, n))
}

/// Saves what an interrupted login or quota reading may have refreshed; the answer says whether
/// the source can go.
pub open spec fn recover_refresh_run(c: Config, t: TransactionView, log: Seq<Reply>, at: nat) -> Run<
    bool,
> {
    match t.recovery_source {
        None => leave_run(c, t, true, log, at),
        Some(source) => auth_if_valid_run(log, at, source).bind(
            |found: Option<AuthDocument>, n: nat|
                match found {
                    None => leave_run(c, t, true, log, n),
                    Some(fresh) => match t.slot {
                        Some(slot) => auth_run(log, n, c.profile_auth_path(slot)).bind(
                            |stored: AuthDocument, m: nat|
                                if !fresh@.identity.same_account(stored@.identity) {
                                    leave_run(c, t, !staged_enrollment(source), log, m)
                                } else if fresh@.same_credentials(stored@) {
                                    leave_run(c, t, true, log, m)
                                } else {
                                    save_refreshed_run(c, t, source, slot, log, m)
                                },
                        ),
                        None => slot_for_run(fresh@.identity, log, n).bind(
                            |known: Option<u32>, m: nat|
                                match known {
                                    Some(_) => leave_run(c, t, false, log, m),
                                    None => next_slot_run(c, log, m).bind(
                                        |slot: u32, k: nat|
                                            save_refreshed_run(c, t, source, slot, log, k),
                                    ),
                                },
                        ),
                    },
                },
        ),
    }
}

/// Whether a staged login may still be writing the credentials that a transaction waits for.
pub open spec fn staging_busy_run(t: TransactionView, log: Seq<Reply>, at: nat) -> Run<bool> {
    match t.recovery_source {
        Some(source) => match parts_of(source).parent() {
            Some(directory) => flag_run(
                log,
                at,
                RequestView::LockHeld(joined(directory.text(), STAGING_WRITER_LOCK@)),
            ),
            None => Run::Done(false, at),
        },
        None => Run::Done(false, at),
    }
}

/// Whether a transaction cannot be taken up now: a staged login, or a writer of credentials that
/// are held, is still running.
pub open spec fn blocked_run(t: TransactionView, log: Seq<Reply>, at: nat) -> Run<bool> {
    staging_busy_run(t, log, at).bind(
        |busy: bool, n: nat|
            if busy {
                Run::Done(true, n)
            } else if t.hold_active {
                writers_run(log, n)
            } else {
                Run::Done(false, n)
            },
    )
}

/// Takes up a recorded transaction.
pub open spec fn resume_run(c: Config, t: TransactionView, log: Seq<Reply>, at: nat) -> Run<()> {
    blocked_run(t, log, at).bind(
        |blocked: bool, n: nat|
            if blocked {
                Run::Fail(ErrorView::RecoveryDeferred, n)
            } else {
                (match t.mode {
                    TransactionMode::Rollback => leave_run(c, t, true, log, n),
                    TransactionMode::Refreshing => recover_refresh_run(c, t, log, n),
                    TransactionMode::Commit => finish_commit_run(c, t, log, n).next(
                        |m: nat| Run::Done(true, m),
                    ),
                }).bind(
                    |cleanup: bool, m: nat|
                        if cleanup {
                            cleanup_run(c, t, log, m)
                        } else {
                            remove_run(log, m, c.transaction_path())
                        },
                )
            },
    )
}

/// Takes up an interrupted transaction, if there is one.
pub open spec fn recover_run(c: Config, log: Seq<Reply>, at: nat) -> Run<()> {
    there_run(log, at, c.transaction_path()).bind(
        |there: bool, n: nat|
            if there {
                state_run(log, n, c.transaction_path()).bind(
                    |t: TransactionState, m: nat| resume_run(c, t@, log, m),
                )
            } else {
                Run::Done((), n)
            },
    )
}

impl Store {
    fn save_refreshed(
        &self,
        t: &TransactionState,
        source: &str,
        slot: u32,
        log: &Vec<Reply>,
        at: &mut usize,
    ) -> (r: Result<bool, Halt>)
        requires
            *old(at) <= log.len(),
        ensures
            *final(at) <= log.len(),
            told(
                r,
                *final(at),
                save_refreshed_run(self.config, t@, source@, slot, log@, *old(at) as nat),
            ),
    {
        let pending = self.config.profile_pending(slot);
        copy(log, at, source, &pending)?;
        let commit = TransactionState {
            mode: TransactionMode::Commit,
            slot: Some(slot),
            activate: t.activate,
            select: t.select,
            link_session: t.link_session,
            hold_active: t.hold_active,
            profile_pending: Some(pending),
            recovery_source: copy_opt(&t.recovery_source),
        };
        self.record(commit.clone(), log, at)?;
        self.finish_commit(&commit, log, at)?;
        Ok(true)
    }

    fn leave(&self, t: &TransactionState, cleanup: bool, log: &Vec<Reply>, at: &mut usize) -> (r:
        Result<bool, Halt>)
        requires
            *old(at) <= log.len(),
        ensures
            *final(at) <= log.len(),
            told(r, *final(at), leave_run(self.config, t@, cleanup, log@, *old(at) as nat)),
    {
        self.restore_active_if_held(t.hold_active, log, at)?;
        Ok(cleanup)
    }

    fn recover_refresh(&self, t: &TransactionState, log: &Vec<Reply>, at: &mut usize) -> (r: Result<
        bool,
        Halt,
    >)
        requires
            *old(at) <= log.len(),
        ensures
            *final(at) <= log.len(),
            told(r, *final(at), recover_refresh_run(self.config, t@, log@, *old(at) as nat)),
    {
        let source = match &t.recovery_source {
            Some(source) => source,
            None => {
                return self.leave(t, true, log, at);
            },
        };
        let fresh = match auth_if_valid(log, at, source)? {
            Some(fresh) => fresh,
            None => {
                return self.leave(t, true, log, at);
            },
        };
        let slot: u32 = match t.slot {
            Some(slot) => {
                let stored = auth(log, at, &self.config.profile_auth(slot))?;
                if !fresh.identity.same_account(&stored.identity) {
                    return self.leave(t, !is_staged_enrollment(source), log, at);
                }
                if fresh.same_credentials(stored) {
                    return self.leave(t, true, log, at);
                }
                slot
            },
            None => {
                if self.slot_for(&fresh.identity, log, at)?.is_some() {
                    return self.leave(t, false, log, at);
                }
                self.next_slot(log, at)?
            },
        };
        self.save_refreshed(t, source, slot, log, at)
    }

    fn blocked(&self, t: &TransactionState, log: &Vec<Reply>, at: &mut usize) -> (r: Result<
        bool,
        Halt,
    >)
        requires
            *old(at) <= log.len(),
        ensures
            *final(at) <= log.len(),
            told(r, *final(at), blocked_run(t@, log@, *old(at) as nat)),
    {
        if let Some(source) = &t.recovery_source {
            if let Some(directory) = parts(source).parent() {
                let lock = join(&directory.text(), STAGING_WRITER_LOCK);
                if flag(log, at, Request::LockHeld(lock))? {
                    return Ok(true);
                }
            }
        }
        if t.hold_active {
            writers(log, at)
        } else {
            Ok(false)
        }
    }

    /// Takes up an interrupted transaction, if there is one.
    pub fn recover(&self, log: &Vec<Reply>, at: &mut usize) -> (r: Result<(), Halt>)
        requires
            *old(at) <= log.len(),
        ensures
            *final(at) <= log.len(),
            told(r, *final(at), recover_run(self.config, log@, *old(at) as nat)),
    {
        let path = self.config.transaction_state();
        if !is_there(log, at, &path)? {
            return Ok(());
        }
        let t = state(log, at, &path)?;
        if self.blocked(t, log, at)? {
            return Err(Halt::Fail(Error::RecoveryDeferred));
        }
        let cleanup = match t.mode {
            TransactionMode::Rollback => self.leave(t, true, log, at)?,
            TransactionMode::Refreshing => self.recover_refresh(t, log, at)?,
            TransactionMode::Commit => {
                self.finish_commit(t, log, at)?;
                true
            },
        };
        if cleanup {
            self.cleanup_transaction(t, log, at)
        } else {
            remove(log, at, &path)
        }
    }
}

fn is_staged_enrollment(source: &str) -> (r: bool)
    ensures
        r == staged_enrollment(source@),
{
    match parts(source).parent() {
        Some(directory) => match directory.file_name() {
            Some(name) => starts_with(&name, ".enroll-"),
            None => false,
        },
        None => false,
    }
}

// ---------------------------------------------------------------- the barrier

/// A hold on the active credentials, or the right to change one account's saved ones.
pub struct AuthBarrier {
    pub config: Config,
    /// The change went through, or was taken back.
    pub finished: bool,
    /// The record on disk says how to go on; dropping the barrier changes nothing.
    pub irreversible: bool,
    /// The active credentials are held.
    pub hold_active: bool,
}

pub open spec fn unknown_active(label: Seq<char>) -> ErrorView {
    ErrorView::Message(
        "Active credentials ("@ + label + ") match no enrolled account; not saving them."@,
    )
}

pub open spec fn active_conflict() -> ErrorView {
    ErrorView::Message(
        "Active and stored credentials have the same refresh time but different contents; not choosing one."@,
    )
}

/// Brings active credentials and their account's saved copy to the same state, the newer one
/// winning, and selects that account.
pub open spec fn reconcile_active_run(c: Config, path: Seq<char>, log: Seq<Reply>, at: nat) -> Run<()> {
    is_file_run(log, at, path).bind(
        |there: bool, n: nat|
            if !there {
                Run::Done((), n)
            } else {
                auth_run(log, n, path).bind(
                    |active: AuthDocument, m: nat|
                        slot_for_run(active@.identity, log, m).bind(
                            |known: Option<u32>, k: nat|
                                match known {
                                    Some(slot) => level_run(c, path, active@, slot, log, k).next(
                                        |j: nat| reselect_run(c, slot, log, j),
                                    ),
                                    None => Run::Fail(
                                        unknown_active(active@.identity.label()),
                                        k,
                                    ),
                                },
                        ),
                )
            },
    )
}

pub open spec fn level_run(
    c: Config,
    path: Seq<char>,
    active: AuthView,
    slot: u32,
    log: Seq<Reply>,
    at: nat,
) -> Run<()> {
    let target = c.profile_auth_path(slot);
    auth_run(log, at, target).bind(
        |stored: AuthDocument, n: nat|
            if active.newer(stored@) {
                copy_run(log, n, path, target)
            } else if stored@.newer(active) {
                copy_run(log, n, target, path)
            } else if !active.same_credentials(stored@) {
                Run::Fail(active_conflict(), n)
            } else {
                Run::Done((), n)
            },
    )
}

pub open spec fn reselect_run(c: Config, slot: u32, log: Seq<Reply>, at: nat) -> Run<()> {
    selected_run(c, log, at).bind(
        |selected: Option<u32>, n: nat|
            if selected == Some(slot) {
                Run::Done((), n)
            } else {
                select_run(c, slot, log, n)
            },
    )
}

/// Whether the active credentials are invalid and the selected account's can take their place.
pub open spec fn replace_invalid_run(
    c: Config,
    selected: Option<u32>,
    log: Seq<Reply>,
    at: nat,
) -> Run<bool> {
    is_file_run(log, at, c.active_auth@).bind(
        |there: bool, n: nat|
            if !there {
                Run::Done(false, n)
            } else {
                auth_run(log, n, c.active_auth@).next(|m: nat| Run::Done(false, m)).rescue(
                    |error: ErrorView, m: nat|
                        if (error is Json || error is InvalidAuth) && selected is Some {
                            Run::Done(true, m)
                        } else {
                            Run::Fail(error, m)
                        },
                )
            },
    )
}

/// The record under which the active credentials are held.
pub open spec fn hold_record() -> TransactionView {
    TransactionView {
        mode: TransactionMode::Rollback,
        slot: None,
        activate: false,
        select: false,
        link_session: false,
        hold_active: true,
        profile_pending: None,
        recovery_source: None,
    }
}

/// Takes the active credentials out of reach, or lets the selected account's saved ones stand in
/// for them.
pub open spec fn take_hold_run(
    c: Config,
    selected: Option<u32>,
    replace: bool,
    log: Seq<Reply>,
    at: nat,
) -> Run<()> {
    if replace {
        done_run(
            log,
            at,
            RequestView::Rename { from: c.active_auth@, to: c.active_pending_path() },
        ).next(|n: nat| stand_in_run(c, selected, log, n))
    } else {
        there_run(log, at, c.active_auth@).bind(
            |there: bool, n: nat|
                if there {
                    done_run(
                        log,
                        n,
                        RequestView::Rename { from: c.active_auth@, to: c.active_hold_path() },
                    )
                } else {
                    stand_in_run(c, selected, log, n)
                },
        )
    }
}

pub open spec fn stand_in_run(c: Config, selected: Option<u32>, log: Seq<Reply>, at: nat) -> Run<()> {
    match selected {
        Some(slot) => copy_run(log, at, c.profile_auth_path(slot), c.active_hold_path()),
        None => Run::Done((), at),
    }
}

/// Takes back a hold that came to nothing.
pub open spec fn abandon_run(c: Config, hold_active: bool, log: Seq<Reply>, at: nat) -> Run<()> {
    abandon_after(c, restore_if_held_run(c, hold_active, log, at), log)
}

/// What is left of an abandoned transaction after an attempt to put the credentials back.
pub open spec fn abandon_after(c: Config, restored: Run<()>, log: Seq<Reply>) -> Run<()> {
    restored.next(|n: nat| Run::Done(true, n)).rescue(
        |_error: ErrorView, n: nat| Run::Done(false, n),
    ).bind(
        |restored: bool, n: nat|
            if restored {
                remove_run(log, n, c.transaction_path()).rescue(
                    |_error: ErrorView, m: nat| Run::Done((), m),
                )
            } else {
                Run::Done((), n)
            },
    )
}

/// Finishes an interrupted transaction before a new one begins.
pub open spec fn recover_first_run(c: Config, log: Seq<Reply>, at: nat) -> Run<()> {
    there_run(log, at, c.transaction_path()).bind(
        |there: bool, n: nat|
            if there {
                recover_run(c, log, n)
            } else {
                Run::Done((), n)
            },
    )
}

pub open spec fn new_barrier(c: Config, hold_active: bool) -> AuthBarrier {
    AuthBarrier { config: c, finished: false, irreversible: false, hold_active }
}

/// Holds the active credentials: records the hold, takes them out of reach, and makes sure that
/// nobody was writing them.
pub open spec fn hold_run(c: Config, log: Seq<Reply>, at: nat) -> Run<()> {
    selected_run(c, log, at).bind(
        |selected: Option<u32>, n: nat|
            replace_invalid_run(c, selected, log, n).bind(
                |replace: bool, m: nat|
                    remove_run(log, m, c.active_hold_path()).next(
                        |k: nat|
                            record_run(c, hold_record(), log, k).next(
                                |j: nat|
                                    take_hold_run(c, selected, replace, log, j).next(
                                        |i: nat|
                                            writers_run(log, i).bind(
                                                |running: bool, h: nat|
                                                    if running {
                                                        Run::Fail(ErrorView::RecoveryDeferred, h)
                                                    } else {
                                                        Run::Done((), h)
                                                    },
                                            ),
                                    ),
                            ),
                    ),
            ),
    )
}

/// Begins a transaction on the active credentials.
pub open spec fn begin_barrier_run(c: Config, log: Seq<Reply>, at: nat) -> Run<AuthBarrier> {
    recover_first_run(c, log, at).next(
        |n: nat|
            writers_run(log, n).bind(
                |running: bool, m: nat|
                    if running {
                        Run::Fail(ErrorView::WriterRunning, m)
                    } else {
                        hold_run(c, log, m).next(
                            |k: nat|
                                reconcile_active_run(c, c.active_hold_path(), log, k).rescue(
                                    |error: ErrorView, j: nat|
                                        abandon_run(c, true, log, j).next(
                                            |i: nat| Run::Fail(error, i),
                                        ),
                                ).next(|j: nat| Run::Done(new_barrier(c, true), j)),
                        )
                    },
            ),
    )
}

/// The record of a login that is under way.
pub open spec fn enrollment_record(source: Seq<char>) -> TransactionView {
    TransactionView {
        mode: TransactionMode::Refreshing,
        slot: None,
        activate: false,
        select: false,
        link_session: false,
        hold_active: false,
        profile_pending: None,
        recovery_source: Some(source),
    }
}

/// Begins the enrollment of an account.
pub open spec fn begin_enrollment_run(c: Config, source: Seq<char>, log: Seq<Reply>, at: nat) -> Run<
    AuthBarrier,
> {
    recover_first_run(c, log, at).next(
        |n: nat|
            record_run(c, enrollment_record(source), log, n).next(
                |m: nat| Run::Done(new_barrier(c, false), m),
            ),
    )
}

/// Begins a change of one account's saved credentials.
pub open spec fn begin_profile_commit_run(c: Config, log: Seq<Reply>, at: nat) -> Run<AuthBarrier> {
    recover_first_run(c, log, at).next(|n: nat| Run::Done(new_barrier(c, false), n))
}

/// Ends a hold without a change.
pub open spec fn rollback_run(c: Config, hold_active: bool, log: Seq<Reply>, at: nat) -> Run<()> {
    restore_if_held_run(c, hold_active, log, at).next(
        |n: nat| remove_run(log, n, c.transaction_path()),
    )
}

/// Brings the active credentials and their saved copy to the same state, if nobody is writing.
pub open spec fn reconcile_idle_run(c: Config, log: Seq<Reply>, at: nat) -> Run<()> {
    is_file_run(log, at, c.active_auth@).bind(
        |there: bool, n: nat|
            if !there {
                Run::Done((), n)
            } else {
                auth_run(log, n, c.active_auth@).next(
                    |m: nat|
                        begin_barrier_run(c, log, m).bind(
                            |barrier: AuthBarrier, k: nat| Run::Done(Some(barrier), k),
                        ).rescue(
                            |error: ErrorView, k: nat|
                                if error is WriterRunning || error is RecoveryDeferred {
                                    Run::Done(None, k)
                                } else {
                                    Run::Fail(error, k)
                                },
                        ).bind(
                            |begun: Option<AuthBarrier>, k: nat|
                                match begun {
                                    Some(barrier) => rollback_run(c, true, log, k),
                                    None => Run::Done((), k),
                                },
                        ),
                )
            },
    )
}

impl Store {
    fn level(
        &self,
        path: &str,
        active: &AuthDocument,
        slot: u32,
        log: &Vec<Reply>,
        at: &mut usize,
    ) -> (r: Result<(), Halt>)
        requires
            *old(at) <= log.len(),
        ensures
            *final(at) <= log.len(),
            told(
                r,
                *final(at),
                level_run(self.config, path@, active@, slot, log@, *old(at) as nat),
            ),
    {
        let target = self.config.profile_auth(slot);
        let stored = auth(log, at, &target)?;
        if active.newer(stored) {
            copy(log, at, path, &target)
        } else if stored.newer(active) {
            copy(log, at, &target, path)
        } else if !active.same_credentials(stored) {
            Err(
                Halt::Fail(
                    Error::message(
                        "Active and stored credentials have the same refresh time but different contents; not choosing one.",
                    ),
                ),
            )
        } else {
            Ok(())
        }
    }

    fn reconcile_active_and_profile(&self, path: &str, log: &Vec<Reply>, at: &mut usize) -> (r: Result<
        (),
        Halt,
    >)
        requires
            *old(at) <= log.len(),
        ensures
            *final(at) <= log.len(),
            told(r, *final(at), reconcile_active_run(self.config, path@, log@, *old(at) as nat)),
    {
        if !is_file(log, at, path)? {
            return Ok(());
        }
        let active = auth(log, at, path)?;
        let slot: u32 = match self.slot_for(&active.identity, log, at)? {
            Some(slot) => slot,
            None => {
                return Err(
                    Halt::Fail(
                        Error::Message(
                            "Active credentials (".to_owned().concat(
                                active.identity.label(),
                            ).concat(") match no enrolled account; not saving them."),
                        ),
                    ),
                );
            },
        };
        self.level(path, active, slot, log, at)?;
        if self.selected(log, at)? == Some(slot) {
            Ok(())
        } else {
            self.record_selection(slot, log, at)
        }
    }

    fn replace_invalid(&self, selected: Option<u32>, log: &Vec<Reply>, at: &mut usize) -> (r: Result<
        bool,
        Halt,
    >)
        requires
            *old(at) <= log.len(),
        ensures
            *final(at) <= log.len(),
            told(r, *final(at), replace_invalid_run(self.config, selected, log@, *old(at) as nat)),
    {
        if !is_file(log, at, &self.config.active_auth)? {
            return Ok(false);
        }
        match auth(log, at, &self.config.active_auth) {
            Ok(_) => Ok(false),
            Err(Halt::Ask(request)) => Err(Halt::Ask(request)),
            Err(Halt::Fail(error)) => {
                let invalid = match &error {
                    Error::Json { .. } => true,
                    Error::InvalidAuth(_) => true,
                    _ => false,
                };
                if invalid && selected.is_some() {
                    Ok(true)
                } else {
                    Err(Halt::Fail(error))
                }
            },
        }
    }

    fn stand_in_for(&self, selected: Option<u32>, log: &Vec<Reply>, at: &mut usize) -> (r: Result<
        (),
        Halt,
    >)
        requires
            *old(at) <= log.len(),
        ensures
            *final(at) <= log.len(),
            told(r, *final(at), stand_in_run(self.config, selected, log@, *old(at) as nat)),
    {
        match selected {
            Some(slot) => copy(
                log,
                at,
                &self.config.profile_auth(slot),
                &self.config.active_hold(),
            ),
            None => Ok(()),
        }
    }

    fn take_hold(
        &self,
        selected: Option<u32>,
        replace: bool,
        log: &Vec<Reply>,
        at: &mut usize,
    ) -> (r: Result<(), Halt>)
        requires
            *old(at) <= log.len(),
        ensures
            *final(at) <= log.len(),
            told(
                r,
                *final(at),
                take_hold_run(self.config, selected, replace, log@, *old(at) as nat),
            ),
    {
        let active = &self.config.active_auth;
        if replace {
            done(
                log,
                at,
                Request::Rename { from: active.clone(), to: self.config.active_pending() },
            )?;
            return self.stand_in_for(selected, log, at);
        }
        if is_there(log, at, active)? {
            done(log, at, Request::Rename { from: active.clone(), to: self.config.active_hold() })
        } else {
            self.stand_in_for(selected, log, at)
        }
    }

    fn hold(&self, log: &Vec<Reply>, at: &mut usize) -> (r: Result<(), Halt>)
        requires
            *old(at) <= log.len(),
        ensures
            *final(at) <= log.len(),
            told(r, *final(at), hold_run(self.config, log@, *old(at) as nat)),
    {
        let selected = self.selected(log, at)?;
        let replace = self.replace_invalid(selected, log, at)?;
        remove(log, at, &self.config.active_hold())?;
        self.record(
            TransactionState {
                mode: TransactionMode::Rollback,
                slot: None,
                activate: false,
                select: false,
                link_session: false,
                hold_active: true,
                profile_pending: None,
                recovery_source: None,
            },
            log,
            at,
        )?;
        self.take_hold(selected, replace, log, at)?;
        if writers(log, at)? {
            return Err(Halt::Fail(Error::RecoveryDeferred));
        }
        Ok(())
    }

    fn abandon_hold(&self, hold_active: bool, log: &Vec<Reply>, at: &mut usize) -> (r: Result<
        (),
        Halt,
    >)
        requires
            *old(at) <= log.len(),
        ensures
            *final(at) <= log.len(),
            told(r, *final(at), abandon_run(self.config, hold_active, log@, *old(at) as nat)),
    {
        match self.restore_active_if_held(hold_active, log, at) {
            Ok(_) => {},
            Err(Halt::Ask(request)) => {
                return Err(Halt::Ask(request));
            },
            Err(Halt::Fail(_)) => {
                return Ok(());
            },
        }
        match remove(log, at, &self.config.transaction_state()) {
            Err(Halt::Ask(request)) => Err(Halt::Ask(request)),
            _ => Ok(()),
        }
    }

    fn recover_first(&self, log: &Vec<Reply>, at: &mut usize) -> (r: Result<(), Halt>)
        requires
            *old(at) <= log.len(),
        ensures
            *final(at) <= log.len(),
            told(r, *final(at), recover_first_run(self.config, log@, *old(at) as nat)),
    {
        if is_there(log, at, &self.config.transaction_state())? {
            self.recover(log, at)
        } else {
            Ok(())
        }
    }

    /// Begins a transaction on the active credentials.
    pub fn begin_barrier(&self, log: &Vec<Reply>, at: &mut usize) -> (r: Result<AuthBarrier, Halt>)
        requires
            *old(at) <= log.len(),
        ensures
            *final(at) <= log.len(),
            told(r, *final(at), begin_barrier_run(self.config, log@, *old(at) as nat)),
    {
        self.recover_first(log, at)?;
        if writers(log, at)? {
            return Err(Halt::Fail(Error::WriterRunning));
        }
        self.hold(log, at)?;
        match self.reconcile_active_and_profile(&self.config.active_hold(), log, at) {
            Ok(_) => {},
            Err(Halt::Ask(request)) => {
                return Err(Halt::Ask(request));
            },
            Err(Halt::Fail(error)) => {
                self.abandon_hold(true, log, at)?;
                return Err(Halt::Fail(error));
            },
        }
        Ok(
            AuthBarrier {
                config: self.config.clone(),
                finished: false,
                irreversible: false,
                hold_active: true,
            },
        )
    }

    /// Begins the enrollment of an account whose credentials will appear at `source`.
    pub fn begin_enrollment(&self, source: String, log: &Vec<Reply>, at: &mut usize) -> (r: Result<
        AuthBarrier,
        Halt,
    >)
        requires
            *old(at) <= log.len(),
        ensures
            *final(at) <= log.len(),
            told(
                r,
                *final(at),
                begin_enrollment_run(self.config, source@, log@, *old(at) as nat),
            ),
    {
        self.recover_first(log, at)?;
        self.record(
            TransactionState {
                mode: TransactionMode::Refreshing,
                slot: None,
                activate: false,
                select: false,
                link_session: false,
                hold_active: false,
                profile_pending: None,
                recovery_source: Some(source),
            },
            log,
            at,
        )?;
        Ok(
            AuthBarrier {
                config: self.config.clone(),
                finished: false,
                irreversible: false,
                hold_active: false,
            },
        )
    }

    /// Begins a change of one account's saved credentials.
    pub fn begin_profile_commit(&self, log: &Vec<Reply>, at: &mut usize) -> (r: Result<
        AuthBarrier,
        Halt,
    >)
        requires
            *old(at) <= log.len(),
        ensures
            *final(at) <= log.len(),
            told(r, *final(at), begin_profile_commit_run(self.config, log@, *old(at) as nat)),
    {
        self.recover_first(log, at)?;
        Ok(
            AuthBarrier {
                config: self.config.clone(),
                finished: false,
                irreversible: false,
                hold_active: false,
            },
        )
    }

    fn roll_back(&self, hold_active: bool, log: &Vec<Reply>, at: &mut usize) -> (r: Result<(), Halt>)
        requires
            *old(at) <= log.len(),
        ensures
            *final(at) <= log.len(),
            told(r, *final(at), rollback_run(self.config, hold_active, log@, *old(at) as nat)),
    {
        self.restore_active_if_held(hold_active, log, at)?;
        remove(log, at, &self.config.transaction_state())
    }

    /// Brings the active credentials and their saved copy to the same state, if nobody is
    /// writing.
    pub fn reconcile_if_idle(&self, log: &Vec<Reply>, at: &mut usize) -> (r: Result<(), Halt>)
        requires
            *old(at) <= log.len(),
        ensures
            *final(at) <= log.len(),
            told(r, *final(at), reconcile_idle_run(self.config, log@, *old(at) as nat)),
    {
        if !is_file(log, at, &self.config.active_auth)? {
            return Ok(());
        }
        let _ = auth(log, at, &self.config.active_auth)?;
        match self.begin_barrier(log, at) {
            Ok(_) => self.roll_back(true, log, at),
            Err(Halt::Fail(Error::WriterRunning)) => Ok(()),
            Err(Halt::Fail(Error::RecoveryDeferred)) => Ok(()),
            Err(halt) => Err(halt),
        }
    }
}

// ---------------------------------------------------------------- ending a transaction

/// The record of credentials that may be refreshed.
pub open spec fn refreshing_record(
    slot: Option<u32>,
    source: Seq<char>,
    activate: bool,
    select: bool,
    link_session: bool,
    hold_active: bool,
) -> TransactionView {
    TransactionView {
        mode: TransactionMode::Refreshing,
        slot,
        activate,
        select,
        link_session,
        hold_active,
        profile_pending: None,
        recovery_source: Some(source),
    }
}

/// The record of a switch to another account.
pub open spec fn switch_record(slot: u32, link_session: bool, hold_active: bool) -> TransactionView {
    TransactionView {
        mode: TransactionMode::Commit,
        slot: Some(slot),
        activate: true,
        select: true,
        link_session,
        hold_active,
        profile_pending: None,
        recovery_source: None,
    }
}

/// Whether a switch got as far as its record, or must be left to recovery.
pub open spec fn switch_begun(c: Config, t: TransactionView, log: Seq<Reply>, at: nat) -> bool {
    match writers_run(log, at) {
        Run::Done(running, n) => running || record_run(c, t, log, n) is Done,
        _ => false,
    }
}

/// Switches to another account.
pub open spec fn commit_switch_run(c: Config, t: TransactionView, log: Seq<Reply>, at: nat) -> Run<()> {
    writers_run(log, at).bind(
        |running: bool, n: nat|
            if running {
                Run::Fail(ErrorView::RecoveryDeferred, n)
            } else {
                record_run(c, t, log, n).next(
                    |m: nat|
                        finish_commit_run(c, t, log, m).next(|k: nat| cleanup_run(c, t, log, k)),
                )
            },
    )
}

pub open spec fn overlap_text(source: Seq<char>) -> Seq<char> {
    "Import source "@ + source + " overlaps cxa transaction staging; choose another path."@
}

pub open spec fn changed_text(source: Seq<char>) -> Seq<char> {
    "Credentials at "@ + source
        + " changed or became invalid while being staged; nothing was committed."@
}

/// Whether credentials to be imported are themselves a staging file.
pub open spec fn overlaps_run(c: Config, slot: u32, source: Seq<char>, log: Seq<Reply>, at: nat) -> Run<
    bool,
> {
    flag_run(
        log,
        at,
        RequestView::SameEntry { a: source, b: c.profile_pending_path(slot) },
    ).bind(
        |pending: bool, n: nat|
            if pending {
                Run::Done(true, n)
            } else {
                flag_run(
                    log,
                    n,
                    RequestView::SameEntry { a: source, b: c.profile_backup_path(slot) },
                ).bind(
                    |backup: bool, m: nat|
                        if backup {
                            Run::Done(true, m)
                        } else {
                            flag_run(
                                log,
                                m,
                                RequestView::SameFile { a: source, b: c.profile_pending_path(slot) },
                            )
                        },
                )
            },
    )
}

/// The record of a change of one account's saved credentials.
pub open spec fn profile_record(
    c: Config,
    slot: u32,
    source: Seq<char>,
    activate: bool,
    select: bool,
    link_session: bool,
    hold_active: bool,
) -> TransactionView {
    TransactionView {
        mode: TransactionMode::Commit,
        slot: Some(slot),
        activate,
        select,
        link_session,
        hold_active,
        profile_pending: Some(c.profile_pending_path(slot)),
        recovery_source: Some(source),
    }
}

/// Stages credentials for an account, checks that they are still the expected ones, and records
/// the change.
pub open spec fn stage_run(
    c: Config,
    t: TransactionView,
    slot: u32,
    source: Seq<char>,
    expected: JsonView,
    log: Seq<Reply>,
    at: nat,
) -> Run<()> {
    let pending = c.profile_pending_path(slot);
    overlaps_run(c, slot, source, log, at).bind(
        |overlaps: bool, n: nat|
            if overlaps {
                Run::Fail(ErrorView::Message(overlap_text(source)), n)
            } else {
                remove_run(log, n, c.profile_backup_path(slot)).next(
                    |m: nat|
                        copy_run(log, m, source, pending).next(
                            |k: nat|
                                auth_if_valid_run(log, k, pending).bind(
                                    |staged: Option<AuthDocument>, j: nat|
                                        if staged is Some && alike(staged->0@.raw, expected) {
                                            record_run(c, t, log, j)
                                        } else {
                                            remove_run(log, j, pending).next(
                                                |i: nat|
                                                    Run::Fail(
                                                        ErrorView::Message(changed_text(source)),
                                                        i,
                                                    ),
                                            )
                                        },
                                ),
                        ),
                )
            },
    )
}

/// Changes one account's saved credentials.
pub open spec fn commit_profile_run(
    c: Config,
    t: TransactionView,
    slot: u32,
    source: Seq<char>,
    expected: JsonView,
    log: Seq<Reply>,
    at: nat,
) -> Run<()> {
    stage_run(c, t, slot, source, expected, log, at).next(
        |n: nat|
            (if t.hold_active {
                writers_run(log, n)
            } else {
                Run::Done(false, n)
            }).bind(
                |running: bool, m: nat|
                    if running {
                        Run::Fail(ErrorView::RecoveryDeferred, m)
                    } else {
                        finish_commit_run(c, t, log, m).next(|k: nat| cleanup_run(c, t, log, k))
                    },
            ),
    )
}

impl AuthBarrier {
    fn store(&self) -> (r: Store)
        ensures
            r.config == self.config,
    {
        Store::new(self.config.clone())
    }

    /// Records that the credentials at `source` may be refreshed; from then on dropping the
    /// barrier leaves the rest to recovery.
    pub fn mark_refreshing(
        &mut self,
        slot: Option<u32>,
        source: String,
        activate: bool,
        select: bool,
        link_session: bool,
        log: &Vec<Reply>,
        at: &mut usize,
    ) -> (r: Result<(), Halt>)
        requires
            *old(at) <= log.len(),
        ensures
            *final(at) <= log.len(),
            told(
                r,
                *final(at),
                record_run(
                    old(self).config,
                    refreshing_record(
                        slot,
                        source@,
                        activate,
                        select,
                        link_session,
                        old(self).hold_active,
                    ),
                    log@,
                    *old(at) as nat,
                ),
            ),
            *final(self) == (AuthBarrier {
                irreversible: old(self).irreversible || r is Ok,
                ..*old(self)
            }),
    {
        let t = TransactionState {
            mode: TransactionMode::Refreshing,
            slot,
            activate,
            select,
            link_session,
            hold_active: self.hold_active,
            profile_pending: None,
            recovery_source: Some(source),
        };
        self.store().record(t, log, at)?;
        self.irreversible = true;
        Ok(())
    }

    /// Ends the transaction without a change.
    pub fn rollback(&mut self, log: &Vec<Reply>, at: &mut usize) -> (r: Result<(), Halt>)
        requires
            *old(at) <= log.len(),
        ensures
            *final(at) <= log.len(),
            told(
                r,
                *final(at),
                rollback_run(old(self).config, old(self).hold_active, log@, *old(at) as nat),
            ),
            *final(self) == (AuthBarrier {
                irreversible: true,
                finished: old(self).finished || r is Ok,
                ..*old(self)
            }),
    {
        self.irreversible = true;
        self.store().roll_back(self.hold_active, log, at)?;
        self.finished = true;
        Ok(())
    }

    /// Switches to another account.
    pub fn commit_switch(
        &mut self,
        slot: u32,
        link_session: bool,
        log: &Vec<Reply>,
        at: &mut usize,
    ) -> (r: Result<(), Halt>)
        requires
            *old(at) <= log.len(),
        ensures
            *final(at) <= log.len(),
            told(
                r,
                *final(at),
                commit_switch_run(
                    old(self).config,
                    switch_record(slot, link_session, old(self).hold_active),
                    log@,
                    *old(at) as nat,
                ),
            ),
            *final(self) == (AuthBarrier {
                irreversible: old(self).irreversible || switch_begun(
                    old(self).config,
                    switch_record(slot, link_session, old(self).hold_active),
                    log@,
                    *old(at) as nat,
                ),
                finished: old(self).finished || r is Ok,
                ..*old(self)
            }),
    {
        if writers(log, at)? {
            self.irreversible = true;
            return Err(Halt::Fail(Error::RecoveryDeferred));
        }
        let t = TransactionState {
            mode: TransactionMode::Commit,
            slot: Some(slot),
            activate: true,
            select: true,
            link_session,
            hold_active: self.hold_active,
            profile_pending: None,
            recovery_source: None,
        };
        let store = self.store();
        store.record(t.clone(), log, at)?;
        self.irreversible = true;
        store.finish_commit(&t, log, at)?;
        store.cleanup_transaction(&t, log, at)?;
        self.finished = true;
        Ok(())
    }

    fn stage(
        &self,
        t: &TransactionState,
        slot: u32,
        source: &str,
        expected: &AuthDocument,
        log: &Vec<Reply>,
        at: &mut usize,
    ) -> (r: Result<(), Halt>)
        requires
            *old(at) <= log.len(),
        ensures
            *final(at) <= log.len(),
            told(
                r,
                *final(at),
                stage_run(
                    self.config,
                    t@,
                    slot,
                    source@,
                    expected@.raw,
                    log@,
                    *old(at) as nat,
                ),
            ),
    {
        let pending = self.config.profile_pending(slot);
        let backup = self.config.profile_backup(slot);
        let overlaps = if flag(
            log,
            at,
            Request::SameEntry { a: source.to_owned(), b: pending.clone() },
        )? {
            true
        } else if flag(log, at, Request::SameEntry { a: source.to_owned(), b: backup.clone() })? {
            true
        } else {
            flag(log, at, Request::SameFile { a: source.to_owned(), b: pending.clone() })?
        };
        if overlaps {
            return Err(
                Halt::Fail(
                    Error::Message(
                        "Import source ".to_owned().concat(source).concat(
                            " overlaps cxa transaction staging; choose another path.",
                        ),
                    ),
                ),
            );
        }
        remove(log, at, &backup)?;
        copy(log, at, source, &pending)?;
        let matches_expected = match auth_if_valid(log, at, &pending)? {
            Some(staged) => same_json(&staged.raw, &expected.raw),
            None => false,
        };
        if !matches_expected {
            remove(log, at, &pending)?;
            return Err(
                Halt::Fail(
                    Error::Message(
                        "Credentials at ".to_owned().concat(source).concat(
                            " changed or became invalid while being staged; nothing was committed.",
                        ),
                    ),
                ),
            );
        }
        self.store().record(t.clone(), log, at)
    }

    /// Changes one account's saved credentials to those at `source`, which must still be the
    /// expected ones.
    pub fn commit_profile(
        &mut self,
        slot: u32,
        source: &str,
        expected: &AuthDocument,
        activate: bool,
        select: bool,
        link_session: bool,
        log: &Vec<Reply>,
        at: &mut usize,
    ) -> (r: Result<(), Halt>)
        requires
            *old(at) <= log.len(),
        ensures
            *final(at) <= log.len(),
            told(
                r,
                *final(at),
                commit_profile_run(
                    old(self).config,
                    profile_record(
                        old(self).config,
                        slot,
                        source@,
                        activate,
                        select,
                        link_session,
                        old(self).hold_active,
                    ),
                    slot,
                    source@,
                    expected@.raw,
                    log@,
                    *old(at) as nat,
                ),
            ),
            *final(self) == (AuthBarrier {
                irreversible: old(self).irreversible || stage_run(
                    old(self).config,
                    profile_record(
                        old(self).config,
                        slot,
                        source@,
                        activate,
                        select,
                        link_session,
                        old(self).hold_active,
                    ),
                    slot,
                    source@,
                    expected@.raw,
                    log@,
                    *old(at) as nat,
                ) is Done,
                finished: old(self).finished || r is Ok,
                ..*old(self)
            }),
    {
        let t = TransactionState {
            mode: TransactionMode::Commit,
            slot: Some(slot),
            activate,
            select,
            link_session,
            hold_active: self.hold_active,
            profile_pending: Some(self.config.profile_pending(slot)),
            recovery_source: Some(source.to_owned()),
        };
        self.stage(&t, slot, source, expected, log, at)?;
        self.irreversible = true;
        if self.hold_active {
            if writers(log, at)? {
                return Err(Halt::Fail(Error::RecoveryDeferred));
            }
        }
        let store = self.store();
        store.finish_commit(&t, log, at)?;
        store.cleanup_transaction(&t, log, at)?;
        self.finished = true;
        Ok(())
    }

    /// What happens to a barrier that is given up: nothing, once it is finished or the record on
    /// disk says how to go on; else the hold is taken back.
    pub fn abandon(&self, log: &Vec<Reply>, at: &mut usize) -> (r: Result<(), Halt>)
        requires
            *old(at) <= log.len(),
        ensures
            *final(at) <= log.len(),
            told(
                r,
                *final(at),
                if self.finished || self.irreversible {
                    Run::Done((), *old(at) as nat)
                } else {
                    abandon_run(self.config, self.hold_active, log@, *old(at) as nat)
                },
            ),
    {
        if self.finished || self.irreversible {
            return Ok(());
        }
        self.store().abandon_hold(self.hold_active, log, at)
    }
}

}
