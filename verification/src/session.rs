//! The link through which Codex reads the active credentials, and credentials found in its place.
use crate::account_store::{
    copy, copy_run, is_file, is_file_run, is_there, reconcile_credentials, reconcile_run, remove,
    remove_run, slot_for_run, sync, sync_run, there_run, writers, writers_run, Store,
};
use crate::auth::{AuthDocument, AuthView};
use crate::config::Config;
use crate::effects::{
    auth, auth_run, done, done_run, entry, entry_run, flag, flag_run, told, EntryKind, Halt, Reply,
    Request, RequestView, Run,
};
use crate::error::{Error, ErrorView};
use vstd::prelude::*;

verus! {

pub open spec fn not_enrolled(label: Seq<char>) -> ErrorView {
    ErrorView::Message(
        "Detached credentials for "@ + label
            + " are not enrolled; run cxa add before relinking."@,
    )
}

pub open spec fn not_relinking() -> ErrorView {
    ErrorView::Message(
        "Detached and stored credentials have the same refresh time but different contents; not relinking."@,
    )
}

/// The account of detached credentials, with its saved ones; a failure where there is none.
pub open spec fn enrolled_run(detached: AuthView, log: Seq<Reply>, at: nat) -> Run<u32> {
    slot_for_run(detached.identity, log, at).bind(
        |known: Option<u32>, n: nat|
            match known {
                Some(slot) => Run::Done(slot, n),
                None => Run::Fail(not_enrolled(detached.identity.label()), n),
            },
    )
}

/// Checks that credentials found in place of the link can be saved: no writer is running, the
/// account is enrolled, and there is no conflict of two different files of the same age.
pub open spec fn validate_detached_run(c: Config, path: Seq<char>, log: Seq<Reply>, at: nat) -> Run<
    (),
> {
    writers_run(log, at).bind(
        |running: bool, n: nat|
            if running {
                Run::Fail(ErrorView::RecoveryDeferred, n)
            } else {
                auth_run(log, n, path).bind(
                    |detached: AuthDocument, m: nat|
                        enrolled_run(detached@, log, m).bind(
                            |slot: u32, k: nat|
                                auth_run(log, k, c.profile_auth_path(slot)).bind(
                                    |stored: AuthDocument, j: nat|
                                        if detached@.refresh_ns == stored@.refresh_ns
                                            && !detached@.same_credentials(stored@) {
                                            Run::Fail(not_relinking(), j)
                                        } else {
                                            Run::Done((), j)
                                        },
                                ),
                        ),
                )
            },
    )
}

/// Checks that relinking the session would lose no credentials.
pub open spec fn validate_link_run(c: Config, log: Seq<Reply>, at: nat) -> Run<()> {
    there_run(log, at, c.session_hold_path()).bind(
        |held: bool, n: nat|
            if held {
                validate_detached_run(c, c.session_hold_path(), log, n)
            } else {
                Run::Done((), n)
            },
    ).next(
        |n: nat|
            flag_run(log, n, RequestView::SessionLinked).bind(
                |linked: bool, m: nat|
                    if linked {
                        Run::Done((), m)
                    } else {
                        entry_run(log, m, c.session_auth@).bind(
                            |kind: EntryKind, k: nat|
                                if kind == EntryKind::Missing {
                                    Run::Done((), k)
                                } else {
                                    validate_detached_run(c, c.session_auth@, log, k)
                                },
                        )
                    },
            ),
    )
}

/// Saves held session credentials to their account, and makes them the active ones where they
/// are newer and their account is the selected one.
pub open spec fn preserve_session_run(
    c: Config,
    selected: Option<u32>,
    log: Seq<Reply>,
    at: nat,
) -> Run<()> {
    there_run(log, at, c.session_hold_path()).bind(
        |held: bool, n: nat|
            if !held {
                Run::Done((), n)
            } else {
                writers_run(log, n).bind(
                    |running: bool, m: nat|
                        if running {
                            Run::Fail(ErrorView::RecoveryDeferred, m)
                        } else {
                            auth_run(log, m, c.session_hold_path()).bind(
                                |detached: AuthDocument, k: nat|
                                    enrolled_run(detached@, log, k).bind(
                                        |slot: u32, j: nat|
                                            save_session_run(
                                                c,
                                                detached@,
                                                slot,
                                                selected == Some(slot),
                                                log,
                                                j,
                                            ),
                                    ),
                            )
                        },
                )
            },
    )
}

pub open spec fn save_session_run(
    c: Config,
    detached: AuthView,
    slot: u32,
    is_selected: bool,
    log: Seq<Reply>,
    at: nat,
) -> Run<()> {
    auth_run(log, at, c.profile_auth_path(slot)).bind(
        |stored: AuthDocument, n: nat|
            reconcile_run(
                log,
                n,
                c.session_hold_path(),
                detached,
                c.profile_auth_path(slot),
                stored@,
            ).rescue(
                |error: ErrorView, m: nat|
                    Run::Fail(
                        if error is Message {
                            not_relinking()
                        } else {
                            error
                        },
                        m,
                    ),
            ).next(
                |m: nat|
                    if detached.newer(stored@) && is_selected {
                        promote_session_run(c, detached, log, m)
                    } else {
                        Run::Done((), m)
                    },
            ),
    )
}

pub open spec fn promote_session_run(c: Config, detached: AuthView, log: Seq<Reply>, at: nat) -> Run<
    (),
> {
    is_file_run(log, at, c.active_auth@).bind(
        |there: bool, n: nat|
            if there {
                auth_run(log, n, c.active_auth@).bind(
                    |active: AuthDocument, m: nat|
                        reconcile_run(
                            log,
                            m,
                            c.session_hold_path(),
                            detached,
                            c.active_auth@,
                            active@,
                        ),
                )
            } else {
                copy_run(log, n, c.session_hold_path(), c.active_auth@)
            },
    )
}

/// Lets go of held session credentials.
pub open spec fn discard_session_run(c: Config, log: Seq<Reply>, at: nat) -> Run<()> {
    remove_run(log, at, c.session_hold_path()).next(
        |n: nat| sync_run(log, n, c.session_hold_path()),
    )
}

/// Puts held session credentials back, unless something else took their place.
pub open spec fn restore_session_run(c: Config, log: Seq<Reply>, at: nat) -> Run<()> {
    entry_run(log, at, c.session_hold_path()).bind(
        |kind: EntryKind, n: nat|
            if kind == EntryKind::Missing {
                Run::Done((), n)
            } else {
                flag_run(
                    log,
                    n,
                    RequestView::LinkIfAbsent { from: c.session_hold_path(), to: c.session_auth@ },
                ).bind(
                    |linked: bool, m: nat|
                        if linked {
                            discard_session_run(c, log, m)
                        } else {
                            Run::Fail(ErrorView::RecoveryDeferred, m)
                        },
                )
            },
    )
}

/// Moves whatever is in place of the link out of the way.
pub open spec fn hold_session_run(c: Config, log: Seq<Reply>, at: nat) -> Run<()> {
    entry_run(log, at, c.session_auth@).bind(
        |kind: EntryKind, n: nat|
            if kind == EntryKind::Missing {
                Run::Done((), n)
            } else {
                done_run(
                    log,
                    n,
                    RequestView::Rename { from: c.session_auth@, to: c.session_hold_path() },
                ).next(|m: nat| sync_run(log, m, c.session_auth@))
            },
    )
}

/// Puts the link in place, unless something else took the place meanwhile.
pub open spec fn install_link_run(c: Config, log: Seq<Reply>, at: nat) -> Run<()> {
    let temporary = c.session_link_pending_path();
    remove_run(log, at, temporary).next(
        |n: nat|
            done_run(log, n, RequestView::Symlink { target: c.active_auth@, link: temporary }).next(
                |m: nat|
                    flag_run(
                        log,
                        m,
                        RequestView::LinkIfAbsent { from: temporary, to: c.session_auth@ },
                    ).attempt().bind(
                        |installed: Result<bool, ErrorView>, k: nat|
                            remove_run(log, k, temporary).next(
                                |j: nat|
                                    match installed {
                                        Ok(true) => settle_link_run(c, log, j),
                                        Ok(false) => Run::Fail(ErrorView::RecoveryDeferred, j),
                                        Err(error) => Run::Fail(error, j),
                                    },
                            ),
                    ),
            ),
    )
}

pub open spec fn settle_link_run(c: Config, log: Seq<Reply>, at: nat) -> Run<()> {
    writers_run(log, at).bind(
        |running: bool, n: nat|
            if running {
                Run::Fail(ErrorView::RecoveryDeferred, n)
            } else {
                discard_session_run(c, log, n)
            },
    )
}

/// Makes the session's credentials a link to the active ones, saving whatever was there before.
pub open spec fn ensure_link_run(c: Config, selected: Option<u32>, log: Seq<Reply>, at: nat) -> Run<
    (),
> {
    done_run(log, at, RequestView::PrivateDir(c.codex_home@)).next(
        |n: nat|
            preserve_session_run(c, selected, log, n).next(
                |m: nat|
                    flag_run(log, m, RequestView::SessionLinked).bind(
                        |linked: bool, k: nat|
                            if linked {
                                discard_session_run(c, log, k)
                            } else {
                                hold_session_run(c, log, k).next(
                                    |j: nat|
                                        preserve_session_run(c, selected, log, j).rescue(
                                            |error: ErrorView, i: nat|
                                                if error is RecoveryDeferred {
                                                    Run::Fail(error, i)
                                                } else {
                                                    restore_session_run(c, log, i).next(
                                                        |h: nat| Run::Fail(error, h),
                                                    )
                                                },
                                        ).next(|i: nat| install_link_run(c, log, i)),
                                )
                            },
                    ),
            ),
    )
}

impl Store {
    fn enrolled(&self, detached: &AuthDocument, log: &Vec<Reply>, at: &mut usize) -> (r: Result<
        u32,
        Halt,
    >)
        requires
            *old(at) <= log.len(),
        ensures
            *final(at) <= log.len(),
            told(r, *final(at), enrolled_run(detached@, log@, *old(at) as nat)),
    {
        match self.slot_for(&detached.identity, log, at)? {
            Some(slot) => Ok(slot),
            None => Err(
                Halt::Fail(
                    Error::Message(
                        "Detached credentials for ".to_owned().concat(
                            detached.identity.label(),
                        ).concat(" are not enrolled; run cxa add before relinking."),
                    ),
                ),
            ),
        }
    }

    fn not_relinking(&self) -> (r: Error)
        ensures
            r@ == not_relinking(),
    {
        Error::message(
            "Detached and stored credentials have the same refresh time but different contents; not relinking.",
        )
    }

    fn validate_detached_credentials(&self, path: &str, log: &Vec<Reply>, at: &mut usize) -> (r:
        Result<(), Halt>)
        requires
            *old(at) <= log.len(),
        ensures
            *final(at) <= log.len(),
            told(r, *final(at), validate_detached_run(self.config, path@, log@, *old(at) as nat)),
    {
        if writers(log, at)? {
            return Err(Halt::Fail(Error::RecoveryDeferred));
        }
        let detached = auth(log, at, path)?;
        let slot: u32 = self.enrolled(detached, log, at)?;
        let stored = auth(log, at, &self.config.profile_auth(slot))?;
        if detached.as_old_as(stored) && !detached.same_credentials(stored) {
            return Err(Halt::Fail(self.not_relinking()));
        }
        Ok(())
    }

    /// Checks that relinking the session would lose no credentials.
    pub fn validate_session_link(&self, log: &Vec<Reply>, at: &mut usize) -> (r: Result<(), Halt>)
        requires
            *old(at) <= log.len(),
        ensures
            *final(at) <= log.len(),
            told(r, *final(at), validate_link_run(self.config, log@, *old(at) as nat)),
    {
        let hold = self.config.session_hold();
        if is_there(log, at, &hold)? {
            self.validate_detached_credentials(&hold, log, at)?;
        }
        if flag(log, at, Request::SessionLinked)? {
            return Ok(());
        }
        if entry(log, at, &self.config.session_auth)? == EntryKind::Missing {
            return Ok(());
        }
        self.validate_detached_credentials(&self.config.session_auth, log, at)
    }

    fn promote_session(&self, detached: &AuthDocument, log: &Vec<Reply>, at: &mut usize) -> (r:
        Result<(), Halt>)
        requires
            *old(at) <= log.len(),
        ensures
            *final(at) <= log.len(),
            told(r, *final(at), promote_session_run(self.config, detached@, log@, *old(at) as nat)),
    {
        let hold = self.config.session_hold();
        if is_file(log, at, &self.config.active_auth)? {
            let active = auth(log, at, &self.config.active_auth)?;
            reconcile_credentials(log, at, &hold, detached, &self.config.active_auth, active)
        } else {
            copy(log, at, &hold, &self.config.active_auth)
        }
    }

    fn save_session(
        &self,
        detached: &AuthDocument,
        slot: u32,
        is_selected: bool,
        log: &Vec<Reply>,
        at: &mut usize,
    ) -> (r: Result<(), Halt>)
        requires
            *old(at) <= log.len(),
        ensures
            *final(at) <= log.len(),
            told(
                r,
                *final(at),
                save_session_run(
                    self.config,
                    detached@,
                    slot,
                    is_selected,
                    log@,
                    *old(at) as nat,
                ),
            ),
    {
        let hold = self.config.session_hold();
        let path = self.config.profile_auth(slot);
        let stored = auth(log, at, &path)?;
        match reconcile_credentials(log, at, &hold, detached, &path, stored) {
            Ok(_) => {},
            Err(Halt::Fail(Error::Message(_))) => {
                return Err(Halt::Fail(self.not_relinking()));
            },
            Err(halt) => {
                return Err(halt);
            },
        }
        if detached.newer(stored) && is_selected {
            self.promote_session(detached, log, at)
        } else {
            Ok(())
        }
    }

    fn preserve_session_hold(&self, selected: Option<u32>, log: &Vec<Reply>, at: &mut usize) -> (r:
        Result<(), Halt>)
        requires
            *old(at) <= log.len(),
        ensures
            *final(at) <= log.len(),
            told(r, *final(at), preserve_session_run(self.config, selected, log@, *old(at) as nat)),
    {
        let hold = self.config.session_hold();
        if !is_there(log, at, &hold)? {
            return Ok(());
        }
        if writers(log, at)? {
            return Err(Halt::Fail(Error::RecoveryDeferred));
        }
        let detached = auth(log, at, &hold)?;
        let slot: u32 = self.enrolled(detached, log, at)?;
        self.save_session(detached, slot, selected == Some(slot), log, at)
    }

    fn discard_session_hold(&self, log: &Vec<Reply>, at: &mut usize) -> (r: Result<(), Halt>)
        requires
            *old(at) <= log.len(),
        ensures
            *final(at) <= log.len(),
            told(r, *final(at), discard_session_run(self.config, log@, *old(at) as nat)),
    {
        let hold = self.config.session_hold();
        remove(log, at, &hold)?;
        sync(log, at, &hold)
    }

    /// Puts held session credentials back, unless something else took their place.
    pub fn restore_session_hold(&self, log: &Vec<Reply>, at: &mut usize) -> (r: Result<(), Halt>)
        requires
            *old(at) <= log.len(),
        ensures
            *final(at) <= log.len(),
            told(r, *final(at), restore_session_run(self.config, log@, *old(at) as nat)),
    {
        let hold = self.config.session_hold();
        if entry(log, at, &hold)? == EntryKind::Missing {
            return Ok(());
        }
        let linked = flag(
            log,
            at,
            Request::LinkIfAbsent { from: hold, to: self.config.session_auth.clone() },
        )?;
        if linked {
            self.discard_session_hold(log, at)
        } else {
            Err(Halt::Fail(Error::RecoveryDeferred))
        }
    }

    fn hold_session(&self, log: &Vec<Reply>, at: &mut usize) -> (r: Result<(), Halt>)
        requires
            *old(at) <= log.len(),
        ensures
            *final(at) <= log.len(),
            told(r, *final(at), hold_session_run(self.config, log@, *old(at) as nat)),
    {
        let session = &self.config.session_auth;
        if entry(log, at, session)? == EntryKind::Missing {
            return Ok(());
        }
        done(log, at, Request::Rename { from: session.clone(), to: self.config.session_hold() })?;
        sync(log, at, session)
    }

    fn install_link(&self, log: &Vec<Reply>, at: &mut usize) -> (r: Result<(), Halt>)
        requires
            *old(at) <= log.len(),
        ensures
            *final(at) <= log.len(),
            told(r, *final(at), install_link_run(self.config, log@, *old(at) as nat)),
    {
        let temporary = self.config.session_link_pending();
        remove(log, at, &temporary)?;
        done(
            log,
            at,
            Request::Symlink { target: self.config.active_auth.clone(), link: temporary.clone() },
        )?;
        let installed = flag(
            log,
            at,
            Request::LinkIfAbsent {
                from: temporary.clone(),
                to: self.config.session_auth.clone(),
            },
        );
        if let Err(Halt::Ask(request)) = installed {
            return Err(Halt::Ask(request));
        }
        remove(log, at, &temporary)?;
        if !installed? {
            return Err(Halt::Fail(Error::RecoveryDeferred));
        }
        if writers(log, at)? {
            return Err(Halt::Fail(Error::RecoveryDeferred));
        }
        self.discard_session_hold(log, at)
    }

    /// Makes the session's credentials a link to the active ones.
    pub fn ensure_session_link(&self, selected: Option<u32>, log: &Vec<Reply>, at: &mut usize) -> (r:
        Result<(), Halt>)
        requires
            *old(at) <= log.len(),
        ensures
            *final(at) <= log.len(),
            told(r, *final(at), ensure_link_run(self.config, selected, log@, *old(at) as nat)),
    {
        done(log, at, Request::PrivateDir(self.config.codex_home.clone()))?;
        self.preserve_session_hold(selected, log, at)?;
        if flag(log, at, Request::SessionLinked)? {
            return self.discard_session_hold(log, at);
        }
        self.hold_session(log, at)?;
        match self.preserve_session_hold(selected, log, at) {
            Ok(_) => {},
            Err(Halt::Ask(request)) => {
                return Err(Halt::Ask(request));
            },
            Err(Halt::Fail(Error::RecoveryDeferred)) => {
                return Err(Halt::Fail(Error::RecoveryDeferred));
            },
            Err(Halt::Fail(error)) => {
                self.restore_session_hold(log, at)?;
                return Err(Halt::Fail(error));
            },
        }
        self.install_link(log, at)
    }
}

}
