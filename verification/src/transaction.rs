//! Credential transactions: holding the active credentials, changing them, and putting them back.
//!
//! Every procedure here is stated as the exact conversation it leads: which request comes after
//! which replies, and how it ends.
use crate::account_store::{
    copy, copy_run, is_file, is_file_run, is_there, next_slot_run, reconcile_credentials,
    reconcile_run, remove, remove_run, restore_copy_if_absent, restore_copy_run, select_run,
    selected_run, slot_for_run, sync, sync_run, there_run, Store, TransactionState, TransactionView,
};
use crate::auth::{AuthDocument, AuthView};
use crate::config::Config;
use crate::effects::{
    auth, auth_if_valid, auth_if_valid_run, auth_run, done, done_run, flag, flag_run, state, told,
    told_text, Halt, Reply, Request, RequestView, Run,
};
use crate::error::{Error, ErrorView};
use crate::paths::{join, joined, parts, parts_of, PathView};
use crate::session::{
    ensure_link_run, restore_session_run, validate_link_run,
};
use crate::text::{opt_text, starts_with};
use vstd::prelude::*;

verus! {

// ---------------------------------------------------------------- credentials that reappeared

/// Moves active credentials that reappeared out of the way; `false` where there are none.
pub open spec fn claim_run(c: Config, log: Seq<Reply>, at: nat) -> Run<bool> {
    flag_run(
        log,
        at,
        RequestView::Claim { from: c.active_auth@, to: c.active_reappeared_path() },
    ).bind(
        |moved: bool, n: nat|
            if moved {
                sync_run(log, n, c.active_reappeared_path()).next(|m: nat| Run::Done(true, m))
            } else {
                Run::Done(false, n)
            },
    )
}

/// Brings staged credentials of the same account up to date with the claimed ones; `false` where
/// there are none of that account.
pub open spec fn merge_staged_run(
    c: Config,
    pending: Option<Seq<char>>,
    active: AuthView,
    log: Seq<Reply>,
    at: nat,
) -> Run<bool> {
    match pending {
        Some(pending) => there_run(log, at, pending).bind(
            |there: bool, n: nat|
                if there {
                    auth_run(log, n, pending).bind(
                        |staged: AuthDocument, m: nat|
                            if active.identity.same_account(staged@.identity) {
                                reconcile_run(
                                    log,
                                    m,
                                    c.active_reappeared_path(),
                                    active,
                                    pending,
                                    staged@,
                                ).next(|k: nat| Run::Done(true, k))
                            } else {
                                Run::Done(false, m)
                            },
                    )
                } else {
                    Run::Done(false, n)
                },
        ),
        None => Run::Done(false, at),
    }
}

/// Saves the claimed credentials to their account, or to a new one.
pub open spec fn save_claimed_run(c: Config, active: AuthView, log: Seq<Reply>, at: nat) -> Run<()> {
    slot_for_run(active.identity, log, at).bind(
        |known: Option<u32>, n: nat|
            next_slot_run(c, log, n).bind(
                |free: u32, m: nat|
                    save_to_run(
                        c,
                        active,
                        match known {
                            Some(slot) => slot,
                            None => free,
                        },
                        log,
                        m,
                    ),
            ),
    )
}

pub open spec fn save_to_run(c: Config, active: AuthView, slot: u32, log: Seq<Reply>, at: nat) -> Run<
    (),
> {
    let target = c.profile_auth_path(slot);
    there_run(log, at, target).bind(
        |there: bool, n: nat|
            if there {
                auth_run(log, n, target).bind(
                    |stored: AuthDocument, m: nat|
                        reconcile_run(
                            log,
                            m,
                            c.active_reappeared_path(),
                            active,
                            target,
                            stored@,
                        ),
                )
            } else {
                done_run(log, n, RequestView::PrivateDir(c.profile_dir_path(slot))).next(
                    |m: nat| copy_run(log, m, c.active_reappeared_path(), target),
                )
            },
    )
}

/// Lets go of the claimed credentials; where new ones are there again by then, the transaction
/// has to wait.
pub open spec fn release_claimed_run(c: Config, log: Seq<Reply>, at: nat) -> Run<()> {
    remove_run(log, at, c.active_reappeared_path()).next(
        |n: nat|
            there_run(log, n, c.active_auth@).bind(
                |back: bool, m: nat|
                    if back {
                        Run::Fail(ErrorView::RecoveryDeferred, m)
                    } else {
                        Run::Done((), m)
                    },
            ),
    )
}

/// Saves the claimed credentials and lets go of them.
pub open spec fn keep_claimed_run(
    c: Config,
    pending: Option<Seq<char>>,
    log: Seq<Reply>,
    at: nat,
) -> Run<()> {
    auth_run(log, at, c.active_reappeared_path()).bind(
        |active: AuthDocument, n: nat|
            merge_staged_run(c, pending, active@, log, n).bind(
                |merged: bool, m: nat|
                    if merged {
                        release_claimed_run(c, log, m)
                    } else {
                        save_claimed_run(c, active@, log, m).next(
                            |k: nat| release_claimed_run(c, log, k),
                        )
                    },
            ),
    )
}

/// Saves active credentials that someone wrote during the transaction, without ever removing
/// ones written later.
pub open spec fn preserve_reappeared_run(
    c: Config,
    pending: Option<Seq<char>>,
    log: Seq<Reply>,
    at: nat,
) -> Run<()> {
    there_run(log, at, c.active_reappeared_path()).bind(
        |there: bool, n: nat|
            if there {
                Run::Done(true, n)
            } else {
                claim_run(c, log, n)
            },
    ).bind(
        |claimed: bool, n: nat|
            if claimed {
                keep_claimed_run(c, pending, log, n)
            } else {
                Run::Done((), n)
            },
    )
}

impl Store {
    fn claim_reappeared(&self, log: &Vec<Reply>, at: &mut usize) -> (r: Result<bool, Halt>)
        requires
            *old(at) <= log.len(),
        ensures
            *final(at) <= log.len(),
            told(r, *final(at), claim_run(self.config, log@, *old(at) as nat)),
    {
        let claimed = self.config.active_reappeared();
        let moved = flag(
            log,
            at,
            Request::Claim { from: self.config.active_auth.clone(), to: claimed.clone() },
        )?;
        if moved {
            sync(log, at, &claimed)?;
        }
        Ok(moved)
    }

    fn merge_staged(
        &self,
        pending: &Option<String>,
        active: &AuthDocument,
        log: &Vec<Reply>,
        at: &mut usize,
    ) -> (r: Result<bool, Halt>)
        requires
            *old(at) <= log.len(),
        ensures
            *final(at) <= log.len(),
            told(
                r,
                *final(at),
                merge_staged_run(
                    self.config,
                    opt_text(*pending),
                    active@,
                    log@,
                    *old(at) as nat,
                ),
            ),
    {
        match pending {
            Some(pending) => {
                if !is_there(log, at, pending)? {
                    return Ok(false);
                }
                let staged = auth(log, at, pending)?;
                if !active.identity.same_account(&staged.identity) {
                    return Ok(false);
                }
                reconcile_credentials(
                    log,
                    at,
                    &self.config.active_reappeared(),
                    active,
                    pending,
                    staged,
                )?;
                Ok(true)
            },
            None => Ok(false),
        }
    }

    fn save_claimed(&self, active: &AuthDocument, log: &Vec<Reply>, at: &mut usize) -> (r: Result<
        (),
        Halt,
    >)
        requires
            *old(at) <= log.len(),
        ensures
            *final(at) <= log.len(),
            told(r, *final(at), save_claimed_run(self.config, active@, log@, *old(at) as nat)),
    {
        let claimed = self.config.active_reappeared();
        let known = self.slot_for(&active.identity, log, at)?;
        let free: u32 = self.next_slot(log, at)?;
        let slot: u32 = match known {
            Some(slot) => slot,
            None => free,
        };
        let target = self.config.profile_auth(slot);
        if is_there(log, at, &target)? {
            let stored = auth(log, at, &target)?;
            reconcile_credentials(log, at, &claimed, active, &target, stored)
        } else {
            done(log, at, Request::PrivateDir(self.config.profile_dir(slot)))?;
            copy(log, at, &claimed, &target)
        }
    }

    fn release_claimed(&self, log: &Vec<Reply>, at: &mut usize) -> (r: Result<(), Halt>)
        requires
            *old(at) <= log.len(),
        ensures
            *final(at) <= log.len(),
            told(r, *final(at), release_claimed_run(self.config, log@, *old(at) as nat)),
    {
        remove(log, at, &self.config.active_reappeared())?;
        if is_there(log, at, &self.config.active_auth)? {
            Err(Halt::Fail(Error::RecoveryDeferred))
        } else {
            Ok(())
        }
    }

    /// Saves active credentials that someone wrote during the transaction.
    pub fn preserve_reappeared_active(
        &self,
        pending: &Option<String>,
        log: &Vec<Reply>,
        at: &mut usize,
    ) -> (r: Result<(), Halt>)
        requires
            *old(at) <= log.len(),
        ensures
            *final(at) <= log.len(),
            told(
                r,
                *final(at),
                preserve_reappeared_run(
                    self.config,
                    opt_text(*pending),
                    log@,
                    *old(at) as nat,
                ),
            ),
    {
        let claimed = self.config.active_reappeared();
        if !is_there(log, at, &claimed)? {
            if !self.claim_reappeared(log, at)? {
                return Ok(());
            }
        }
        let active = auth(log, at, &claimed)?;
        if !self.merge_staged(pending, active, log, at)? {
            self.save_claimed(active, log, at)?;
        }
        self.release_claimed(log, at)
    }
}

// ---------------------------------------------------------------- putting the hold back

/// What stands in for active credentials of which only invalid ones are left: the selected
/// account's saved ones, else those.
pub open spec fn stand_in_run(c: Config, log: Seq<Reply>, at: nat) -> Run<Seq<char>> {
    selected_run(c, log, at).bind(
        |selected: Option<u32>, n: nat|
            match selected {
                Some(slot) => is_file_run(log, n, c.profile_auth_path(slot)).bind(
                    |saved: bool, m: nat|
                        Run::Done(
                            if saved {
                                c.profile_auth_path(slot)
                            } else {
                                c.active_pending_path()
                            },
                            m,
                        ),
                ),
                None => Run::Done(c.active_pending_path(), n),
            },
    )
}

/// Where neither the hold nor the active credentials are there, but invalid ones were set aside.
pub open spec fn replace_lost_run(c: Config, log: Seq<Reply>, at: nat) -> Run<()> {
    there_run(log, at, c.active_hold_path()).bind(
        |held: bool, n: nat|
            if held {
                Run::Done((), n)
            } else {
                there_run(log, n, c.active_pending_path()).bind(
                    |aside: bool, m: nat|
                        if !aside {
                            Run::Done((), m)
                        } else {
                            there_run(log, m, c.active_auth@).bind(
                                |back: bool, k: nat|
                                    if back {
                                        Run::Done((), k)
                                    } else {
                                        stand_in_run(c, log, k).bind(
                                            |source: Seq<char>, j: nat|
                                                restore_copy_run(log, j, source, c.active_auth@),
                                        )
                                    },
                            )
                        },
                )
            },
    )
}

/// Copies the hold back and lets go of it.
pub open spec fn put_back_run(c: Config, log: Seq<Reply>, at: nat) -> Run<bool> {
    restore_copy_run(log, at, c.active_hold_path(), c.active_auth@).next(
        |n: nat|
            remove_run(log, n, c.active_hold_path()).next(
                |m: nat|
                    sync_run(log, m, c.active_hold_path()).next(|k: nat| Run::Done(false, k)),
            ),
    )
}

/// Puts the selected account's saved credentials in place of an older hold.
pub open spec fn put_newer_run(c: Config, slot: u32, log: Seq<Reply>, at: nat) -> Run<bool> {
    restore_copy_run(log, at, c.profile_auth_path(slot), c.active_auth@).next(
        |n: nat|
            remove_run(log, n, c.active_hold_path()).next(
                |m: nat|
                    remove_run(log, m, c.active_pending_path()).next(|k: nat| Run::Done(true, k)),
            ),
    )
}

/// Puts the newer of the hold and the selected account's saved credentials in place; `true`
/// where those were the saved ones and nothing is left to do.
pub open spec fn give_back_run(
    c: Config,
    held: AuthView,
    selected: Option<u32>,
    log: Seq<Reply>,
    at: nat,
) -> Run<bool> {
    match selected {
        Some(slot) => auth_if_valid_run(log, at, c.profile_auth_path(slot)).bind(
            |saved: Option<AuthDocument>, n: nat|
                match saved {
                    Some(profile) => if !profile@.identity.same_account(held.identity) {
                        put_back_run(c, log, n)
                    } else if profile@.newer(held) {
                        put_newer_run(c, slot, log, n)
                    } else {
                        reconcile_run(
                            log,
                            n,
                            c.active_hold_path(),
                            held,
                            c.profile_auth_path(slot),
                            profile@,
                        ).next(|m: nat| put_back_run(c, log, m))
                    },
                    None => put_back_run(c, log, n),
                },
        ),
        None => put_back_run(c, log, at),
    }
}

/// Gives a hold back, if there is one.
pub open spec fn return_hold_run(c: Config, log: Seq<Reply>, at: nat) -> Run<bool> {
    there_run(log, at, c.active_hold_path()).bind(
        |held: bool, n: nat|
            if !held {
                Run::Done(false, n)
            } else {
                preserve_reappeared_run(c, None, log, n).next(
                    |m: nat|
                        auth_run(log, m, c.active_hold_path()).bind(
                            |hold: AuthDocument, k: nat|
                                selected_run(c, log, k).bind(
                                    |selected: Option<u32>, j: nat|
                                        give_back_run(c, hold@, selected, log, j),
                                ),
                        ),
                )
            },
    )
}

/// Lets go of invalid credentials that were set aside, once valid ones are in place.
pub open spec fn settle_pending_run(c: Config, log: Seq<Reply>, at: nat) -> Run<()> {
    there_run(log, at, c.active_pending_path()).bind(
        |aside: bool, n: nat|
            if aside {
                there_run(log, n, c.active_auth@).bind(
                    |back: bool, m: nat|
                        if back {
                            remove_run(log, m, c.active_pending_path())
                        } else {
                            Run::Fail(ErrorView::RecoveryDeferred, m)
                        },
                )
            } else {
                remove_run(log, n, c.active_pending_path())
            },
    )
}

/// Puts the active credentials back.
pub open spec fn restore_hold_run(c: Config, log: Seq<Reply>, at: nat) -> Run<()> {
    replace_lost_run(c, log, at).next(
        |n: nat|
            return_hold_run(c, log, n).bind(
                |finished: bool, m: nat|
                    if finished {
                        Run::Done((), m)
                    } else {
                        settle_pending_run(c, log, m)
                    },
            ),
    )
}

pub open spec fn restore_if_held_run(c: Config, hold_active: bool, log: Seq<Reply>, at: nat) -> Run<
    (),
> {
    if hold_active {
        restore_hold_run(c, log, at)
    } else {
        Run::Done((), at)
    }
}

impl Store {
    fn stand_in(&self, log: &Vec<Reply>, at: &mut usize) -> (r: Result<String, Halt>)
        requires
            *old(at) <= log.len(),
        ensures
            *final(at) <= log.len(),
            told_text(r, *final(at), stand_in_run(self.config, log@, *old(at) as nat)),
    {
        match self.selected(log, at)? {
            Some(slot) => {
                let saved = self.config.profile_auth(slot);
                if is_file(log, at, &saved)? {
                    Ok(saved)
                } else {
                    Ok(self.config.active_pending())
                }
            },
            None => Ok(self.config.active_pending()),
        }
    }

    fn replace_lost(&self, log: &Vec<Reply>, at: &mut usize) -> (r: Result<(), Halt>)
        requires
            *old(at) <= log.len(),
        ensures
            *final(at) <= log.len(),
            told(r, *final(at), replace_lost_run(self.config, log@, *old(at) as nat)),
    {
        if is_there(log, at, &self.config.active_hold())? {
            return Ok(());
        }
        if !is_there(log, at, &self.config.active_pending())? {
            return Ok(());
        }
        if is_there(log, at, &self.config.active_auth)? {
            return Ok(());
        }
        let source = self.stand_in(log, at)?;
        restore_copy_if_absent(log, at, &source, &self.config.active_auth)
    }

    fn put_back(&self, log: &Vec<Reply>, at: &mut usize) -> (r: Result<bool, Halt>)
        requires
            *old(at) <= log.len(),
        ensures
            *final(at) <= log.len(),
            told(r, *final(at), put_back_run(self.config, log@, *old(at) as nat)),
    {
        let hold = self.config.active_hold();
        restore_copy_if_absent(log, at, &hold, &self.config.active_auth)?;
        remove(log, at, &hold)?;
        sync(log, at, &hold)?;
        Ok(false)
    }

    fn give_back(
        &self,
        held: &AuthDocument,
        selected: Option<u32>,
        log: &Vec<Reply>,
        at: &mut usize,
    ) -> (r: Result<bool, Halt>)
        requires
            *old(at) <= log.len(),
        ensures
            *final(at) <= log.len(),
            told(
                r,
                *final(at),
                give_back_run(self.config, held@, selected, log@, *old(at) as nat),
            ),
    {
        let slot: u32 = match selected {
            Some(slot) => slot,
            None => {
                return self.put_back(log, at);
            },
        };
        let path = self.config.profile_auth(slot);
        let profile = match auth_if_valid(log, at, &path)? {
            Some(profile) => profile,
            None => {
                return self.put_back(log, at);
            },
        };
        if !profile.identity.same_account(&held.identity) {
            return self.put_back(log, at);
        }
        let hold = self.config.active_hold();
        if profile.newer(held) {
            restore_copy_if_absent(log, at, &path, &self.config.active_auth)?;
            remove(log, at, &hold)?;
            remove(log, at, &self.config.active_pending())?;
            return Ok(true);
        }
        reconcile_credentials(log, at, &hold, held, &path, profile)?;
        self.put_back(log, at)
    }

    fn return_hold(&self, log: &Vec<Reply>, at: &mut usize) -> (r: Result<bool, Halt>)
        requires
            *old(at) <= log.len(),
        ensures
            *final(at) <= log.len(),
            told(r, *final(at), return_hold_run(self.config, log@, *old(at) as nat)),
    {
        let path = self.config.active_hold();
        if !is_there(log, at, &path)? {
            return Ok(false);
        }
        self.preserve_reappeared_active(&None, log, at)?;
        let hold = auth(log, at, &path)?;
        let selected = self.selected(log, at)?;
        self.give_back(hold, selected, log, at)
    }

    fn settle_pending(&self, log: &Vec<Reply>, at: &mut usize) -> (r: Result<(), Halt>)
        requires
            *old(at) <= log.len(),
        ensures
            *final(at) <= log.len(),
            told(r, *final(at), settle_pending_run(self.config, log@, *old(at) as nat)),
    {
        let pending = self.config.active_pending();
        if is_there(log, at, &pending)? {
            if !is_there(log, at, &self.config.active_auth)? {
                return Err(Halt::Fail(Error::RecoveryDeferred));
            }
        }
        remove(log, at, &pending)
    }

    /// Puts the active credentials back.
    pub fn restore_hold(&self, log: &Vec<Reply>, at: &mut usize) -> (r: Result<(), Halt>)
        requires
            *old(at) <= log.len(),
        ensures
            *final(at) <= log.len(),
            told(r, *final(at), restore_hold_run(self.config, log@, *old(at) as nat)),
    {
        self.replace_lost(log, at)?;
        if self.return_hold(log, at)? {
            return Ok(());
        }
        self.settle_pending(log, at)
    }

    pub(crate) fn restore_active_if_held(&self, hold_active: bool, log: &Vec<Reply>, at: &mut usize) -> (r:
        Result<(), Halt>)
        requires
            *old(at) <= log.len(),
        ensures
            *final(at) <= log.len(),
            told(
                r,
                *final(at),
                restore_if_held_run(self.config, hold_active, log@, *old(at) as nat),
            ),
    {
        if hold_active {
            self.restore_hold(log, at)
        } else {
            Ok(())
        }
    }
}

// ---------------------------------------------------------------- cleaning up

/// Marks a temporary directory as one that may be removed with everything in it.
pub const OWNED_TEMP_MARKER: &'static str = ".cxa-temporary";

/// Held while a staged login may still be writing.
pub const STAGING_WRITER_LOCK: &'static str = "writer.lock";

/// Whether a directory is a temporary one of this program.
pub open spec fn generated_run(directory: PathView, log: Seq<Reply>, at: nat) -> Run<bool> {
    match directory.file_name() {
        Some(name) => if ".quota-"@.is_prefix_of(name) || ".enroll-"@.is_prefix_of(name) {
            is_file_run(log, at, joined(directory.text(), OWNED_TEMP_MARKER@))
        } else {
            Run::Done(false, at)
        },
        None => Run::Done(false, at),
    }
}

/// Removes the temporary directory that credentials came from, and no other.
pub open spec fn cleanup_source_run(c: Config, source: Seq<char>, log: Seq<Reply>, at: nat) -> Run<
    (),
> {
    match parts_of(source).parent() {
        Some(directory) => generated_run(directory, log, at).bind(
            |generated: bool, n: nat|
                if generated && directory.parent() == Some(parts_of(c.account_store@)) {
                    done_run(log, n, RequestView::RemoveTree(directory.text())).next(
                        |m: nat| sync_run(log, m, directory.text()),
                    )
                } else {
                    Run::Done((), n)
                },
        ),
        None => Run::Done((), at),
    }
}

/// Lets go of everything that a finished transaction kept, its record last.
pub open spec fn cleanup_run(c: Config, t: TransactionView, log: Seq<Reply>, at: nat) -> Run<()> {
    cleanup_staged_run(c, t, log, at).next(
        |n: nat|
            cleanup_held_run(c, t, log, n).next(
                |m: nat|
                    (match t.recovery_source {
                        Some(source) => cleanup_source_run(c, source, log, m),
                        None => Run::Done((), m),
                    }).next(
                        |k: nat|
                            remove_run(log, k, c.transaction_path()).next(
                                |j: nat| sync_run(log, j, c.transaction_path()),
                            ),
                    ),
            ),
    )
}

pub open spec fn cleanup_staged_run(c: Config, t: TransactionView, log: Seq<Reply>, at: nat) -> Run<
    (),
> {
    match t.profile_pending {
        Some(pending) => remove_run(log, at, pending).next(
            |n: nat|
                match t.slot {
                    Some(slot) => remove_run(log, n, c.profile_backup_path(slot)),
                    None => Run::Done((), n),
                },
        ),
        None => Run::Done((), at),
    }
}

pub open spec fn cleanup_held_run(c: Config, t: TransactionView, log: Seq<Reply>, at: nat) -> Run<()> {
    if t.hold_active {
        remove_run(log, at, c.active_pending_path()).next(
            |n: nat| remove_run(log, n, c.active_hold_path()),
        )
    } else {
        Run::Done((), at)
    }
}

/// Records a transaction.
pub open spec fn record_run(c: Config, t: TransactionView, log: Seq<Reply>, at: nat) -> Run<()> {
    done_run(log, at, RequestView::WriteState { path: c.transaction_path(), state: t })
}

impl Store {
    fn cleanup_recovery_source(&self, source: &str, log: &Vec<Reply>, at: &mut usize) -> (r: Result<
        (),
        Halt,
    >)
        requires
            *old(at) <= log.len(),
        ensures
            *final(at) <= log.len(),
            told(r, *final(at), cleanup_source_run(self.config, source@, log@, *old(at) as nat)),
    {
        let directory = match parts(source).parent() {
            Some(directory) => directory,
            None => {
                return Ok(());
            },
        };
        let path = directory.text();
        let generated = match directory.file_name() {
            Some(name) => if starts_with(&name, ".quota-") || starts_with(&name, ".enroll-") {
                is_file(log, at, &join(&path, OWNED_TEMP_MARKER))?
            } else {
                false
            },
            None => false,
        };
        let inside = match directory.parent() {
            Some(parent) => parent.same_as(&parts(&self.config.account_store)),
            None => false,
        };
        if !generated || !inside {
            return Ok(());
        }
        done(log, at, Request::RemoveTree(path.clone()))?;
        sync(log, at, &path)
    }

    fn cleanup_staged(&self, t: &TransactionState, log: &Vec<Reply>, at: &mut usize) -> (r: Result<
        (),
        Halt,
    >)
        requires
            *old(at) <= log.len(),
        ensures
            *final(at) <= log.len(),
            told(r, *final(at), cleanup_staged_run(self.config, t@, log@, *old(at) as nat)),
    {
        match &t.profile_pending {
            Some(pending) => {
                remove(log, at, pending)?;
                match t.slot {
                    Some(slot) => remove(log, at, &self.config.profile_backup(slot)),
                    None => Ok(()),
                }
            },
            None => Ok(()),
        }
    }

    fn cleanup_held(&self, t: &TransactionState, log: &Vec<Reply>, at: &mut usize) -> (r: Result<
        (),
        Halt,
    >)
        requires
            *old(at) <= log.len(),
        ensures
            *final(at) <= log.len(),
            told(r, *final(at), cleanup_held_run(self.config, t@, log@, *old(at) as nat)),
    {
        if t.hold_active {
            remove(log, at, &self.config.active_pending())?;
            remove(log, at, &self.config.active_hold())
        } else {
            Ok(())
        }
    }

    /// Lets go of everything that a finished transaction kept.
    pub fn cleanup_transaction(&self, t: &TransactionState, log: &Vec<Reply>, at: &mut usize) -> (r:
        Result<(), Halt>)
        requires
            *old(at) <= log.len(),
        ensures
            *final(at) <= log.len(),
            told(r, *final(at), cleanup_run(self.config, t@, log@, *old(at) as nat)),
    {
        self.cleanup_staged(t, log, at)?;
        self.cleanup_held(t, log, at)?;
        if let Some(source) = &t.recovery_source {
            self.cleanup_recovery_source(source, log, at)?;
        }
        let transaction = self.config.transaction_state();
        remove(log, at, &transaction)?;
        sync(log, at, &transaction)
    }

    pub(crate) fn record(&self, t: TransactionState, log: &Vec<Reply>, at: &mut usize) -> (r: Result<(), Halt>)
        requires
            *old(at) <= log.len(),
        ensures
            *final(at) <= log.len(),
            told(r, *final(at), record_run(self.config, t@, log@, *old(at) as nat)),
    {
        done(log, at, Request::WriteState { path: self.config.transaction_state(), state: t })
    }
}

// ---------------------------------------------------------------- committing

/// Whether an interrupted commit that leaves the active credentials alone has already put them
/// back; their account's saved copy is brought up to date.
pub open spec fn already_restored_run(c: Config, t: TransactionView, log: Seq<Reply>, at: nat) -> Run<
    bool,
> {
    if t.activate || !t.hold_active {
        Run::Done(false, at)
    } else {
        there_run(log, at, c.active_hold_path()).bind(
            |held: bool, n: nat|
                if held {
                    Run::Done(false, n)
                } else {
                    is_file_run(log, n, c.active_auth@).bind(
                        |back: bool, m: nat|
                            if !back {
                                Run::Done(false, m)
                            } else {
                                selected_run(c, log, m).bind(
                                    |selected: Option<u32>, k: nat|
                                        match selected {
                                            Some(slot) => update_selected_run(c, slot, log, k),
                                            None => Run::Done(false, k),
                                        },
                                )
                            },
                    )
                },
        )
    }
}

pub open spec fn update_selected_run(c: Config, slot: u32, log: Seq<Reply>, at: nat) -> Run<bool> {
    auth_run(log, at, c.active_auth@).bind(
        |active: AuthDocument, n: nat|
            auth_run(log, n, c.profile_auth_path(slot)).bind(
                |profile: AuthDocument, m: nat|
                    if active@.identity.same_account(profile@.identity) {
                        reconcile_run(
                            log,
                            m,
                            c.active_auth@,
                            active@,
                            c.profile_auth_path(slot),
                            profile@,
                        ).next(|k: nat| Run::Done(true, k))
                    } else {
                        Run::Done(false, m)
                    },
            ),
    )
}

/// The file whose credentials a commit made active.
pub open spec fn installed_run(c: Config, t: TransactionView, log: Seq<Reply>, at: nat) -> Run<
    Seq<char>,
> {
    (match t.profile_pending {
        Some(pending) => there_run(log, at, pending),
        None => Run::Done(false, at),
    }).bind(
        |staged: bool, n: nat|
            if staged {
                Run::Done(t.profile_pending->0, n)
            } else {
                match t.slot {
                    Some(slot) => Run::Done(c.profile_auth_path(slot), n),
                    None => Run::Fail(ErrorView::RecoveryDeferred, n),
                }
            },
    )
}

/// Takes back the activation of a commit, if nobody changed the active credentials since.
pub open spec fn rollback_active_run(c: Config, t: TransactionView, log: Seq<Reply>, at: nat) -> Run<
    (),
> {
    if !t.activate {
        Run::Done((), at)
    } else {
        there_run(log, at, c.active_auth@).bind(
            |there: bool, n: nat|
                if !there {
                    Run::Done((), n)
                } else {
                    installed_run(c, t, log, n).bind(
                        |installed: Seq<char>, m: nat|
                            auth_run(log, m, c.active_auth@).bind(
                                |active: AuthDocument, k: nat|
                                    auth_run(log, k, installed).bind(
                                        |promoted: AuthDocument, j: nat|
                                            if active@.same_credentials(promoted@) {
                                                remove_run(log, j, c.active_auth@).next(
                                                    |i: nat| sync_run(log, i, c.active_auth@),
                                                )
                                            } else {
                                                Run::Fail(ErrorView::RecoveryDeferred, j)
                                            },
                                    ),
                            ),
                    )
                },
        )
    }
}

/// What became of the saved credentials since a commit replaced them: `true` where they are
/// still the ones it put there (or none are), `false` where the earlier ones are back already.
pub open spec fn promoted_run(c: Config, slot: u32, pending: Seq<char>, log: Seq<Reply>, at: nat) -> Run<
    bool,
> {
    there_run(log, at, c.profile_auth_path(slot)).bind(
        |there: bool, n: nat|
            if !there {
                Run::Done(true, n)
            } else {
                auth_run(log, n, c.profile_auth_path(slot)).bind(
                    |current: AuthDocument, m: nat|
                        auth_run(log, m, pending).bind(
                            |promoted: AuthDocument, k: nat|
                                if current@.same_credentials(promoted@) {
                                    Run::Done(true, k)
                                } else {
                                    back_already_run(c, slot, current@, log, k)
                                },
                        ),
                )
            },
    )
}

pub open spec fn back_already_run(
    c: Config,
    slot: u32,
    current: AuthView,
    log: Seq<Reply>,
    at: nat,
) -> Run<bool> {
    there_run(log, at, c.profile_backup_path(slot)).bind(
        |kept: bool, n: nat|
            if !kept {
                Run::Fail(ErrorView::RecoveryDeferred, n)
            } else {
                auth_run(log, n, c.profile_backup_path(slot)).bind(
                    |backup: AuthDocument, m: nat|
                        if current.same_credentials(backup@) {
                            Run::Done(false, m)
                        } else {
                            Run::Fail(ErrorView::RecoveryDeferred, m)
                        },
                )
            },
    )
}

/// Puts the saved credentials back that a commit replaced, or removes the ones it added.
pub open spec fn take_back_run(c: Config, slot: u32, log: Seq<Reply>, at: nat) -> Run<()> {
    there_run(log, at, c.profile_backup_path(slot)).bind(
        |kept: bool, n: nat|
            if kept {
                copy_run(log, n, c.profile_backup_path(slot), c.profile_auth_path(slot))
            } else {
                there_run(log, n, c.profile_auth_path(slot)).bind(
                    |there: bool, m: nat|
                        if there {
                            remove_run(log, m, c.profile_auth_path(slot)).next(
                                |k: nat| sync_run(log, k, c.profile_auth_path(slot)),
                            )
                        } else {
                            Run::Done((), m)
                        },
                )
            },
    )
}

/// Takes back what a commit did to an account's saved credentials.
pub open spec fn rollback_profile_run(c: Config, t: TransactionView, log: Seq<Reply>, at: nat) -> Run<
    (),
> {
    match (t.profile_pending, t.slot) {
        (None, _) => Run::Done((), at),
        (Some(_), None) => Run::Fail(ErrorView::RecoveryDeferred, at),
        (Some(pending), Some(slot)) => there_run(log, at, pending).bind(
            |staged: bool, n: nat|
                if !staged {
                    Run::Fail(ErrorView::RecoveryDeferred, n)
                } else {
                    promoted_run(c, slot, pending, log, n).bind(
                        |promoted: bool, m: nat|
                            if promoted {
                                take_back_run(c, slot, log, m)
                            } else {
                                Run::Done((), m)
                            },
                    )
                },
        ),
    }
}

/// Checks the session before a commit that relinks it; where it cannot be relinked, the
/// transaction is undone.
pub open spec fn check_session_run(c: Config, t: TransactionView, log: Seq<Reply>, at: nat) -> Run<()> {
    if !t.link_session {
        Run::Done((), at)
    } else {
        validate_link_run(c, log, at).rescue(
            |error: ErrorView, n: nat|
                if error is RecoveryDeferred {
                    Run::Fail(error, n)
                } else {
                    restore_if_held_run(c, t.hold_active, log, n).next(
                        |m: nat|
                            cleanup_run(c, keep_source(t), log, m).next(
                                |k: nat| Run::Fail(error, k),
                            ),
                    )
                },
        )
    }
}

/// A transaction without the source that a clean-up would remove.
pub open spec fn keep_source(t: TransactionView) -> TransactionView {
    TransactionView { recovery_source: None, ..t }
}

/// Moves staged credentials into their account, keeping the ones they replace.
pub open spec fn promote_run(c: Config, t: TransactionView, slot: u32, log: Seq<Reply>, at: nat) -> Run<
    (),
> {
    match t.profile_pending {
        Some(pending) => there_run(log, at, pending).bind(
            |staged: bool, n: nat|
                if !staged {
                    Run::Done((), n)
                } else {
                    done_run(log, n, RequestView::PrivateDir(c.profile_dir_path(slot))).next(
                        |m: nat|
                            back_up_run(c, slot, log, m).next(
                                |k: nat| copy_run(log, k, pending, c.profile_auth_path(slot)),
                            ),
                    )
                },
        ),
        None => Run::Done((), at),
    }
}

pub open spec fn back_up_run(c: Config, slot: u32, log: Seq<Reply>, at: nat) -> Run<()> {
    there_run(log, at, c.profile_auth_path(slot)).bind(
        |there: bool, n: nat|
            if !there {
                Run::Done((), n)
            } else {
                there_run(log, n, c.profile_backup_path(slot)).bind(
                    |kept: bool, m: nat|
                        if kept {
                            Run::Done((), m)
                        } else {
                            copy_run(
                                log,
                                m,
                                c.profile_auth_path(slot),
                                c.profile_backup_path(slot),
                            )
                        },
                )
            },
    )
}

/// Makes an account's credentials the active ones, or puts the held ones back.
pub open spec fn activate_run(
    c: Config,
    t: TransactionView,
    slot: u32,
    restored: bool,
    log: Seq<Reply>,
    at: nat,
) -> Run<()> {
    if t.activate && t.hold_active {
        restore_copy_run(log, at, c.profile_auth_path(slot), c.active_auth@)
    } else if t.activate {
        copy_run(log, at, c.profile_auth_path(slot), c.active_auth@)
    } else if t.hold_active && !restored {
        restore_hold_run(c, log, at)
    } else {
        Run::Done((), at)
    }
}

/// Undoes a commit whose session could not be relinked, and reports why.
pub open spec fn undo_run(
    c: Config,
    t: TransactionView,
    error: ErrorView,
    log: Seq<Reply>,
    at: nat,
) -> Run<()> {
    rollback_active_run(c, t, log, at).next(
        |n: nat|
            rollback_profile_run(c, t, log, n).next(
                |m: nat|
                    restore_if_held_run(c, t.hold_active, log, m).next(
                        |k: nat|
                            restore_session_run(c, log, k).next(
                                |j: nat|
                                    cleanup_run(c, keep_source(t), log, j).next(
                                        |i: nat| Run::Fail(error, i),
                                    ),
                            ),
                    ),
            ),
    )
}

/// Relinks the session after a commit that asks for it.
pub open spec fn relink_run(c: Config, t: TransactionView, slot: u32, log: Seq<Reply>, at: nat) -> Run<
    (),
> {
    if !t.link_session {
        Run::Done((), at)
    } else {
        (if t.select {
            Run::Done(Some(slot), at)
        } else {
            selected_run(c, log, at)
        }).bind(
            |selected: Option<u32>, n: nat|
                ensure_link_run(c, selected, log, n).rescue(
                    |error: ErrorView, m: nat|
                        if error is RecoveryDeferred {
                            Run::Fail(error, m)
                        } else {
                            undo_run(c, t, error, log, m)
                        },
                ),
        )
    }
}

/// The part of a commit that concerns its account.
pub open spec fn commit_slot_run(
    c: Config,
    t: TransactionView,
    slot: u32,
    restored: bool,
    log: Seq<Reply>,
    at: nat,
) -> Run<()> {
    promote_run(c, t, slot, log, at).next(
        |n: nat|
            activate_run(c, t, slot, restored, log, n).next(
                |m: nat|
                    relink_run(c, t, slot, log, m).next(
                        |k: nat|
                            if t.select {
                                select_run(c, slot, log, k)
                            } else {
                                Run::Done((), k)
                            },
                    ),
            ),
    )
}

/// Goes through with a recorded change.
pub open spec fn finish_commit_run(c: Config, t: TransactionView, log: Seq<Reply>, at: nat) -> Run<()> {
    check_session_run(c, t, log, at).next(
        |n: nat|
            already_restored_run(c, t, log, n).bind(
                |restored: bool, m: nat|
                    (if t.hold_active && !restored {
                        preserve_reappeared_run(c, t.profile_pending, log, m)
                    } else {
                        Run::Done((), m)
                    }).next(
                        |k: nat|
                            match t.slot {
                                Some(slot) => commit_slot_run(c, t, slot, restored, log, k),
                                None => Run::Fail(
                                    ErrorView::Message("transaction has no account slot"@),
                                    k,
                                ),
                            },
                    ),
            ),
    )
}

impl Store {
    fn update_selected(&self, slot: u32, log: &Vec<Reply>, at: &mut usize) -> (r: Result<bool, Halt>)
        requires
            *old(at) <= log.len(),
        ensures
            *final(at) <= log.len(),
            told(r, *final(at), update_selected_run(self.config, slot, log@, *old(at) as nat)),
    {
        let active = auth(log, at, &self.config.active_auth)?;
        let path = self.config.profile_auth(slot);
        let profile = auth(log, at, &path)?;
        if !active.identity.same_account(&profile.identity) {
            return Ok(false);
        }
        reconcile_credentials(log, at, &self.config.active_auth, active, &path, profile)?;
        Ok(true)
    }

    fn inactive_commit_active_already_restored(
        &self,
        t: &TransactionState,
        log: &Vec<Reply>,
        at: &mut usize,
    ) -> (r: Result<bool, Halt>)
        requires
            *old(at) <= log.len(),
        ensures
            *final(at) <= log.len(),
            told(r, *final(at), already_restored_run(self.config, t@, log@, *old(at) as nat)),
    {
        if t.activate || !t.hold_active {
            return Ok(false);
        }
        if is_there(log, at, &self.config.active_hold())? {
            return Ok(false);
        }
        if !is_file(log, at, &self.config.active_auth)? {
            return Ok(false);
        }
        match self.selected(log, at)? {
            Some(slot) => self.update_selected(slot, log, at),
            None => Ok(false),
        }
    }

    fn installed(&self, t: &TransactionState, log: &Vec<Reply>, at: &mut usize) -> (r: Result<
        String,
        Halt,
    >)
        requires
            *old(at) <= log.len(),
        ensures
            *final(at) <= log.len(),
            told_text(r, *final(at), installed_run(self.config, t@, log@, *old(at) as nat)),
    {
        if let Some(pending) = &t.profile_pending {
            if is_there(log, at, pending)? {
                return Ok(pending.clone());
            }
        }
        match t.slot {
            Some(slot) => Ok(self.config.profile_auth(slot)),
            None => Err(Halt::Fail(Error::RecoveryDeferred)),
        }
    }

    fn rollback_promoted_active(&self, t: &TransactionState, log: &Vec<Reply>, at: &mut usize) -> (r:
        Result<(), Halt>)
        requires
            *old(at) <= log.len(),
        ensures
            *final(at) <= log.len(),
            told(r, *final(at), rollback_active_run(self.config, t@, log@, *old(at) as nat)),
    {
        if !t.activate {
            return Ok(());
        }
        if !is_there(log, at, &self.config.active_auth)? {
            return Ok(());
        }
        let installed = self.installed(t, log, at)?;
        let active = auth(log, at, &self.config.active_auth)?;
        let promoted = auth(log, at, &installed)?;
        if !active.same_credentials(promoted) {
            return Err(Halt::Fail(Error::RecoveryDeferred));
        }
        remove(log, at, &self.config.active_auth)?;
        sync(log, at, &self.config.active_auth)
    }

    fn still_promoted(&self, slot: u32, pending: &str, log: &Vec<Reply>, at: &mut usize) -> (r:
        Result<bool, Halt>)
        requires
            *old(at) <= log.len(),
        ensures
            *final(at) <= log.len(),
            told(r, *final(at), promoted_run(self.config, slot, pending@, log@, *old(at) as nat)),
    {
        let profile = self.config.profile_auth(slot);
        if !is_there(log, at, &profile)? {
            return Ok(true);
        }
        let current = auth(log, at, &profile)?;
        let promoted = auth(log, at, pending)?;
        if current.same_credentials(promoted) {
            return Ok(true);
        }
        let backup = self.config.profile_backup(slot);
        if is_there(log, at, &backup)? {
            if current.same_credentials(auth(log, at, &backup)?) {
                return Ok(false);
            }
        }
        Err(Halt::Fail(Error::RecoveryDeferred))
    }

    fn take_back(&self, slot: u32, log: &Vec<Reply>, at: &mut usize) -> (r: Result<(), Halt>)
        requires
            *old(at) <= log.len(),
        ensures
            *final(at) <= log.len(),
            told(r, *final(at), take_back_run(self.config, slot, log@, *old(at) as nat)),
    {
        let profile = self.config.profile_auth(slot);
        let backup = self.config.profile_backup(slot);
        if is_there(log, at, &backup)? {
            return copy(log, at, &backup, &profile);
        }
        if is_there(log, at, &profile)? {
            remove(log, at, &profile)?;
            return sync(log, at, &profile);
        }
        Ok(())
    }

    fn rollback_profile_promotion(&self, t: &TransactionState, log: &Vec<Reply>, at: &mut usize) -> (r:
        Result<(), Halt>)
        requires
            *old(at) <= log.len(),
        ensures
            *final(at) <= log.len(),
            told(r, *final(at), rollback_profile_run(self.config, t@, log@, *old(at) as nat)),
    {
        let pending = match &t.profile_pending {
            Some(pending) => pending,
            None => {
                return Ok(());
            },
        };
        let slot: u32 = match t.slot {
            Some(slot) => slot,
            None => {
                return Err(Halt::Fail(Error::RecoveryDeferred));
            },
        };
        if !is_there(log, at, pending)? {
            return Err(Halt::Fail(Error::RecoveryDeferred));
        }
        if self.still_promoted(slot, pending, log, at)? {
            self.take_back(slot, log, at)
        } else {
            Ok(())
        }
    }

    fn without_source(&self, t: &TransactionState) -> (r: TransactionState)
        ensures
            r@ == keep_source(t@),
    {
        let mut kept = t.clone();
        kept.recovery_source = None;
        kept
    }

    fn check_session(&self, t: &TransactionState, log: &Vec<Reply>, at: &mut usize) -> (r: Result<
        (),
        Halt,
    >)
        requires
            *old(at) <= log.len(),
        ensures
            *final(at) <= log.len(),
            told(r, *final(at), check_session_run(self.config, t@, log@, *old(at) as nat)),
    {
        if !t.link_session {
            return Ok(());
        }
        match self.validate_session_link(log, at) {
            Ok(_) => Ok(()),
            Err(Halt::Ask(request)) => Err(Halt::Ask(request)),
            Err(Halt::Fail(Error::RecoveryDeferred)) => Err(Halt::Fail(Error::RecoveryDeferred)),
            Err(Halt::Fail(error)) => {
                self.restore_active_if_held(t.hold_active, log, at)?;
                self.cleanup_transaction(&self.without_source(t), log, at)?;
                Err(Halt::Fail(error))
            },
        }
    }

    fn promote(&self, t: &TransactionState, slot: u32, log: &Vec<Reply>, at: &mut usize) -> (r:
        Result<(), Halt>)
        requires
            *old(at) <= log.len(),
        ensures
            *final(at) <= log.len(),
            told(r, *final(at), promote_run(self.config, t@, slot, log@, *old(at) as nat)),
    {
        let pending = match &t.profile_pending {
            Some(pending) => pending,
            None => {
                return Ok(());
            },
        };
        if !is_there(log, at, pending)? {
            return Ok(());
        }
        let profile = self.config.profile_auth(slot);
        let backup = self.config.profile_backup(slot);
        done(log, at, Request::PrivateDir(self.config.profile_dir(slot)))?;
        if is_there(log, at, &profile)? {
            if !is_there(log, at, &backup)? {
                copy(log, at, &profile, &backup)?;
            }
        }
        copy(log, at, pending, &profile)
    }

    fn activate(
        &self,
        t: &TransactionState,
        slot: u32,
        restored: bool,
        log: &Vec<Reply>,
        at: &mut usize,
    ) -> (r: Result<(), Halt>)
        requires
            *old(at) <= log.len(),
        ensures
            *final(at) <= log.len(),
            told(
                r,
                *final(at),
                activate_run(self.config, t@, slot, restored, log@, *old(at) as nat),
            ),
    {
        let profile = self.config.profile_auth(slot);
        if t.activate {
            if t.hold_active {
                restore_copy_if_absent(log, at, &profile, &self.config.active_auth)
            } else {
                copy(log, at, &profile, &self.config.active_auth)
            }
        } else if t.hold_active && !restored {
            self.restore_hold(log, at)
        } else {
            Ok(())
        }
    }

    fn undo(&self, t: &TransactionState, error: Error, log: &Vec<Reply>, at: &mut usize) -> (r:
        Result<(), Halt>)
        requires
            *old(at) <= log.len(),
        ensures
            *final(at) <= log.len(),
            told(r, *final(at), undo_run(self.config, t@, error@, log@, *old(at) as nat)),
    {
        self.rollback_promoted_active(t, log, at)?;
        self.rollback_profile_promotion(t, log, at)?;
        self.restore_active_if_held(t.hold_active, log, at)?;
        self.restore_session_hold(log, at)?;
        self.cleanup_transaction(&self.without_source(t), log, at)?;
        Err(Halt::Fail(error))
    }

    fn relink(&self, t: &TransactionState, slot: u32, log: &Vec<Reply>, at: &mut usize) -> (r: Result<
        (),
        Halt,
    >)
        requires
            *old(at) <= log.len(),
        ensures
            *final(at) <= log.len(),
            told(r, *final(at), relink_run(self.config, t@, slot, log@, *old(at) as nat)),
    {
        if !t.link_session {
            return Ok(());
        }
        let selected = if t.select {
            Some(slot)
        } else {
            self.selected(log, at)?
        };
        match self.ensure_session_link(selected, log, at) {
            Ok(_) => Ok(()),
            Err(Halt::Ask(request)) => Err(Halt::Ask(request)),
            Err(Halt::Fail(Error::RecoveryDeferred)) => Err(Halt::Fail(Error::RecoveryDeferred)),
            Err(Halt::Fail(error)) => self.undo(t, error, log, at),
        }
    }

    /// Goes through with a recorded change.
    pub fn finish_commit(&self, t: &TransactionState, log: &Vec<Reply>, at: &mut usize) -> (r: Result<
        (),
        Halt,
    >)
        requires
            *old(at) <= log.len(),
        ensures
            *final(at) <= log.len(),
            told(r, *final(at), finish_commit_run(self.config, t@, log@, *old(at) as nat)),
    {
        self.check_session(t, log, at)?;
        let restored = self.inactive_commit_active_already_restored(t, log, at)?;
        if t.hold_active && !restored {
            self.preserve_reappeared_active(&t.profile_pending, log, at)?;
        }
        let slot: u32 = match t.slot {
            Some(slot) => slot,
            None => {
                return Err(Halt::Fail(Error::message("transaction has no account slot")));
            },
        };
        self.promote(t, slot, log, at)?;
        self.activate(t, slot, restored, log, at)?;
        self.relink(t, slot, log, at)?;
        if t.select {
            self.record_selection(slot, log, at)
        } else {
            Ok(())
        }
    }
}

}
