//! A procedure's course is settled by the replies that it was given: with fewer of them it asks for
//! the next one, and with more of them it comes to the same.
use crate::account_store::{
    copy_run, is_file_run, next_slot_run, reconcile_run, remove_run, select_run, selected_run,
    slot_for_run, sync_run, there_run, writers_run, TransactionMode, TransactionState,
    TransactionView,
};
use crate::auth::{AuthDocument, AuthView, IdentityView};
use crate::barrier::{
    blocked_run, leave_run, recover_refresh_run, recover_run, refresh_commit, resume_run,
    save_refreshed_run, staged_enrollment,
};
use crate::config::Config;
use crate::effects::{
    auth_if_valid_run, auth_run, done_run, entry_run, flag_run, state_run, EntryKind, Reply,
    RequestView, Run,
};
use crate::error::ErrorView;
use crate::session::{
    discard_session_run, enrolled_run, ensure_link_run, hold_session_run, install_link_run,
    preserve_session_run, promote_session_run, restore_session_run, save_session_run,
    settle_link_run, validate_detached_run, validate_link_run,
};
use crate::transaction::{
    activate_run, already_restored_run, back_already_run, back_up_run, check_session_run,
    claim_run, cleanup_held_run, cleanup_run, cleanup_source_run, cleanup_staged_run,
    commit_slot_run, finish_commit_run, give_back_run, installed_run, keep_claimed_run,
    keep_source, merge_staged_run, preserve_reappeared_run, promote_run, promoted_run,
    put_back_run, put_newer_run, record_run, release_claimed_run, relink_run, replace_lost_run,
    restore_hold_run, restore_if_held_run, return_hold_run, rollback_active_run,
    rollback_profile_run, save_claimed_run, save_to_run, settle_pending_run, stand_in_run,
    take_back_run, undo_run, update_selected_run,
};
use vstd::prelude::*;

verus! {

/// Whether what a procedure comes to, from the reply at `at` on, is what it comes to with the
/// first `k` of `len` replies, where those are enough, and it waits for the next one otherwise.
pub open spec fn agree<T>(full: Run<T>, cut: Run<T>, at: nat, k: nat, len: nat) -> bool {
    match full {
        Run::Done(_, n) => at <= n <= len && (at <= k ==> if n <= k {
            cut == full
        } else {
            cut is Ask
        }),
        Run::Fail(_, n) => at <= n <= len && (at <= k ==> if n <= k {
            cut == full
        } else {
            cut is Ask
        }),
        Run::Ask(_) => at <= k ==> cut is Ask,
    }
}

/// The part of a cleanup before the record goes.
pub open spec fn let_go_run(c: Config, t: TransactionView, log: Seq<Reply>, at: nat) -> Run<()> {
    cleanup_staged_run(c, t, log, at).next(
        |n: nat|
            cleanup_held_run(c, t, log, n).next(
                |m: nat|
                    match t.recovery_source {
                        Some(source) => cleanup_source_run(c, source, log, m),
                        None => Run::Done((), m),
                    },
            ),
    )
}

pub proof fn lemma_cleanup(c: Config, t: TransactionView, log: Seq<Reply>, at: nat)
    ensures
        cleanup_run(c, t, log, at) == let_go_run(c, t, log, at).next(
            |k: nat|
                remove_run(log, k, c.transaction_path()).next(
                    |j: nat| sync_run(log, j, c.transaction_path()),
                ),
        ),
{
}

/// The part of checking a session that looks at its link.
pub open spec fn look_at_link_run(c: Config, log: Seq<Reply>, at: nat) -> Run<()> {
    flag_run(log, at, RequestView::SessionLinked).bind(
        |linked: bool, m: nat|
            if linked {
                Run::Done((), m)
            } else {
                entry_run(log, m, c.session_auth@).bind(
                    |kind: EntryKind, k: nat|
                        if kind == EntryKind::Missing {
                            Run::Done((), k)
                        } else {
                            validate_detached_run(c, c.session_auth@, log, k)
                        },
                )
            },
    )
}

proof fn lemma_validate_link(c: Config, log: Seq<Reply>, at: nat)
    ensures
        validate_link_run(c, log, at) == there_run(log, at, c.session_hold_path()).bind(
            |held: bool, n: nat|
                if held {
                    validate_detached_run(c, c.session_hold_path(), log, n)
                } else {
                    Run::Done((), n)
                },
        ).next(|n: nat| look_at_link_run(c, log, n)),
{
}

/// Putting a link in place of what a session has there.
pub open spec fn take_link_run(c: Config, selected: Option<u32>, log: Seq<Reply>, at: nat) -> Run<()> {
    hold_session_run(c, log, at).next(
        |j: nat|
            preserve_session_run(c, selected, log, j).rescue(
                |error: ErrorView, i: nat|
                    if error is RecoveryDeferred {
                        Run::Fail(error, i)
                    } else {
                        restore_session_run(c, log, i).next(|h: nat| Run::Fail(error, h))
                    },
            ).next(|i: nat| install_link_run(c, log, i)),
    )
}

pub proof fn steady_selected(c: Config, log: Seq<Reply>, at: nat, k: nat)
    requires
        at <= log.len(),
        k <= log.len(),
    ensures
        agree(selected_run(c, log, at), selected_run(c, log.take(k as int), at), at, k, log.len()),
{
}

pub proof fn steady_slot_for(identity: IdentityView, log: Seq<Reply>, at: nat, k: nat)
    requires
        at <= log.len(),
        k <= log.len(),
    ensures
        agree(
            slot_for_run(identity, log, at),
            slot_for_run(identity, log.take(k as int), at),
            at,
            k,
            log.len(),
        ),
{
}

pub proof fn steady_next_slot(c: Config, log: Seq<Reply>, at: nat, k: nat)
    requires
        at <= log.len(),
        k <= log.len(),
    ensures
        agree(
            next_slot_run(c, log, at),
            next_slot_run(c, log.take(k as int), at),
            at,
            k,
            log.len(),
        ),
{
}

pub proof fn steady_reconcile(
    from: Seq<char>,
    source: AuthView,
    to: Seq<char>,
    target: AuthView,
    log: Seq<Reply>,
    at: nat,
    k: nat,
)
    requires
        at <= log.len(),
        k <= log.len(),
    ensures
        agree(
            reconcile_run(log, at, from, source, to, target),
            reconcile_run(log.take(k as int), at, from, source, to, target),
            at,
            k,
            log.len(),
        ),
{
}

pub proof fn steady_claim(c: Config, log: Seq<Reply>, at: nat, k: nat)
    requires
        at <= log.len(),
        k <= log.len(),
    ensures
        agree(claim_run(c, log, at), claim_run(c, log.take(k as int), at), at, k, log.len()),
{
}

pub proof fn steady_merge_staged(
    c: Config,
    pending: Option<Seq<char>>,
    active: AuthView,
    log: Seq<Reply>,
    at: nat,
    k: nat,
)
    requires
        at <= log.len(),
        k <= log.len(),
    ensures
        agree(
            merge_staged_run(c, pending, active, log, at),
            merge_staged_run(c, pending, active, log.take(k as int), at),
            at,
            k,
            log.len(),
        ),
{
}

pub proof fn steady_save_to(
    c: Config,
    active: AuthView,
    slot: u32,
    log: Seq<Reply>,
    at: nat,
    k: nat,
)
    requires
        at <= log.len(),
        k <= log.len(),
    ensures
        agree(
            save_to_run(c, active, slot, log, at),
            save_to_run(c, active, slot, log.take(k as int), at),
            at,
            k,
            log.len(),
        ),
{
}

pub proof fn steady_save_claimed(c: Config, active: AuthView, log: Seq<Reply>, at: nat, k: nat)
    requires
        at <= log.len(),
        k <= log.len(),
    ensures
        agree(
            save_claimed_run(c, active, log, at),
            save_claimed_run(c, active, log.take(k as int), at),
            at,
            k,
            log.len(),
        ),
{
    steady_slot_for(active.identity, log, at, k);
    if let Run::Done(known, n) = slot_for_run(active.identity, log, at) {
        steady_next_slot(c, log, n, k);
        if let Run::Done(free, m) = next_slot_run(c, log, n) {
            let slot = match known {
                Some(slot) => slot,
                None => free,
            };
            steady_save_to(c, active, slot, log, m, k);
        }
    }
}

pub proof fn steady_release_claimed(c: Config, log: Seq<Reply>, at: nat, k: nat)
    requires
        at <= log.len(),
        k <= log.len(),
    ensures
        agree(
            release_claimed_run(c, log, at),
            release_claimed_run(c, log.take(k as int), at),
            at,
            k,
            log.len(),
        ),
{
}

#[verifier::rlimit(100)]
pub proof fn steady_keep_claimed(
    c: Config,
    pending: Option<Seq<char>>,
    log: Seq<Reply>,
    at: nat,
    k: nat,
)
    requires
        at <= log.len(),
        k <= log.len(),
    ensures
        agree(
            keep_claimed_run(c, pending, log, at),
            keep_claimed_run(c, pending, log.take(k as int), at),
            at,
            k,
            log.len(),
        ),
{
    let path = c.active_reappeared_path();
    if let Run::Done(active, n) = auth_run(log, at, path) {
        steady_merge_staged(c, pending, active@, log, n, k);
        if let Run::Done(merged, m) = merge_staged_run(c, pending, active@, log, n) {
            steady_release_claimed(c, log, m, k);
            steady_save_claimed(c, active@, log, m, k);
            if let Run::Done(_, j) = save_claimed_run(c, active@, log, m) {
                steady_release_claimed(c, log, j, k);
            }
        }
    }
}

pub proof fn steady_preserve_reappeared(
    c: Config,
    pending: Option<Seq<char>>,
    log: Seq<Reply>,
    at: nat,
    k: nat,
)
    requires
        at <= log.len(),
        k <= log.len(),
    ensures
        agree(
            preserve_reappeared_run(c, pending, log, at),
            preserve_reappeared_run(c, pending, log.take(k as int), at),
            at,
            k,
            log.len(),
        ),
{
    if let Run::Done(there, n) = there_run(log, at, c.active_reappeared_path()) {
        steady_claim(c, log, n, k);
        steady_keep_claimed(c, pending, log, n, k);
        if let Run::Done(_, m) = claim_run(c, log, n) {
            steady_keep_claimed(c, pending, log, m, k);
        }
    }
}

pub proof fn steady_stand_in(c: Config, log: Seq<Reply>, at: nat, k: nat)
    requires
        at <= log.len(),
        k <= log.len(),
    ensures
        agree(stand_in_run(c, log, at), stand_in_run(c, log.take(k as int), at), at, k, log.len()),
{
    steady_selected(c, log, at, k);
}

pub proof fn steady_replace_lost(c: Config, log: Seq<Reply>, at: nat, k: nat)
    requires
        at <= log.len(),
        k <= log.len(),
    ensures
        agree(
            replace_lost_run(c, log, at),
            replace_lost_run(c, log.take(k as int), at),
            at,
            k,
            log.len(),
        ),
{
    if let Run::Done(held, n) = there_run(log, at, c.active_hold_path()) {
        if let Run::Done(aside, m) = there_run(log, n, c.active_pending_path()) {
            if let Run::Done(back, j) = there_run(log, m, c.active_auth@) {
                steady_stand_in(c, log, j, k);
            }
        }
    }
}

pub proof fn steady_put_back(c: Config, log: Seq<Reply>, at: nat, k: nat)
    requires
        at <= log.len(),
        k <= log.len(),
    ensures
        agree(put_back_run(c, log, at), put_back_run(c, log.take(k as int), at), at, k, log.len()),
{
}

pub proof fn steady_put_newer(c: Config, slot: u32, log: Seq<Reply>, at: nat, k: nat)
    requires
        at <= log.len(),
        k <= log.len(),
    ensures
        agree(
            put_newer_run(c, slot, log, at),
            put_newer_run(c, slot, log.take(k as int), at),
            at,
            k,
            log.len(),
        ),
{
}

pub proof fn steady_give_back(
    c: Config,
    held: AuthView,
    selected: Option<u32>,
    log: Seq<Reply>,
    at: nat,
    k: nat,
)
    requires
        at <= log.len(),
        k <= log.len(),
    ensures
        agree(
            give_back_run(c, held, selected, log, at),
            give_back_run(c, held, selected, log.take(k as int), at),
            at,
            k,
            log.len(),
        ),
{
    steady_put_back(c, log, at, k);
    if let Some(slot) = selected {
        let path = c.profile_auth_path(slot);
        if let Run::Done(saved, n) = auth_if_valid_run(log, at, path) {
            steady_put_back(c, log, n, k);
            steady_put_newer(c, slot, log, n, k);
            if let Some(profile) = saved {
                let hold = c.active_hold_path();
                steady_reconcile(hold, held, path, profile@, log, n, k);
                if let Run::Done(_, m) = reconcile_run(log, n, hold, held, path, profile@) {
                    steady_put_back(c, log, m, k);
                }
            }
        }
    }
}

/// The part of a return that follows the reading of the held credentials, which is not looked into.
#[verifier::opaque]
pub open spec fn choose_held_part(c: Config, held: AuthView, log: Seq<Reply>, at: nat) -> Run<bool> {
    selected_run(c, log, at).bind(
        |selected: Option<u32>, j: nat| give_back_run(c, held, selected, log, j),
    )
}

proof fn steady_choose_held(c: Config, held: AuthView, log: Seq<Reply>, at: nat, k: nat)
    requires
        at <= log.len(),
        k <= log.len(),
    ensures
        agree(
            choose_held_part(c, held, log, at),
            choose_held_part(c, held, log.take(k as int), at),
            at,
            k,
            log.len(),
        ),
{
    reveal(choose_held_part);
    steady_selected(c, log, at, k);
    if let Run::Done(selected, j) = selected_run(c, log, at) {
        steady_give_back(c, held, selected, log, j, k);
    }
}

/// `return_hold_run`, made of parts that are not looked into.
#[verifier::opaque]
pub open spec fn return_hold_part(c: Config, log: Seq<Reply>, at: nat) -> Run<bool> {
    there_run(log, at, c.active_hold_path()).bind(
        |held: bool, n: nat|
            if !held {
                Run::Done(false, n)
            } else {
                preserve_reappeared_part(c, None, log, n).next(
                    |m: nat|
                        auth_run(log, m, c.active_hold_path()).bind(
                            |hold: AuthDocument, j: nat| choose_held_part(c, hold@, log, j),
                        ),
                )
            },
    )
}

proof fn lemma_return_hold(c: Config, log: Seq<Reply>, at: nat)
    ensures
        return_hold_run(c, log, at) == return_hold_part(c, log, at),
{
    reveal(preserve_reappeared_part);
    reveal(choose_held_part);
    reveal(return_hold_part);
}

proof fn steady_return_hold_part(c: Config, log: Seq<Reply>, at: nat, k: nat)
    requires
        at <= log.len(),
        k <= log.len(),
    ensures
        agree(
            return_hold_part(c, log, at),
            return_hold_part(c, log.take(k as int), at),
            at,
            k,
            log.len(),
        ),
{
    reveal(return_hold_part);
    if let Run::Done(held, n) = there_run(log, at, c.active_hold_path()) {
        steady_preserve_reappeared_part(c, None, log, n, k);
        if let Run::Done(_, m) = preserve_reappeared_part(c, None, log, n) {
            if let Run::Done(hold, j) = auth_run(log, m, c.active_hold_path()) {
                steady_choose_held(c, hold@, log, j, k);
            }
        }
    }
}

pub proof fn steady_return_hold(c: Config, log: Seq<Reply>, at: nat, k: nat)
    requires
        at <= log.len(),
        k <= log.len(),
    ensures
        agree(
            return_hold_run(c, log, at),
            return_hold_run(c, log.take(k as int), at),
            at,
            k,
            log.len(),
        ),
{
    lemma_return_hold(c, log, at);
    lemma_return_hold(c, log.take(k as int), at);
    steady_return_hold_part(c, log, at, k);
}

pub proof fn steady_settle_pending(c: Config, log: Seq<Reply>, at: nat, k: nat)
    requires
        at <= log.len(),
        k <= log.len(),
    ensures
        agree(
            settle_pending_run(c, log, at),
            settle_pending_run(c, log.take(k as int), at),
            at,
            k,
            log.len(),
        ),
{
}

pub proof fn steady_restore_hold(c: Config, log: Seq<Reply>, at: nat, k: nat)
    requires
        at <= log.len(),
        k <= log.len(),
    ensures
        agree(
            restore_hold_run(c, log, at),
            restore_hold_run(c, log.take(k as int), at),
            at,
            k,
            log.len(),
        ),
{
    steady_replace_lost(c, log, at, k);
    if let Run::Done(_, n) = replace_lost_run(c, log, at) {
        steady_return_hold(c, log, n, k);
        if let Run::Done(_, m) = return_hold_run(c, log, n) {
            steady_settle_pending(c, log, m, k);
        }
    }
}

pub proof fn steady_restore_if_held(c: Config, hold_active: bool, log: Seq<Reply>, at: nat, k: nat)
    requires
        at <= log.len(),
        k <= log.len(),
    ensures
        agree(
            restore_if_held_run(c, hold_active, log, at),
            restore_if_held_run(c, hold_active, log.take(k as int), at),
            at,
            k,
            log.len(),
        ),
{
    steady_restore_hold(c, log, at, k);
}

pub proof fn steady_cleanup_source(c: Config, source: Seq<char>, log: Seq<Reply>, at: nat, k: nat)
    requires
        at <= log.len(),
        k <= log.len(),
    ensures
        agree(
            cleanup_source_run(c, source, log, at),
            cleanup_source_run(c, source, log.take(k as int), at),
            at,
            k,
            log.len(),
        ),
{
}

pub proof fn steady_cleanup_staged(c: Config, t: TransactionView, log: Seq<Reply>, at: nat, k: nat)
    requires
        at <= log.len(),
        k <= log.len(),
    ensures
        agree(
            cleanup_staged_run(c, t, log, at),
            cleanup_staged_run(c, t, log.take(k as int), at),
            at,
            k,
            log.len(),
        ),
{
}

pub proof fn steady_cleanup_held(c: Config, t: TransactionView, log: Seq<Reply>, at: nat, k: nat)
    requires
        at <= log.len(),
        k <= log.len(),
    ensures
        agree(
            cleanup_held_run(c, t, log, at),
            cleanup_held_run(c, t, log.take(k as int), at),
            at,
            k,
            log.len(),
        ),
{
}

pub proof fn steady_let_go(c: Config, t: TransactionView, log: Seq<Reply>, at: nat, k: nat)
    requires
        at <= log.len(),
        k <= log.len(),
    ensures
        agree(
            let_go_run(c, t, log, at),
            let_go_run(c, t, log.take(k as int), at),
            at,
            k,
            log.len(),
        ),
{
    steady_cleanup_staged(c, t, log, at, k);
    if let Run::Done(_, n) = cleanup_staged_run(c, t, log, at) {
        steady_cleanup_held(c, t, log, n, k);
        if let Run::Done(_, m) = cleanup_held_run(c, t, log, n) {
            if let Some(source) = t.recovery_source {
                steady_cleanup_source(c, source, log, m, k);
            }
        }
    }
}

pub proof fn steady_cleanup(c: Config, t: TransactionView, log: Seq<Reply>, at: nat, k: nat)
    requires
        at <= log.len(),
        k <= log.len(),
    ensures
        agree(
            cleanup_run(c, t, log, at),
            cleanup_run(c, t, log.take(k as int), at),
            at,
            k,
            log.len(),
        ),
{
    steady_let_go(c, t, log, at, k);
    lemma_cleanup(c, t, log, at);
    lemma_cleanup(c, t, log.take(k as int), at);
}

pub proof fn steady_update_selected(c: Config, slot: u32, log: Seq<Reply>, at: nat, k: nat)
    requires
        at <= log.len(),
        k <= log.len(),
    ensures
        agree(
            update_selected_run(c, slot, log, at),
            update_selected_run(c, slot, log.take(k as int), at),
            at,
            k,
            log.len(),
        ),
{
}

pub proof fn steady_already_restored(
    c: Config,
    t: TransactionView,
    log: Seq<Reply>,
    at: nat,
    k: nat,
)
    requires
        at <= log.len(),
        k <= log.len(),
    ensures
        agree(
            already_restored_run(c, t, log, at),
            already_restored_run(c, t, log.take(k as int), at),
            at,
            k,
            log.len(),
        ),
{
    if let Run::Done(held, n) = there_run(log, at, c.active_hold_path()) {
        if let Run::Done(back, m) = is_file_run(log, n, c.active_auth@) {
            steady_selected(c, log, m, k);
            if let Run::Done(selected, j) = selected_run(c, log, m) {
                if let Some(slot) = selected {
                    steady_update_selected(c, slot, log, j, k);
                }
            }
        }
    }
}

pub proof fn steady_installed(c: Config, t: TransactionView, log: Seq<Reply>, at: nat, k: nat)
    requires
        at <= log.len(),
        k <= log.len(),
    ensures
        agree(
            installed_run(c, t, log, at),
            installed_run(c, t, log.take(k as int), at),
            at,
            k,
            log.len(),
        ),
{
}

pub proof fn steady_rollback_active(c: Config, t: TransactionView, log: Seq<Reply>, at: nat, k: nat)
    requires
        at <= log.len(),
        k <= log.len(),
    ensures
        agree(
            rollback_active_run(c, t, log, at),
            rollback_active_run(c, t, log.take(k as int), at),
            at,
            k,
            log.len(),
        ),
{
    if let Run::Done(there, n) = there_run(log, at, c.active_auth@) {
        steady_installed(c, t, log, n, k);
    }
}

pub proof fn steady_back_already(
    c: Config,
    slot: u32,
    current: AuthView,
    log: Seq<Reply>,
    at: nat,
    k: nat,
)
    requires
        at <= log.len(),
        k <= log.len(),
    ensures
        agree(
            back_already_run(c, slot, current, log, at),
            back_already_run(c, slot, current, log.take(k as int), at),
            at,
            k,
            log.len(),
        ),
{
}

pub proof fn steady_promoted(
    c: Config,
    slot: u32,
    pending: Seq<char>,
    log: Seq<Reply>,
    at: nat,
    k: nat,
)
    requires
        at <= log.len(),
        k <= log.len(),
    ensures
        agree(
            promoted_run(c, slot, pending, log, at),
            promoted_run(c, slot, pending, log.take(k as int), at),
            at,
            k,
            log.len(),
        ),
{
    if let Run::Done(there, n) = there_run(log, at, c.profile_auth_path(slot)) {
        if let Run::Done(current, m) = auth_run(log, n, c.profile_auth_path(slot)) {
            if let Run::Done(_, j) = auth_run(log, m, pending) {
                steady_back_already(c, slot, current@, log, j, k);
            }
        }
    }
}

pub proof fn steady_take_back(c: Config, slot: u32, log: Seq<Reply>, at: nat, k: nat)
    requires
        at <= log.len(),
        k <= log.len(),
    ensures
        agree(
            take_back_run(c, slot, log, at),
            take_back_run(c, slot, log.take(k as int), at),
            at,
            k,
            log.len(),
        ),
{
}

pub proof fn steady_rollback_profile(
    c: Config,
    t: TransactionView,
    log: Seq<Reply>,
    at: nat,
    k: nat,
)
    requires
        at <= log.len(),
        k <= log.len(),
    ensures
        agree(
            rollback_profile_run(c, t, log, at),
            rollback_profile_run(c, t, log.take(k as int), at),
            at,
            k,
            log.len(),
        ),
{
    if let (Some(pending), Some(slot)) = (t.profile_pending, t.slot) {
        if let Run::Done(staged, n) = there_run(log, at, pending) {
            steady_promoted(c, slot, pending, log, n, k);
            if let Run::Done(_, m) = promoted_run(c, slot, pending, log, n) {
                steady_take_back(c, slot, log, m, k);
            }
        }
    }
}

pub proof fn steady_enrolled(detached: AuthView, log: Seq<Reply>, at: nat, k: nat)
    requires
        at <= log.len(),
        k <= log.len(),
    ensures
        agree(
            enrolled_run(detached, log, at),
            enrolled_run(detached, log.take(k as int), at),
            at,
            k,
            log.len(),
        ),
{
    steady_slot_for(detached.identity, log, at, k);
}

pub proof fn steady_validate_detached(c: Config, path: Seq<char>, log: Seq<Reply>, at: nat, k: nat)
    requires
        at <= log.len(),
        k <= log.len(),
    ensures
        agree(
            validate_detached_run(c, path, log, at),
            validate_detached_run(c, path, log.take(k as int), at),
            at,
            k,
            log.len(),
        ),
{
    if let Run::Done(running, n) = writers_run(log, at) {
        if let Run::Done(detached, m) = auth_run(log, n, path) {
            steady_enrolled(detached@, log, m, k);
        }
    }
}

pub proof fn steady_validate_link(c: Config, log: Seq<Reply>, at: nat, k: nat)
    requires
        at <= log.len(),
        k <= log.len(),
    ensures
        agree(
            validate_link_run(c, log, at),
            validate_link_run(c, log.take(k as int), at),
            at,
            k,
            log.len(),
        ),
{
    if let Run::Done(held, n) = there_run(log, at, c.session_hold_path()) {
        steady_validate_detached(c, c.session_hold_path(), log, n, k);
        steady_look_at_link(c, log, n, k);
        if let Run::Done(_, m) = validate_detached_run(c, c.session_hold_path(), log, n) {
            steady_look_at_link(c, log, m, k);
        }
    }
    lemma_validate_link(c, log, at);
    lemma_validate_link(c, log.take(k as int), at);
}

pub proof fn steady_look_at_link(c: Config, log: Seq<Reply>, at: nat, k: nat)
    requires
        at <= log.len(),
        k <= log.len(),
    ensures
        agree(
            look_at_link_run(c, log, at),
            look_at_link_run(c, log.take(k as int), at),
            at,
            k,
            log.len(),
        ),
{
    if let Run::Done(linked, n) = flag_run(log, at, RequestView::SessionLinked) {
        if let Run::Done(kind, m) = entry_run(log, n, c.session_auth@) {
            steady_validate_detached(c, c.session_auth@, log, m, k);
        }
    }
}

pub proof fn steady_promote_session(c: Config, detached: AuthView, log: Seq<Reply>, at: nat, k: nat)
    requires
        at <= log.len(),
        k <= log.len(),
    ensures
        agree(
            promote_session_run(c, detached, log, at),
            promote_session_run(c, detached, log.take(k as int), at),
            at,
            k,
            log.len(),
        ),
{
}

pub proof fn steady_save_session(
    c: Config,
    detached: AuthView,
    slot: u32,
    is_selected: bool,
    log: Seq<Reply>,
    at: nat,
    k: nat,
)
    requires
        at <= log.len(),
        k <= log.len(),
    ensures
        agree(
            save_session_run(c, detached, slot, is_selected, log, at),
            save_session_run(c, detached, slot, is_selected, log.take(k as int), at),
            at,
            k,
            log.len(),
        ),
{
    let hold = c.session_hold_path();
    let path = c.profile_auth_path(slot);
    if let Run::Done(stored, n) = auth_run(log, at, path) {
        steady_reconcile(hold, detached, path, stored@, log, n, k);
        if let Run::Done(_, m) = reconcile_run(log, n, hold, detached, path, stored@) {
            steady_promote_session(c, detached, log, m, k);
        }
    }
}

pub proof fn steady_preserve_session(
    c: Config,
    selected: Option<u32>,
    log: Seq<Reply>,
    at: nat,
    k: nat,
)
    requires
        at <= log.len(),
        k <= log.len(),
    ensures
        agree(
            preserve_session_run(c, selected, log, at),
            preserve_session_run(c, selected, log.take(k as int), at),
            at,
            k,
            log.len(),
        ),
{
    if let Run::Done(held, n) = there_run(log, at, c.session_hold_path()) {
        if let Run::Done(running, m) = writers_run(log, n) {
            if let Run::Done(detached, j) = auth_run(log, m, c.session_hold_path()) {
                steady_enrolled(detached@, log, j, k);
                if let Run::Done(slot, i) = enrolled_run(detached@, log, j) {
                    steady_save_session(c, detached@, slot, selected == Some(slot), log, i, k);
                }
            }
        }
    }
}

pub proof fn steady_discard_session(c: Config, log: Seq<Reply>, at: nat, k: nat)
    requires
        at <= log.len(),
        k <= log.len(),
    ensures
        agree(
            discard_session_run(c, log, at),
            discard_session_run(c, log.take(k as int), at),
            at,
            k,
            log.len(),
        ),
{
}

pub proof fn steady_restore_session(c: Config, log: Seq<Reply>, at: nat, k: nat)
    requires
        at <= log.len(),
        k <= log.len(),
    ensures
        agree(
            restore_session_run(c, log, at),
            restore_session_run(c, log.take(k as int), at),
            at,
            k,
            log.len(),
        ),
{
}

pub proof fn steady_hold_session(c: Config, log: Seq<Reply>, at: nat, k: nat)
    requires
        at <= log.len(),
        k <= log.len(),
    ensures
        agree(
            hold_session_run(c, log, at),
            hold_session_run(c, log.take(k as int), at),
            at,
            k,
            log.len(),
        ),
{
}

pub proof fn steady_settle_link(c: Config, log: Seq<Reply>, at: nat, k: nat)
    requires
        at <= log.len(),
        k <= log.len(),
    ensures
        agree(
            settle_link_run(c, log, at),
            settle_link_run(c, log.take(k as int), at),
            at,
            k,
            log.len(),
        ),
{
}

pub proof fn steady_install_link(c: Config, log: Seq<Reply>, at: nat, k: nat)
    requires
        at <= log.len(),
        k <= log.len(),
    ensures
        agree(
            install_link_run(c, log, at),
            install_link_run(c, log.take(k as int), at),
            at,
            k,
            log.len(),
        ),
{
    let temporary = c.session_link_pending_path();
    if let Run::Done(_, n) = remove_run(log, at, temporary) {
        let request = RequestView::Symlink { target: c.active_auth@, link: temporary };
        if let Run::Done(_, m) = done_run(log, n, request) {
            let install = RequestView::LinkIfAbsent { from: temporary, to: c.session_auth@ };
            if let Run::Done(_, j) = flag_run(log, m, install).attempt() {
                if let Run::Done(_, i) = remove_run(log, j, temporary) {
                    steady_settle_link(c, log, i, k);
                }
            }
        }
    }
}

pub proof fn steady_take_link(c: Config, selected: Option<u32>, log: Seq<Reply>, at: nat, k: nat)
    requires
        at <= log.len(),
        k <= log.len(),
    ensures
        agree(
            take_link_run(c, selected, log, at),
            take_link_run(c, selected, log.take(k as int), at),
            at,
            k,
            log.len(),
        ),
{
    steady_hold_session(c, log, at, k);
    if let Run::Done(_, j) = hold_session_run(c, log, at) {
        steady_preserve_session(c, selected, log, j, k);
        match preserve_session_run(c, selected, log, j) {
            Run::Done(_, i) => {
                steady_install_link(c, log, i, k);
            },
            Run::Fail(_, i) => {
                steady_restore_session(c, log, i, k);
            },
            Run::Ask(_) => {},
        }
    }
}

#[verifier::rlimit(80)]
pub proof fn steady_ensure_link(c: Config, selected: Option<u32>, log: Seq<Reply>, at: nat, k: nat)
    requires
        at <= log.len(),
        k <= log.len(),
    ensures
        agree(
            ensure_link_run(c, selected, log, at),
            ensure_link_run(c, selected, log.take(k as int), at),
            at,
            k,
            log.len(),
        ),
{
    if let Run::Done(_, n) = done_run(log, at, RequestView::PrivateDir(c.codex_home@)) {
        steady_preserve_session(c, selected, log, n, k);
        if let Run::Done(_, m) = preserve_session_run(c, selected, log, n) {
            if let Run::Done(linked, j) = flag_run(log, m, RequestView::SessionLinked) {
                steady_discard_session(c, log, j, k);
                steady_take_link(c, selected, log, j, k);
            }
        }
    }
}

pub proof fn steady_check_session(c: Config, t: TransactionView, log: Seq<Reply>, at: nat, k: nat)
    requires
        at <= log.len(),
        k <= log.len(),
    ensures
        agree(
            check_session_run(c, t, log, at),
            check_session_run(c, t, log.take(k as int), at),
            at,
            k,
            log.len(),
        ),
{
    steady_validate_link(c, log, at, k);
    if let Run::Fail(error, n) = validate_link_run(c, log, at) {
        steady_restore_if_held(c, t.hold_active, log, n, k);
        if let Run::Done(_, m) = restore_if_held_run(c, t.hold_active, log, n) {
            steady_cleanup(c, keep_source(t), log, m, k);
        }
    }
}

pub proof fn steady_back_up(c: Config, slot: u32, log: Seq<Reply>, at: nat, k: nat)
    requires
        at <= log.len(),
        k <= log.len(),
    ensures
        agree(
            back_up_run(c, slot, log, at),
            back_up_run(c, slot, log.take(k as int), at),
            at,
            k,
            log.len(),
        ),
{
}

pub proof fn steady_promote(
    c: Config,
    t: TransactionView,
    slot: u32,
    log: Seq<Reply>,
    at: nat,
    k: nat,
)
    requires
        at <= log.len(),
        k <= log.len(),
    ensures
        agree(
            promote_run(c, t, slot, log, at),
            promote_run(c, t, slot, log.take(k as int), at),
            at,
            k,
            log.len(),
        ),
{
    if let Some(pending) = t.profile_pending {
        if let Run::Done(staged, n) = there_run(log, at, pending) {
            let request = RequestView::PrivateDir(c.profile_dir_path(slot));
            if let Run::Done(_, m) = done_run(log, n, request) {
                steady_back_up(c, slot, log, m, k);
            }
        }
    }
}

pub proof fn steady_activate(
    c: Config,
    t: TransactionView,
    slot: u32,
    restored: bool,
    log: Seq<Reply>,
    at: nat,
    k: nat,
)
    requires
        at <= log.len(),
        k <= log.len(),
    ensures
        agree(
            activate_run(c, t, slot, restored, log, at),
            activate_run(c, t, slot, restored, log.take(k as int), at),
            at,
            k,
            log.len(),
        ),
{
    steady_restore_hold(c, log, at, k);
}

pub proof fn steady_undo(
    c: Config,
    t: TransactionView,
    error: ErrorView,
    log: Seq<Reply>,
    at: nat,
    k: nat,
)
    requires
        at <= log.len(),
        k <= log.len(),
    ensures
        agree(
            undo_run(c, t, error, log, at),
            undo_run(c, t, error, log.take(k as int), at),
            at,
            k,
            log.len(),
        ),
{
    steady_rollback_active(c, t, log, at, k);
    if let Run::Done(_, n) = rollback_active_run(c, t, log, at) {
        steady_rollback_profile(c, t, log, n, k);
        if let Run::Done(_, m) = rollback_profile_run(c, t, log, n) {
            steady_restore_if_held(c, t.hold_active, log, m, k);
            if let Run::Done(_, j) = restore_if_held_run(c, t.hold_active, log, m) {
                steady_restore_session(c, log, j, k);
                if let Run::Done(_, i) = restore_session_run(c, log, j) {
                    steady_cleanup(c, keep_source(t), log, i, k);
                }
            }
        }
    }
}

pub proof fn steady_relink(
    c: Config,
    t: TransactionView,
    slot: u32,
    log: Seq<Reply>,
    at: nat,
    k: nat,
)
    requires
        at <= log.len(),
        k <= log.len(),
    ensures
        agree(
            relink_run(c, t, slot, log, at),
            relink_run(c, t, slot, log.take(k as int), at),
            at,
            k,
            log.len(),
        ),
{
    let chosen: Run<Option<u32>> = if t.select {
        Run::Done(Some(slot), at)
    } else {
        selected_run(c, log, at)
    };
    steady_selected(c, log, at, k);
    if let Run::Done(selected, n) = chosen {
        steady_ensure_link(c, selected, log, n, k);
        if let Run::Fail(error, m) = ensure_link_run(c, selected, log, n) {
            steady_undo(c, t, error, log, m, k);
        }
    }
}

pub proof fn steady_blocked(t: TransactionView, log: Seq<Reply>, at: nat, k: nat)
    requires
        at <= log.len(),
        k <= log.len(),
    ensures
        agree(blocked_run(t, log, at), blocked_run(t, log.take(k as int), at), at, k, log.len()),
{
}

// ---------------------------------------------------------------- closed parts

/// `promote_run`, which is not looked into.
#[verifier::opaque]
pub open spec fn promote_part(
    c: Config,
    t: TransactionView,
    slot: u32,
    log: Seq<Reply>,
    at: nat,
) -> Run<()> {
    promote_run(c, t, slot, log, at)
}

pub proof fn steady_promote_part(
    c: Config,
    t: TransactionView,
    slot: u32,
    log: Seq<Reply>,
    at: nat,
    k: nat,
)
    requires
        at <= log.len(),
        k <= log.len(),
    ensures
        agree(
            promote_part(c, t, slot, log, at),
            promote_part(c, t, slot, log.take(k as int), at),
            at,
            k,
            log.len(),
        ),
{
    reveal(promote_part);
    steady_promote(c, t, slot, log, at, k);
}

/// `activate_run`, which is not looked into.
#[verifier::opaque]
pub open spec fn activate_part(
    c: Config,
    t: TransactionView,
    slot: u32,
    restored: bool,
    log: Seq<Reply>,
    at: nat,
) -> Run<()> {
    activate_run(c, t, slot, restored, log, at)
}

pub proof fn steady_activate_part(
    c: Config,
    t: TransactionView,
    slot: u32,
    restored: bool,
    log: Seq<Reply>,
    at: nat,
    k: nat,
)
    requires
        at <= log.len(),
        k <= log.len(),
    ensures
        agree(
            activate_part(c, t, slot, restored, log, at),
            activate_part(c, t, slot, restored, log.take(k as int), at),
            at,
            k,
            log.len(),
        ),
{
    reveal(activate_part);
    steady_activate(c, t, slot, restored, log, at, k);
}

/// `relink_run`, which is not looked into.
#[verifier::opaque]
pub open spec fn relink_part(
    c: Config,
    t: TransactionView,
    slot: u32,
    log: Seq<Reply>,
    at: nat,
) -> Run<()> {
    relink_run(c, t, slot, log, at)
}

pub proof fn steady_relink_part(
    c: Config,
    t: TransactionView,
    slot: u32,
    log: Seq<Reply>,
    at: nat,
    k: nat,
)
    requires
        at <= log.len(),
        k <= log.len(),
    ensures
        agree(
            relink_part(c, t, slot, log, at),
            relink_part(c, t, slot, log.take(k as int), at),
            at,
            k,
            log.len(),
        ),
{
    reveal(relink_part);
    steady_relink(c, t, slot, log, at, k);
}

/// `check_session_run`, which is not looked into.
#[verifier::opaque]
pub open spec fn check_session_part(
    c: Config,
    t: TransactionView,
    log: Seq<Reply>,
    at: nat,
) -> Run<()> {
    check_session_run(c, t, log, at)
}

pub proof fn steady_check_session_part(
    c: Config,
    t: TransactionView,
    log: Seq<Reply>,
    at: nat,
    k: nat,
)
    requires
        at <= log.len(),
        k <= log.len(),
    ensures
        agree(
            check_session_part(c, t, log, at),
            check_session_part(c, t, log.take(k as int), at),
            at,
            k,
            log.len(),
        ),
{
    reveal(check_session_part);
    steady_check_session(c, t, log, at, k);
}

/// `already_restored_run`, which is not looked into.
#[verifier::opaque]
pub open spec fn already_restored_part(
    c: Config,
    t: TransactionView,
    log: Seq<Reply>,
    at: nat,
) -> Run<bool> {
    already_restored_run(c, t, log, at)
}

pub proof fn steady_already_restored_part(
    c: Config,
    t: TransactionView,
    log: Seq<Reply>,
    at: nat,
    k: nat,
)
    requires
        at <= log.len(),
        k <= log.len(),
    ensures
        agree(
            already_restored_part(c, t, log, at),
            already_restored_part(c, t, log.take(k as int), at),
            at,
            k,
            log.len(),
        ),
{
    reveal(already_restored_part);
    steady_already_restored(c, t, log, at, k);
}

/// `preserve_reappeared_run`, which is not looked into.
#[verifier::opaque]
pub open spec fn preserve_reappeared_part(
    c: Config,
    pending: Option<Seq<char>>,
    log: Seq<Reply>,
    at: nat,
) -> Run<()> {
    preserve_reappeared_run(c, pending, log, at)
}

pub proof fn steady_preserve_reappeared_part(
    c: Config,
    pending: Option<Seq<char>>,
    log: Seq<Reply>,
    at: nat,
    k: nat,
)
    requires
        at <= log.len(),
        k <= log.len(),
    ensures
        agree(
            preserve_reappeared_part(c, pending, log, at),
            preserve_reappeared_part(c, pending, log.take(k as int), at),
            at,
            k,
            log.len(),
        ),
{
    reveal(preserve_reappeared_part);
    steady_preserve_reappeared(c, pending, log, at, k);
}

/// `commit_slot_run`, made of parts that are not looked into.
#[verifier::opaque]
pub open spec fn commit_slot_part(
    c: Config,
    t: TransactionView,
    slot: u32,
    restored: bool,
    log: Seq<Reply>,
    at: nat,
) -> Run<()> {
    promote_part(c, t, slot, log, at).next(
        |n: nat|
            activate_part(c, t, slot, restored, log, n).next(
                |m: nat|
                    relink_part(c, t, slot, log, m).next(
                        |k: nat|
                            if t.select {
                                select_run(c, slot, log, k)
                            } else {
                                Run::Done((), k)
                            },
                    ),
            ),
    )
}

proof fn lemma_commit_slot(
    c: Config,
    t: TransactionView,
    slot: u32,
    restored: bool,
    log: Seq<Reply>,
    at: nat,
)
    ensures
        commit_slot_run(c, t, slot, restored, log, at) == commit_slot_part(c, t, slot, restored, log, at),
{
    reveal(promote_part);
    reveal(activate_part);
    reveal(relink_part);
    reveal(commit_slot_part);
}

pub proof fn steady_commit_slot_part(
    c: Config,
    t: TransactionView,
    slot: u32,
    restored: bool,
    log: Seq<Reply>,
    at: nat,
    k: nat,
)
    requires
        at <= log.len(),
        k <= log.len(),
    ensures
        agree(
            commit_slot_part(c, t, slot, restored, log, at),
            commit_slot_part(c, t, slot, restored, log.take(k as int), at),
            at,
            k,
            log.len(),
        ),
{
    reveal(commit_slot_part);
    steady_promote_part(c, t, slot, log, at, k);
    if let Run::Done(_, n) = promote_part(c, t, slot, log, at) {
        steady_activate_part(c, t, slot, restored, log, n, k);
        if let Run::Done(_, m) = activate_part(c, t, slot, restored, log, n) {
            steady_relink_part(c, t, slot, log, m, k);
        }
    }
}

/// `finish_commit_run`, made of parts that are not looked into.
#[verifier::opaque]
pub open spec fn finish_commit_part(
    c: Config,
    t: TransactionView,
    log: Seq<Reply>,
    at: nat,
) -> Run<()> {
    check_session_part(c, t, log, at).next(
        |n: nat|
            already_restored_part(c, t, log, n).bind(
                |restored: bool, m: nat|
                    (if t.hold_active && !restored {
                        preserve_reappeared_part(c, t.profile_pending, log, m)
                    } else {
                        Run::Done((), m)
                    }).next(
                        |k: nat|
                            match t.slot {
                                Some(slot) => commit_slot_part(c, t, slot, restored, log, k),
                                None => Run::Fail(
                                    ErrorView::Message("transaction has no account slot"@),
                                    k,
                                ),
                            },
                    ),
            ),
    )
}

pub proof fn lemma_finish_commit(
    c: Config,
    t: TransactionView,
    log: Seq<Reply>,
    at: nat,
)
    ensures
        finish_commit_run(c, t, log, at) == finish_commit_part(c, t, log, at),
{
    reveal(check_session_part);
    reveal(already_restored_part);
    reveal(preserve_reappeared_part);
    reveal(finish_commit_part);
    if let Some(slot) = t.slot {
        assert forall|restored: bool, n: nat| #[trigger]
            commit_slot_part(c, t, slot, restored, log, n) == commit_slot_run(
                c,
                t,
                slot,
                restored,
                log,
                n,
            ) by {
            lemma_commit_slot(c, t, slot, restored, log, n);
        }
    }
}

pub proof fn steady_finish_commit_part(
    c: Config,
    t: TransactionView,
    log: Seq<Reply>,
    at: nat,
    k: nat,
)
    requires
        at <= log.len(),
        k <= log.len(),
    ensures
        agree(
            finish_commit_part(c, t, log, at),
            finish_commit_part(c, t, log.take(k as int), at),
            at,
            k,
            log.len(),
        ),
{
    reveal(finish_commit_part);
    steady_check_session_part(c, t, log, at, k);
    if let Run::Done(_, n) = check_session_part(c, t, log, at) {
        steady_already_restored_part(c, t, log, n, k);
        if let Run::Done(restored, m) = already_restored_part(c, t, log, n) {
            steady_preserve_reappeared_part(c, t.profile_pending, log, m, k);
            if let Some(slot) = t.slot {
                steady_commit_slot_part(c, t, slot, restored, log, m, k);
                if let Run::Done(_, j) = preserve_reappeared_part(
                    c,
                    t.profile_pending,
                    log,
                    m,
                ) {
                    steady_commit_slot_part(c, t, slot, restored, log, j, k);
                }
            }
        }
    }
}

/// `save_refreshed_run`, made of parts that are not looked into.
#[verifier::opaque]
pub open spec fn save_refreshed_part(
    c: Config,
    t: TransactionView,
    source: Seq<char>,
    slot: u32,
    log: Seq<Reply>,
    at: nat,
) -> Run<bool> {
    copy_run(log, at, source, c.profile_pending_path(slot)).next(
        |n: nat|
            record_run(c, refresh_commit(c, t, slot), log, n).next(
                |m: nat|
                    finish_commit_part(c, refresh_commit(c, t, slot), log, m).next(
                        |k: nat| Run::Done(true, k),
                    ),
            ),
    )
}

proof fn lemma_save_refreshed(
    c: Config,
    t: TransactionView,
    source: Seq<char>,
    slot: u32,
    log: Seq<Reply>,
    at: nat,
)
    ensures
        save_refreshed_run(c, t, source, slot, log, at) == save_refreshed_part(c, t, source, slot, log, at),
{
    reveal(save_refreshed_part);
    let commit = refresh_commit(c, t, slot);
    assert forall|n: nat| #[trigger]
        finish_commit_part(c, commit, log, n) == finish_commit_run(c, commit, log, n) by {
        lemma_finish_commit(c, commit, log, n);
    }
}

pub proof fn steady_save_refreshed_part(
    c: Config,
    t: TransactionView,
    source: Seq<char>,
    slot: u32,
    log: Seq<Reply>,
    at: nat,
    k: nat,
)
    requires
        at <= log.len(),
        k <= log.len(),
    ensures
        agree(
            save_refreshed_part(c, t, source, slot, log, at),
            save_refreshed_part(c, t, source, slot, log.take(k as int), at),
            at,
            k,
            log.len(),
        ),
{
    reveal(save_refreshed_part);
    let commit = refresh_commit(c, t, slot);
    if let Run::Done(_, n) = copy_run(log, at, source, c.profile_pending_path(slot)) {
        if let Run::Done(_, m) = record_run(c, commit, log, n) {
            steady_finish_commit_part(c, commit, log, m, k);
        }
    }
}

/// `leave_run`, which is not looked into.
#[verifier::opaque]
pub open spec fn leave_part(
    c: Config,
    t: TransactionView,
    cleanup: bool,
    log: Seq<Reply>,
    at: nat,
) -> Run<bool> {
    leave_run(c, t, cleanup, log, at)
}

pub proof fn steady_leave_part(
    c: Config,
    t: TransactionView,
    cleanup: bool,
    log: Seq<Reply>,
    at: nat,
    k: nat,
)
    requires
        at <= log.len(),
        k <= log.len(),
    ensures
        agree(
            leave_part(c, t, cleanup, log, at),
            leave_part(c, t, cleanup, log.take(k as int), at),
            at,
            k,
            log.len(),
        ),
{
    reveal(leave_part);
    steady_restore_if_held(c, t.hold_active, log, at, k);
}

/// `recover_refresh_run`, made of parts that are not looked into.
#[verifier::opaque]
pub open spec fn recover_refresh_part(
    c: Config,
    t: TransactionView,
    log: Seq<Reply>,
    at: nat,
) -> Run<bool> {
    match t.recovery_source {
        None => leave_part(c, t, true, log, at),
        Some(source) => auth_if_valid_run(log, at, source).bind(
            |found: Option<AuthDocument>, n: nat|
                match found {
                    None => leave_part(c, t, true, log, n),
                    Some(fresh) => match t.slot {
                        Some(slot) => auth_run(log, n, c.profile_auth_path(slot)).bind(
                            |stored: AuthDocument, m: nat|
                                if !fresh@.identity.same_account(stored@.identity) {
                                    leave_part(c, t, !staged_enrollment(source), log, m)
                                } else if fresh@.same_credentials(stored@) {
                                    leave_part(c, t, true, log, m)
                                } else {
                                    save_refreshed_part(c, t, source, slot, log, m)
                                },
                        ),
                        None => slot_for_run(fresh@.identity, log, n).bind(
                            |known: Option<u32>, m: nat|
                                match known {
                                    Some(_) => leave_part(c, t, false, log, m),
                                    None => next_slot_run(c, log, m).bind(
                                        |slot: u32, k: nat|
                                            save_refreshed_part(c, t, source, slot, log, k),
                                    ),
                                },
                        ),
                    },
                },
        ),
    }
}

pub proof fn lemma_recover_refresh(
    c: Config,
    t: TransactionView,
    log: Seq<Reply>,
    at: nat,
)
    ensures
        recover_refresh_run(c, t, log, at) == recover_refresh_part(c, t, log, at),
{
    reveal(recover_refresh_part);
    reveal(leave_part);
    if let Some(source) = t.recovery_source {
        assert forall|slot: u32, n: nat| #[trigger]
            save_refreshed_part(c, t, source, slot, log, n) == save_refreshed_run(
                c,
                t,
                source,
                slot,
                log,
                n,
            ) by {
            lemma_save_refreshed(c, t, source, slot, log, n);
        }
    }
}

pub proof fn steady_recover_refresh_part(
    c: Config,
    t: TransactionView,
    log: Seq<Reply>,
    at: nat,
    k: nat,
)
    requires
        at <= log.len(),
        k <= log.len(),
    ensures
        agree(
            recover_refresh_part(c, t, log, at),
            recover_refresh_part(c, t, log.take(k as int), at),
            at,
            k,
            log.len(),
        ),
{
    reveal(recover_refresh_part);
    steady_leave_part(c, t, true, log, at, k);
    if let Some(source) = t.recovery_source {
        if let Run::Done(found, n) = auth_if_valid_run(log, at, source) {
            steady_leave_part(c, t, true, log, n, k);
            if let Some(fresh) = found {
                match t.slot {
                    Some(slot) => {
                        if let Run::Done(stored, m) = auth_run(log, n, c.profile_auth_path(slot)) {
                            steady_leave_part(c, t, !staged_enrollment(source), log, m, k);
                            steady_leave_part(c, t, true, log, m, k);
                            steady_save_refreshed_part(c, t, source, slot, log, m, k);
                        }
                    },
                    None => {
                        steady_slot_for(fresh@.identity, log, n, k);
                        if let Run::Done(known, m) = slot_for_run(fresh@.identity, log, n) {
                            steady_leave_part(c, t, false, log, m, k);
                            steady_next_slot(c, log, m, k);
                            if let Run::Done(slot, j) = next_slot_run(c, log, m) {
                                steady_save_refreshed_part(c, t, source, slot, log, j, k);
                            }
                        }
                    },
                }
            }
        }
    }
}

/// The part of taking a transaction up that depends on its kind: whether its source can go.
#[verifier::opaque]
pub open spec fn taken_up_part(
    c: Config,
    t: TransactionView,
    log: Seq<Reply>,
    at: nat,
) -> Run<bool> {
    match t.mode {
        TransactionMode::Rollback => leave_part(c, t, true, log, at),
        TransactionMode::Refreshing => recover_refresh_part(c, t, log, at),
        TransactionMode::Commit => finish_commit_part(c, t, log, at).next(
            |m: nat| Run::Done(true, m),
        ),
    }
}

pub proof fn steady_taken_up_part(
    c: Config,
    t: TransactionView,
    log: Seq<Reply>,
    at: nat,
    k: nat,
)
    requires
        at <= log.len(),
        k <= log.len(),
    ensures
        agree(
            taken_up_part(c, t, log, at),
            taken_up_part(c, t, log.take(k as int), at),
            at,
            k,
            log.len(),
        ),
{
    reveal(taken_up_part);
    match t.mode {
        TransactionMode::Rollback => {
            steady_leave_part(c, t, true, log, at, k);
        },
        TransactionMode::Refreshing => {
            steady_recover_refresh_part(c, t, log, at, k);
        },
        TransactionMode::Commit => {
            steady_finish_commit_part(c, t, log, at, k);
        },
    }
}

/// The end of taking a transaction up.
#[verifier::opaque]
pub open spec fn end_part(
    c: Config,
    t: TransactionView,
    cleanup: bool,
    log: Seq<Reply>,
    at: nat,
) -> Run<()> {
    if cleanup {
        cleanup_run(c, t, log, at)
    } else {
        remove_run(log, at, c.transaction_path())
    }
}

/// Taking a transaction up, made of parts that are not looked into.
pub proof fn lemma_resume(
    c: Config,
    t: TransactionView,
    log: Seq<Reply>,
    at: nat,
)
    ensures
        resume_run(c, t, log, at) == blocked_run(t, log, at).bind(
            |blocked: bool, n: nat|
                if blocked {
                    Run::Fail(ErrorView::RecoveryDeferred, n)
                } else {
                    taken_up_part(c, t, log, n).bind(
                        |cleanup: bool, m: nat| end_part(c, t, cleanup, log, m),
                    )
                },
        ),
{
    reveal(taken_up_part);
    reveal(leave_part);
    reveal(end_part);
    assert forall|n: nat| #[trigger]
        finish_commit_part(c, t, log, n) == finish_commit_run(c, t, log, n) by {
        lemma_finish_commit(c, t, log, n);
    }
    assert forall|n: nat| #[trigger]
        recover_refresh_part(c, t, log, n) == recover_refresh_run(c, t, log, n) by {
        lemma_recover_refresh(c, t, log, n);
    }
}

/// `resume_run`, made of parts that are not looked into.
#[verifier::opaque]
pub open spec fn resume_part(c: Config, t: TransactionView, log: Seq<Reply>, at: nat) -> Run<()> {
    blocked_run(t, log, at).bind(
        |blocked: bool, n: nat|
            if blocked {
                Run::Fail(ErrorView::RecoveryDeferred, n)
            } else {
                taken_up_part(c, t, log, n).bind(
                    |cleanup: bool, m: nat| end_part(c, t, cleanup, log, m),
                )
            },
    )
}

pub proof fn lemma_resume_part(c: Config, t: TransactionView, log: Seq<Reply>, at: nat)
    ensures
        resume_run(c, t, log, at) == resume_part(c, t, log, at),
{
    reveal(resume_part);
    lemma_resume(c, t, log, at);
}

proof fn steady_end_part(
    c: Config,
    t: TransactionView,
    cleanup: bool,
    log: Seq<Reply>,
    at: nat,
    k: nat,
)
    requires
        at <= log.len(),
        k <= log.len(),
    ensures
        agree(
            end_part(c, t, cleanup, log, at),
            end_part(c, t, cleanup, log.take(k as int), at),
            at,
            k,
            log.len(),
        ),
{
    reveal(end_part);
    if cleanup {
        steady_cleanup(c, t, log, at, k);
    }
}

pub proof fn steady_resume_part(c: Config, t: TransactionView, log: Seq<Reply>, at: nat, k: nat)
    requires
        at <= log.len(),
        k <= log.len(),
    ensures
        agree(
            resume_part(c, t, log, at),
            resume_part(c, t, log.take(k as int), at),
            at,
            k,
            log.len(),
        ),
{
    reveal(resume_part);
    steady_blocked(t, log, at, k);
    if let Run::Done(blocked, n) = blocked_run(t, log, at) {
        steady_taken_up_part(c, t, log, n, k);
        if let Run::Done(cleanup, m) = taken_up_part(c, t, log, n) {
            steady_end_part(c, t, cleanup, log, m, k);
        }
    }
}

/// `recover_run`, made of parts that are not looked into.
#[verifier::opaque]
pub open spec fn recover_part(c: Config, log: Seq<Reply>, at: nat) -> Run<()> {
    there_run(log, at, c.transaction_path()).bind(
        |there: bool, n: nat|
            if there {
                state_run(log, n, c.transaction_path()).bind(
                    |t: TransactionState, m: nat| resume_part(c, t@, log, m),
                )
            } else {
                Run::Done((), n)
            },
    )
}

pub proof fn lemma_recover_part(c: Config, log: Seq<Reply>, at: nat)
    ensures
        recover_run(c, log, at) == recover_part(c, log, at),
{
    reveal(recover_part);
    assert forall|t: TransactionView, n: nat| #[trigger]
        resume_part(c, t, log, n) == resume_run(c, t, log, n) by {
        lemma_resume_part(c, t, log, n);
    }
}

pub proof fn steady_recover_part(c: Config, log: Seq<Reply>, at: nat, k: nat)
    requires
        at <= log.len(),
        k <= log.len(),
    ensures
        agree(
            recover_part(c, log, at),
            recover_part(c, log.take(k as int), at),
            at,
            k,
            log.len(),
        ),
{
    reveal(recover_part);
    if let Run::Done(there, n) = there_run(log, at, c.transaction_path()) {
        if let Run::Done(t, m) = state_run(log, n, c.transaction_path()) {
            steady_resume_part(c, t@, log, m, k);
        }
    }
}

}
