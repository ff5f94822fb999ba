//! How a recorded change is carried out, and taken back, step by step.
use crate::account_store::{selected_run, TransactionView};
use crate::auth::{AuthDocument, AuthView};
use crate::config::Config;
use crate::effects::{Reply, RequestView, Run};
use crate::error::ErrorView;
use crate::paths::{joined, parts_of};
use crate::session::restore_session_run;
use crate::transaction::{
    activate_run, already_restored_run, back_up_run, claim_run, cleanup_held_run, cleanup_run,
    cleanup_source_run, cleanup_staged_run, commit_slot_run, finish_commit_run, generated_run,
    give_back_run, installed_run, merge_staged_run, preserve_reappeared_run, promote_run,
    promoted_run, put_back_run, put_newer_run, release_claimed_run, relink_run, replace_lost_run,
    restore_if_held_run, rollback_active_run, rollback_profile_run, save_to_run,
    settle_pending_run, take_back_run, undo_run, update_selected_run,
};
use vstd::prelude::*;

verus! {

// ---------------------------------------------------------------- carrying out

/// Staged credentials are copied to their account after what was saved there has been kept, once.
pub proof fn law_staged_credentials_are_promoted(
    c: Config,
    t: TransactionView,
    slot: u32,
    pending: Seq<char>,
    log: Seq<Reply>,
    at: nat,
)
    requires
        t.profile_pending == Some(pending),
    ensures
        log.len() == at ==> promote_run(c, t, slot, log, at) == Run::<()>::Ask(
            RequestView::Exists(pending),
        ),
        log.len() > at && log[at as int] == Reply::Flag(false) ==> promote_run(c, t, slot, log, at)
            == Run::Done((), at + 1),
        log.len() == at + 1 && log[at as int] == Reply::Flag(true) ==> promote_run(
            c,
            t,
            slot,
            log,
            at,
        ) == Run::<()>::Ask(RequestView::PrivateDir(c.profile_dir_path(slot))),
        log.len() == at + 3 && log[at as int] == Reply::Flag(true) && log[at as int + 1]
            == Reply::Done && log[at as int + 2] == Reply::Flag(false) ==> promote_run(
            c,
            t,
            slot,
            log,
            at,
        ) == Run::<()>::Ask(RequestView::Copy { from: pending, to: c.profile_auth_path(slot) }),
{
}

/// What is saved of an account is kept before it is replaced, unless something is kept of it already.
pub proof fn law_saved_credentials_are_kept_once(c: Config, slot: u32, log: Seq<Reply>, at: nat)
    ensures
        log.len() == at ==> back_up_run(c, slot, log, at) == Run::<()>::Ask(
            RequestView::Exists(c.profile_auth_path(slot)),
        ),
        log.len() > at && log[at as int] == Reply::Flag(false) ==> back_up_run(c, slot, log, at)
            == Run::Done((), at + 1),
        log.len() > at + 1 && log[at as int] == Reply::Flag(true) && log[at as int + 1]
            == Reply::Flag(true) ==> back_up_run(c, slot, log, at) == Run::Done((), at + 2),
        log.len() == at + 2 && log[at as int] == Reply::Flag(true) && log[at as int + 1]
            == Reply::Flag(false) ==> back_up_run(c, slot, log, at) == Run::<()>::Ask(
            RequestView::Copy { from: c.profile_auth_path(slot), to: c.profile_backup_path(slot) },
        ),
{
}

/// An account is made the active one by a copy of what is saved of it; where the active credentials are
/// held, never over something that has come in their place. Where it is not, what is held goes back.
pub proof fn law_how_an_account_becomes_active(
    c: Config,
    t: TransactionView,
    slot: u32,
    restored: bool,
    log: Seq<Reply>,
    at: nat,
)
    requires
        log.len() == at,
    ensures
        t.activate && t.hold_active ==> activate_run(c, t, slot, restored, log, at) == Run::<
            (),
        >::Ask(
            RequestView::CopyIfAbsent { from: c.profile_auth_path(slot), to: c.active_auth@ },
        ),
        t.activate && !t.hold_active ==> activate_run(c, t, slot, restored, log, at) == Run::<
            (),
        >::Ask(RequestView::Copy { from: c.profile_auth_path(slot), to: c.active_auth@ }),
        !t.activate && t.hold_active && !restored ==> activate_run(c, t, slot, restored, log, at)
            == Run::<()>::Ask(RequestView::Exists(c.active_hold_path())),
        !t.activate && (!t.hold_active || restored) ==> activate_run(c, t, slot, restored, log, at)
            == Run::Done((), at),
{
}

/// An account is selected only where the change says so, and last.
pub proof fn law_an_account_is_selected_last(
    c: Config,
    t: TransactionView,
    slot: u32,
    restored: bool,
    log: Seq<Reply>,
    at: nat,
    n: nat,
    m: nat,
)
    requires
        promote_run(c, t, slot, log, at) == Run::Done((), n),
        activate_run(c, t, slot, restored, log, n) == Run::Done((), m),
        relink_run(c, t, slot, log, m) == Run::Done((), log.len()),
    ensures
        t.select ==> commit_slot_run(c, t, slot, restored, log, at) == Run::<()>::Ask(
            RequestView::Write {
                path: c.active_profile@,
                bytes: crate::account_store::selection_line(slot),
            },
        ),
        !t.select ==> commit_slot_run(c, t, slot, restored, log, at) == Run::Done((), log.len()),
{
}

/// A session is linked only where the change says so.
pub proof fn law_a_session_is_linked_where_wanted(
    c: Config,
    t: TransactionView,
    slot: u32,
    log: Seq<Reply>,
    at: nat,
)
    requires
        log.len() == at,
    ensures
        !t.link_session ==> relink_run(c, t, slot, log, at) == Run::Done((), at),
        t.link_session && t.select ==> relink_run(c, t, slot, log, at) == Run::<()>::Ask(
            RequestView::PrivateDir(c.codex_home@),
        ),
        t.link_session && !t.select ==> relink_run(c, t, slot, log, at) == Run::<()>::Ask(
            RequestView::ReadText(c.active_profile@),
        ),
{
}

// ---------------------------------------------------------------- late writers

/// Credentials that have come into the place of the held ones are moved aside, not copied.
pub proof fn law_late_credentials_are_moved_aside(c: Config, log: Seq<Reply>, at: nat)
    ensures
        log.len() == at ==> claim_run(c, log, at) == Run::<bool>::Ask(
            RequestView::Claim { from: c.active_auth@, to: c.active_reappeared_path() },
        ),
        log.len() > at && log[at as int] == Reply::Flag(false) ==> claim_run(c, log, at)
            == Run::Done(false, at + 1),
        log.len() > at + 1 && log[at as int] == Reply::Flag(true) && log[at as int + 1]
            == Reply::Done ==> claim_run(c, log, at) == Run::Done(true, at + 2),
        log.len() == at ==> preserve_reappeared_run(c, None, log, at) == Run::<()>::Ask(
            RequestView::Exists(c.active_reappeared_path()),
        ),
        log.len() > at + 1 && log[at as int] == Reply::Flag(false) && log[at as int + 1]
            == Reply::Flag(false) ==> preserve_reappeared_run(c, None, log, at) == Run::Done(
            (),
            at + 2,
        ),
        log.len() == at + 1 && log[at as int] == Reply::Flag(true) ==> preserve_reappeared_run(
            c,
            None,
            log,
            at,
        ) == Run::<()>::Ask(RequestView::ReadAuth(c.active_reappeared_path())),
{
}

/// Late credentials of the account that is staged are kept there, where they are newer; those of another
/// account are not.
pub proof fn law_late_credentials_may_be_the_staged_ones(
    c: Config,
    pending: Seq<char>,
    active: AuthView,
    log: Seq<Reply>,
    at: nat,
    staged: AuthDocument,
)
    requires
        log.len() == at + 2,
        log[at as int + 1] == Reply::Auth(staged),
    ensures
        log[at as int] == Reply::Flag(false) ==> merge_staged_run(c, Some(pending), active, log, at)
            == Run::Done(false, at + 1),
        log[at as int] == Reply::Flag(true) && (active.identity.account_id
            != staged@.identity.account_id || active.identity.user_id != staged@.identity.user_id)
            ==> merge_staged_run(c, Some(pending), active, log, at) == Run::Done(false, at + 2),
        log[at as int] == Reply::Flag(true) && active.identity.account_id
            == staged@.identity.account_id && active.identity.user_id == staged@.identity.user_id
            && active.newer(staged@) ==> merge_staged_run(c, Some(pending), active, log, at)
            == Run::<bool>::Ask(
            RequestView::Copy { from: c.active_reappeared_path(), to: pending },
        ),
        merge_staged_run(c, None, active, log, at) == Run::Done(false, at),
{
}

/// Late credentials are saved for an account: over what is saved of it where they are newer, and as a
/// new account where nothing is.
pub proof fn law_late_credentials_are_saved(
    c: Config,
    active: AuthView,
    slot: u32,
    log: Seq<Reply>,
    at: nat,
    stored: AuthDocument,
)
    ensures
        log.len() == at ==> save_to_run(c, active, slot, log, at) == Run::<()>::Ask(
            RequestView::Exists(c.profile_auth_path(slot)),
        ),
        log.len() == at + 2 && log[at as int] == Reply::Flag(true) && log[at as int + 1]
            == Reply::Auth(stored) && active.newer(stored@) ==> save_to_run(
            c,
            active,
            slot,
            log,
            at,
        ) == Run::<()>::Ask(
            RequestView::Copy { from: c.active_reappeared_path(), to: c.profile_auth_path(slot) },
        ),
        log.len() == at + 2 && log[at as int] == Reply::Flag(true) && log[at as int + 1]
            == Reply::Auth(stored) && stored@.newer(active) ==> save_to_run(
            c,
            active,
            slot,
            log,
            at,
        ) == Run::Done((), at + 2),
        log.len() == at + 1 && log[at as int] == Reply::Flag(false) ==> save_to_run(
            c,
            active,
            slot,
            log,
            at,
        ) == Run::<()>::Ask(RequestView::PrivateDir(c.profile_dir_path(slot))),
        log.len() == at + 2 && log[at as int] == Reply::Flag(false) && log[at as int + 1]
            == Reply::Done ==> save_to_run(c, active, slot, log, at) == Run::<()>::Ask(
            RequestView::Copy { from: c.active_reappeared_path(), to: c.profile_auth_path(slot) },
        ),
{
}

/// Late credentials are let go of once they are saved; where others have come meanwhile, it is put
/// off.
pub proof fn law_saved_late_credentials_are_let_go(c: Config, log: Seq<Reply>, at: nat)
    ensures
        log.len() == at ==> release_claimed_run(c, log, at) == Run::<()>::Ask(
            RequestView::Remove(c.active_reappeared_path()),
        ),
        log.len() > at + 1 && log[at as int] == Reply::Done && log[at as int + 1] == Reply::Flag(
            true,
        ) ==> release_claimed_run(c, log, at) == Run::<()>::Fail(
            ErrorView::RecoveryDeferred,
            at + 2,
        ),
        log.len() > at + 1 && log[at as int] == Reply::Done && log[at as int + 1] == Reply::Flag(
            false,
        ) ==> release_claimed_run(c, log, at) == Run::Done((), at + 2),
{
}

// ---------------------------------------------------------------- giving back

/// What is held goes back as it is, unless what is saved of its account is newer: then that goes back.
pub proof fn law_the_newest_goes_back(
    c: Config,
    held: AuthView,
    slot: u32,
    log: Seq<Reply>,
    at: nat,
    profile: AuthDocument,
)
    requires
        log.len() == at + 1,
        log[at as int] == Reply::Auth(profile),
    ensures
        held.identity.account_id != profile@.identity.account_id || held.identity.user_id
            != profile@.identity.user_id ==> give_back_run(c, held, Some(slot), log, at) == Run::<
            bool,
        >::Ask(RequestView::CopyIfAbsent { from: c.active_hold_path(), to: c.active_auth@ }),
        held.identity.account_id == profile@.identity.account_id && held.identity.user_id
            == profile@.identity.user_id && profile@.newer(held) ==> give_back_run(
            c,
            held,
            Some(slot),
            log,
            at,
        ) == Run::<bool>::Ask(
            RequestView::CopyIfAbsent { from: c.profile_auth_path(slot), to: c.active_auth@ },
        ),
        held.identity.account_id == profile@.identity.account_id && held.identity.user_id
            == profile@.identity.user_id && held.newer(profile@) && !profile@.newer(held)
            ==> give_back_run(c, held, Some(slot), log, at) == Run::<bool>::Ask(
            RequestView::Copy { from: c.active_hold_path(), to: c.profile_auth_path(slot) },
        ),
{
}

/// What is held is removed only once it is back.
pub proof fn law_a_hold_ends_after_its_return(c: Config, slot: u32, log: Seq<Reply>, at: nat)
    requires
        log.len() == at + 1,
    ensures
        log[at as int] == Reply::Flag(true) ==> put_back_run(c, log, at) == Run::<bool>::Ask(
            RequestView::Remove(c.active_hold_path()),
        ) && put_newer_run(c, slot, log, at) == Run::<bool>::Ask(
            RequestView::Remove(c.active_hold_path()),
        ),
        log[at as int] == Reply::Flag(false) ==> put_back_run(c, log, at) == Run::<bool>::Fail(
            ErrorView::RecoveryDeferred,
            at + 1,
        ) && put_newer_run(c, slot, log, at) == Run::<bool>::Fail(
            ErrorView::RecoveryDeferred,
            at + 1,
        ),
{
}

/// Credentials that were put elsewhere because they could not be used are removed only once others are
/// in their place.
pub proof fn law_unusable_credentials_are_removed_last(c: Config, log: Seq<Reply>, at: nat)
    ensures
        log.len() == at ==> settle_pending_run(c, log, at) == Run::<()>::Ask(
            RequestView::Exists(c.active_pending_path()),
        ),
        log.len() > at + 1 && log[at as int] == Reply::Flag(true) && log[at as int + 1]
            == Reply::Flag(false) ==> settle_pending_run(c, log, at) == Run::<()>::Fail(
            ErrorView::RecoveryDeferred,
            at + 2,
        ),
        log.len() == at + 2 && log[at as int] == Reply::Flag(true) && log[at as int + 1]
            == Reply::Flag(true) ==> settle_pending_run(c, log, at) == Run::<()>::Ask(
            RequestView::Remove(c.active_pending_path()),
        ),
{
}

/// Where nothing is held any more, unusable credentials are elsewhere and nothing is in their place, the
/// saved credentials of the selected account take it.
pub proof fn law_lost_credentials_are_replaced(
    c: Config,
    log: Seq<Reply>,
    at: nat,
    slot: u32,
    n: nat,
    saved: bool,
)
    ensures
        log.len() > at && log[at as int] == Reply::Flag(true) ==> replace_lost_run(c, log, at)
            == Run::Done((), at + 1),
        log.len() > at + 1 && log[at as int] == Reply::Flag(false) && log[at as int + 1]
            == Reply::Flag(false) ==> replace_lost_run(c, log, at) == Run::Done((), at + 2),
        log.len() > at + 2 && log[at as int] == Reply::Flag(false) && log[at as int + 1]
            == Reply::Flag(true) && log[at as int + 2] == Reply::Flag(true) ==> replace_lost_run(
            c,
            log,
            at,
        ) == Run::Done((), at + 3),
        log.len() > at + 2 && log[at as int] == Reply::Flag(false) && log[at as int + 1]
            == Reply::Flag(true) && log[at as int + 2] == Reply::Flag(false) && selected_run(
            c,
            log,
            at + 3,
        ) == Run::Done(Some(slot), n) && log.len() == n + 1 && log[n as int] == Reply::Flag(saved)
            ==> replace_lost_run(c, log, at) == Run::<()>::Ask(
            RequestView::CopyIfAbsent {
                from: if saved {
                    c.profile_auth_path(slot)
                } else {
                    c.active_pending_path()
                },
                to: c.active_auth@,
            },
        ),
{
}

/// Active credentials that are back already are only brought into line with the selected account, where
/// they are of it.
pub proof fn law_credentials_may_be_back_already(
    c: Config,
    t: TransactionView,
    slot: u32,
    log: Seq<Reply>,
    at: nat,
    active: AuthDocument,
    profile: AuthDocument,
)
    ensures
        t.activate || !t.hold_active ==> already_restored_run(c, t, log, at) == Run::Done(
            false,
            at,
        ),
        !t.activate && t.hold_active && log.len() > at && log[at as int] == Reply::Flag(true)
            ==> already_restored_run(c, t, log, at) == Run::Done(false, at + 1),
        !t.activate && t.hold_active && log.len() > at + 1 && log[at as int] == Reply::Flag(false)
            && log[at as int + 1] == Reply::Flag(false) ==> already_restored_run(c, t, log, at)
            == Run::Done(false, at + 2),
        log.len() == at + 2 && log[at as int] == Reply::Auth(active) && log[at as int + 1]
            == Reply::Auth(profile) ==> ({
            &&& active@.identity.account_id != profile@.identity.account_id
                || active@.identity.user_id != profile@.identity.user_id ==> update_selected_run(
                c,
                slot,
                log,
                at,
            ) == Run::Done(false, at + 2)
            &&& active@.identity.account_id == profile@.identity.account_id
                && active@.identity.user_id == profile@.identity.user_id && active@.newer(profile@)
                ==> update_selected_run(c, slot, log, at) == Run::<bool>::Ask(
                RequestView::Copy { from: c.active_auth@, to: c.profile_auth_path(slot) },
            )
            &&& active@.identity.account_id == profile@.identity.account_id
                && active@.identity.user_id == profile@.identity.user_id && profile@.newer(active@)
                && !active@.newer(profile@) ==> update_selected_run(c, slot, log, at) == Run::Done(
                true,
                at + 2,
            )
        }),
{
}

// ---------------------------------------------------------------- taking back

/// Active credentials are taken back only where they are the ones that the change has put there.
pub proof fn law_only_the_changes_own_credentials_are_taken_back(
    c: Config,
    t: TransactionView,
    slot: u32,
    log: Seq<Reply>,
    at: nat,
    active: AuthDocument,
    promoted: AuthDocument,
)
    requires
        t.profile_pending is None,
        t.slot == Some(slot),
    ensures
        !t.activate ==> rollback_active_run(c, t, log, at) == Run::Done((), at),
        t.activate && log.len() > at && log[at as int] == Reply::Flag(false)
            ==> rollback_active_run(c, t, log, at) == Run::Done((), at + 1),
        t.activate && log.len() == at + 3 && log[at as int] == Reply::Flag(true) && log[at as int
            + 1] == Reply::Auth(active) && log[at as int + 2] == Reply::Auth(promoted) ==> (
        if active@.same_credentials(promoted@) {
            rollback_active_run(c, t, log, at) == Run::<()>::Ask(
                RequestView::Remove(c.active_auth@),
            )
        } else {
            rollback_active_run(c, t, log, at) == Run::<()>::Fail(
                ErrorView::RecoveryDeferred,
                at + 3,
            )
        }),
{
}

/// What the change has put there is what it had staged, or else what is saved of its account.
pub proof fn law_what_a_change_has_put_there(
    c: Config,
    t: TransactionView,
    slot: u32,
    pending: Seq<char>,
    log: Seq<Reply>,
    at: nat,
)
    requires
        log.len() > at,
        t.slot == Some(slot),
    ensures
        t.profile_pending == Some(pending) && log[at as int] == Reply::Flag(true) ==> installed_run(
            c,
            t,
            log,
            at,
        ) == Run::Done(pending, at + 1),
        t.profile_pending == Some(pending) && log[at as int] == Reply::Flag(false)
            ==> installed_run(c, t, log, at) == Run::Done(c.profile_auth_path(slot), at + 1),
        t.profile_pending is None ==> installed_run(c, t, log, at) == Run::Done(
            c.profile_auth_path(slot),
            at,
        ),
{
}

/// What is saved of an account is taken back where it is what was staged, or is gone; where it is what
/// was kept, it is back; anything else is left.
pub proof fn law_when_a_saved_account_is_taken_back(
    c: Config,
    slot: u32,
    pending: Seq<char>,
    log: Seq<Reply>,
    at: nat,
    current: AuthDocument,
    staged: AuthDocument,
    kept: AuthDocument,
)
    ensures
        log.len() > at && log[at as int] == Reply::Flag(false) ==> promoted_run(
            c,
            slot,
            pending,
            log,
            at,
        ) == Run::Done(true, at + 1),
        log.len() > at + 2 && log[at as int] == Reply::Flag(true) && log[at as int + 1]
            == Reply::Auth(current) && log[at as int + 2] == Reply::Auth(staged)
            && current@.same_credentials(staged@) ==> promoted_run(c, slot, pending, log, at)
            == Run::Done(true, at + 3),
        log.len() > at + 3 && log[at as int] == Reply::Flag(true) && log[at as int + 1]
            == Reply::Auth(current) && log[at as int + 2] == Reply::Auth(staged)
            && !current@.same_credentials(staged@) && log[at as int + 3] == Reply::Flag(false)
            ==> promoted_run(c, slot, pending, log, at) == Run::<bool>::Fail(
            ErrorView::RecoveryDeferred,
            at + 4,
        ),
        log.len() > at + 4 && log[at as int] == Reply::Flag(true) && log[at as int + 1]
            == Reply::Auth(current) && log[at as int + 2] == Reply::Auth(staged)
            && !current@.same_credentials(staged@) && log[at as int + 3] == Reply::Flag(true)
            && log[at as int + 4] == Reply::Auth(kept) ==> (if current@.same_credentials(kept@) {
            promoted_run(c, slot, pending, log, at) == Run::Done(false, at + 5)
        } else {
            promoted_run(c, slot, pending, log, at) == Run::<bool>::Fail(
                ErrorView::RecoveryDeferred,
                at + 5,
            )
        }),
{
}

/// What was kept of an account is put back; an account of which nothing was kept is removed.
pub proof fn law_how_a_saved_account_is_taken_back(c: Config, slot: u32, log: Seq<Reply>, at: nat)
    ensures
        log.len() == at ==> take_back_run(c, slot, log, at) == Run::<()>::Ask(
            RequestView::Exists(c.profile_backup_path(slot)),
        ),
        log.len() == at + 1 && log[at as int] == Reply::Flag(true) ==> take_back_run(
            c,
            slot,
            log,
            at,
        ) == Run::<()>::Ask(
            RequestView::Copy { from: c.profile_backup_path(slot), to: c.profile_auth_path(slot) },
        ),
        log.len() == at + 2 && log[at as int] == Reply::Flag(false) && log[at as int + 1]
            == Reply::Flag(true) ==> take_back_run(c, slot, log, at) == Run::<()>::Ask(
            RequestView::Remove(c.profile_auth_path(slot)),
        ),
        log.len() > at + 1 && log[at as int] == Reply::Flag(false) && log[at as int + 1]
            == Reply::Flag(false) ==> take_back_run(c, slot, log, at) == Run::Done((), at + 2),
{
}

/// Nothing is taken back of an account where nothing was staged for it; where what was staged is gone,
/// it is put off.
pub proof fn law_what_was_staged_is_needed_to_take_back(
    c: Config,
    t: TransactionView,
    slot: u32,
    pending: Seq<char>,
    log: Seq<Reply>,
    at: nat,
)
    requires
        log.len() > at,
    ensures
        t.profile_pending is None ==> rollback_profile_run(c, t, log, at) == Run::Done((), at),
        t.profile_pending == Some(pending) && t.slot == Some(slot) && log[at as int] == Reply::Flag(
            false,
        ) ==> rollback_profile_run(c, t, log, at) == Run::<()>::Fail(
            ErrorView::RecoveryDeferred,
            at + 1,
        ),
{
}

// ---------------------------------------------------------------- cleaning up

/// What was staged and kept for an account is removed, and what was held where something was.
pub proof fn law_what_is_cleaned_up(
    c: Config,
    t: TransactionView,
    slot: u32,
    pending: Seq<char>,
    log: Seq<Reply>,
    at: nat,
)
    requires
        log.len() == at + 1,
        log[at as int] == Reply::Done,
    ensures
        t.profile_pending == Some(pending) ==> cleanup_staged_run(c, t, log.take(at as int), at)
            == Run::<()>::Ask(RequestView::Remove(pending)),
        t.profile_pending == Some(pending) && t.slot == Some(slot) ==> cleanup_staged_run(
            c,
            t,
            log,
            at,
        ) == Run::<()>::Ask(RequestView::Remove(c.profile_backup_path(slot))),
        t.profile_pending is None ==> cleanup_staged_run(c, t, log, at) == Run::Done((), at),
        t.hold_active ==> cleanup_held_run(c, t, log.take(at as int), at) == Run::<()>::Ask(
            RequestView::Remove(c.active_pending_path()),
        ) && cleanup_held_run(c, t, log, at) == Run::<()>::Ask(
            RequestView::Remove(c.active_hold_path()),
        ),
        !t.hold_active ==> cleanup_held_run(c, t, log, at) == Run::Done((), at),
{
}

/// A directory that credentials came from is removed only where it is one that this program has made:
/// directly in the account store, with its mark in it.
pub proof fn law_only_own_directories_are_removed(
    c: Config,
    source: Seq<char>,
    log: Seq<Reply>,
    at: nat,
)
    requires
        log.len() == at + 1,
    ensures
        parts_of(source).parent() is None ==> cleanup_source_run(c, source, log, at) == Run::Done(
            (),
            at,
        ),
        cleanup_source_run(c, source, log, at) matches Run::Ask(request) ==> ({
            &&& log[at as int] == Reply::Flag(true)
            &&& parts_of(source).parent() matches Some(directory) && directory.parent() == Some(
                parts_of(c.account_store@),
            ) && request == RequestView::RemoveTree(directory.text())
        }),
        (parts_of(source).parent() matches Some(directory) && directory.file_name() matches Some(
            name,
        ) && (".quota-"@.is_prefix_of(name) || ".enroll-"@.is_prefix_of(name))) ==> generated_run(
            parts_of(source).parent()->0,
            log.take(at as int),
            at,
        ) == Run::<bool>::Ask(
            RequestView::IsFile(joined(parts_of(source).parent()->0.text(), ".cxa-temporary"@)),
        ),
        (parts_of(source).parent() matches Some(directory) && directory.file_name() matches Some(
            name,
        ) && !".quota-"@.is_prefix_of(name) && !".enroll-"@.is_prefix_of(name))
            ==> cleanup_source_run(c, source, log, at) == Run::Done((), at),
{
}

// ---------------------------------------------------------------- the whole of a change

/// A change begins with the session where that is to be linked, and otherwise with what is held, and
/// then with what is staged; without an account it fails.
pub proof fn law_how_a_change_begins(
    c: Config,
    t: TransactionView,
    slot: u32,
    pending: Seq<char>,
    log: Seq<Reply>,
    at: nat,
)
    requires
        log.len() == at,
    ensures
        t.link_session ==> finish_commit_run(c, t, log, at) == Run::<()>::Ask(
            RequestView::Exists(c.session_hold_path()),
        ),
        !t.link_session && t.activate && t.hold_active ==> finish_commit_run(c, t, log, at)
            == Run::<()>::Ask(RequestView::Exists(c.active_reappeared_path())),
        !t.link_session && !t.activate && t.hold_active ==> finish_commit_run(c, t, log, at)
            == Run::<()>::Ask(RequestView::Exists(c.active_hold_path())),
        !t.link_session && !t.hold_active && t.slot == Some(slot) && t.profile_pending == Some(
            pending,
        ) ==> finish_commit_run(c, t, log, at) == Run::<()>::Ask(RequestView::Exists(pending)),
        !t.link_session && !t.hold_active && t.slot is None ==> finish_commit_run(c, t, log, at)
            is Fail,
{
}

/// A change is undone in the order in which it can be: the active credentials, the saved account, what
/// is held, the session and at last what was staged; and then fails for the reason that it was undone
/// for.
pub proof fn law_how_a_change_is_undone(
    c: Config,
    t: TransactionView,
    error: ErrorView,
    log: Seq<Reply>,
    at: nat,
    request: RequestView,
    n: nat,
    m: nat,
    k: nat,
    j: nat,
    i: nat,
)
    ensures
        rollback_active_run(c, t, log, at) == Run::<()>::Ask(request) ==> undo_run(
            c,
            t,
            error,
            log,
            at,
        ) == Run::<()>::Ask(request),
        rollback_active_run(c, t, log, at) == Run::Done((), n) ==> ({
            &&& rollback_profile_run(c, t, log, n) == Run::<()>::Ask(request) ==> undo_run(
                c,
                t,
                error,
                log,
                at,
            ) == Run::<()>::Ask(request)
            &&& rollback_profile_run(c, t, log, n) == Run::Done((), m) ==> ({
                &&& restore_if_held_run(c, t.hold_active, log, m) == Run::<()>::Ask(request)
                    ==> undo_run(c, t, error, log, at) == Run::<()>::Ask(request)
                &&& restore_if_held_run(c, t.hold_active, log, m) == Run::Done((), k) ==> ({
                    &&& restore_session_run(c, log, k) == Run::<()>::Ask(request) ==> undo_run(
                        c,
                        t,
                        error,
                        log,
                        at,
                    ) == Run::<()>::Ask(request)
                    &&& restore_session_run(c, log, k) == Run::Done((), j) && cleanup_run(
                        c,
                        TransactionView { recovery_source: None, ..t },
                        log,
                        j,
                    ) == Run::Done((), i) ==> undo_run(c, t, error, log, at) == Run::<()>::Fail(
                        error,
                        i,
                    )
                })
            })
        }),
{
}

/// The record of a change goes last, and durably.
pub proof fn law_the_record_goes_last(c: Config, t: TransactionView, log: Seq<Reply>, at: nat)
    requires
        t.profile_pending is None,
        t.recovery_source is None,
        !t.hold_active,
    ensures
        log.len() == at ==> cleanup_run(c, t, log, at) == Run::<()>::Ask(
            RequestView::Remove(c.transaction_path()),
        ),
        log.len() == at + 1 && log[at as int] == Reply::Done ==> cleanup_run(c, t, log, at)
            == Run::<()>::Ask(RequestView::SyncParent(c.transaction_path())),
        log.len() > at + 1 && log[at as int] == Reply::Done && log[at as int + 1] == Reply::Done
            ==> cleanup_run(c, t, log, at) == Run::Done((), at + 2),
{
}

}
