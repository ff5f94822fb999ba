//! How sessions are linked to the active credentials, and how those are held meanwhile.
use crate::account_store::{
    selected_run, selection_line, slot_with, Profile, TransactionMode, TransactionView,
};
use crate::auth::{AuthDocument, AuthView};
use crate::barrier::{
    begin_barrier_run, begin_enrollment_run, blocked_run, commit_switch_run, enrollment_record,
    hold_record, level_run, overlaps_run, profile_record, reconcile_active_run, reconcile_idle_run,
    recover_refresh_run, refreshing_record, replace_invalid_run, reselect_run, resume_run,
    stage_run, staged_enrollment, switch_record, take_hold_run,
};
use crate::config::Config;
use crate::effects::{EntryKind, Reply, RequestView, Run};
use crate::error::ErrorView;
use crate::json::{alike, JsonView};
use crate::session::{
    ensure_link_run, hold_session_run, install_link_run, preserve_session_run, promote_session_run,
    restore_session_run, validate_detached_run, validate_link_run,
};
use vstd::prelude::*;

verus! {

// ---------------------------------------------------------------- sessions

/// Credentials that are not linked are judged only while nothing writes them; they have to be of an
/// enrolled account, and may not differ from what is saved of it at the same time of refresh.
pub proof fn law_detached_credentials_are_judged(
    c: Config,
    path: Seq<char>,
    log: Seq<Reply>,
    at: nat,
    detached: AuthDocument,
    accounts: Vec<Profile>,
    stored: AuthDocument,
    slot: u32,
)
    requires
        log.len() == at + 4,
        log[at as int + 1] == Reply::Auth(detached),
        log[at as int + 2] == Reply::Profiles(accounts),
        log[at as int + 3] == Reply::Auth(stored),
    ensures
        log[at as int] == Reply::Flag(true) ==> validate_detached_run(c, path, log, at) == Run::<
            (),
        >::Fail(ErrorView::RecoveryDeferred, at + 1),
        log[at as int] == Reply::Flag(false) ==> ({
            &&& validate_detached_run(c, path, log.take(at as int), at) == Run::<()>::Ask(
                RequestView::WritersRunning,
            )
            &&& validate_detached_run(c, path, log.take(at as int + 1), at) == Run::<()>::Ask(
                RequestView::ReadAuth(path),
            )
            &&& slot_with(accounts@, detached@.identity) is None ==> validate_detached_run(
                c,
                path,
                log,
                at,
            ) is Fail
            &&& slot_with(accounts@, detached@.identity) == Some(slot) ==> ({
                &&& validate_detached_run(c, path, log.take(at as int + 3), at) == Run::<()>::Ask(
                    RequestView::ReadAuth(c.profile_auth_path(slot)),
                )
                &&& detached@.refresh_ns == stored@.refresh_ns && !detached@.same_credentials(
                    stored@,
                ) ==> validate_detached_run(c, path, log, at) is Fail
                &&& detached@.refresh_ns != stored@.refresh_ns || detached@.same_credentials(
                    stored@,
                ) ==> validate_detached_run(c, path, log, at) == Run::Done((), at + 4)
            })
        }),
{
    assert(log.take(at as int + 1)[at as int] == log[at as int]);
    let cut = log.take(at as int + 3);
    assert(cut[at as int] == log[at as int]);
    assert(cut[at as int + 1] == log[at as int + 1]);
    assert(cut[at as int + 2] == log[at as int + 2]);
}

/// What was set aside is judged first, and then what is in the session's place, unless it is the link.
pub proof fn law_both_places_are_judged(c: Config, log: Seq<Reply>, at: nat, kind: EntryKind)
    ensures
        log.len() == at ==> validate_link_run(c, log, at) == Run::<()>::Ask(
            RequestView::Exists(c.session_hold_path()),
        ),
        log.len() == at + 2 && log[at as int] == Reply::Flag(true) && log[at as int + 1]
            == Reply::Flag(false) ==> validate_link_run(c, log, at) == Run::<()>::Ask(
            RequestView::ReadAuth(c.session_hold_path()),
        ),
        log.len() > at && log[at as int] == Reply::Flag(false) ==> ({
            &&& log.len() == at + 1 ==> validate_link_run(c, log, at) == Run::<()>::Ask(
                RequestView::SessionLinked,
            )
            &&& log.len() > at + 1 && log[at as int + 1] == Reply::Flag(true) ==> validate_link_run(
                c,
                log,
                at,
            ) == Run::Done((), at + 2)
            &&& log.len() > at + 2 && log[at as int + 1] == Reply::Flag(false) && log[at as int + 2]
                == Reply::Entry(EntryKind::Missing) ==> validate_link_run(c, log, at) == Run::Done(
                (),
                at + 3,
            )
            &&& log.len() == at + 4 && log[at as int + 1] == Reply::Flag(false) && log[at as int + 2]
                == Reply::Entry(kind) && kind != EntryKind::Missing && log[at as int + 3]
                == Reply::Flag(false) ==> validate_link_run(c, log, at) == Run::<()>::Ask(
                RequestView::ReadAuth(c.session_auth@),
            )
        }),
{
}

/// Credentials that were set aside are saved for their own account where they are newer than what is
/// saved of it; and made the active ones as well where that account is the selected one.
pub proof fn law_credentials_set_aside_are_saved(
    c: Config,
    log: Seq<Reply>,
    at: nat,
    selected: Option<u32>,
    slot: u32,
    detached: AuthDocument,
    accounts: Vec<Profile>,
    stored: AuthDocument,
)
    requires
        log.len() >= at + 5,
        log[at as int] == Reply::Flag(true),
        log[at as int + 1] == Reply::Flag(false),
        log[at as int + 2] == Reply::Auth(detached),
        log[at as int + 3] == Reply::Profiles(accounts),
        log[at as int + 4] == Reply::Auth(stored),
        slot_with(accounts@, detached@.identity) == Some(slot),
    ensures
        detached@.newer(stored@) && log.len() == at + 5 ==> preserve_session_run(
            c,
            selected,
            log,
            at,
        ) == Run::<()>::Ask(
            RequestView::Copy { from: c.session_hold_path(), to: c.profile_auth_path(slot) },
        ),
        detached@.newer(stored@) && log.len() == at + 6 && log[at as int + 5] == Reply::Done
            && selected == Some(slot) ==> preserve_session_run(c, selected, log, at) == Run::<
            (),
        >::Ask(RequestView::IsFile(c.active_auth@)),
        detached@.newer(stored@) && log.len() == at + 6 && log[at as int + 5] == Reply::Done
            && selected != Some(slot) ==> preserve_session_run(c, selected, log, at) == Run::Done(
            (),
            at + 6,
        ),
        stored@.newer(detached@) ==> preserve_session_run(c, selected, log, at) == Run::Done(
            (),
            at + 5,
        ),
        !stored@.newer(detached@) && !detached@.newer(stored@) && !detached@.same_credentials(
            stored@,
        ) ==> preserve_session_run(c, selected, log, at) is Fail,
{
}

/// Where nothing was set aside nothing is saved, and nothing is while somebody may be writing.
pub proof fn law_nothing_set_aside_nothing_saved(
    c: Config,
    log: Seq<Reply>,
    at: nat,
    selected: Option<u32>,
)
    requires
        log.len() > at + 1,
    ensures
        log[at as int] == Reply::Flag(false) ==> preserve_session_run(c, selected, log, at)
            == Run::Done((), at + 1),
        log[at as int] == Reply::Flag(true) && log[at as int + 1] == Reply::Flag(true)
            ==> preserve_session_run(c, selected, log, at) == Run::<()>::Fail(
            ErrorView::RecoveryDeferred,
            at + 2,
        ),
{
}

/// Saved credentials become the active ones where there are none, or where they are newer than those.
pub proof fn law_saved_credentials_become_active(
    c: Config,
    detached: AuthView,
    log: Seq<Reply>,
    at: nat,
    active: AuthDocument,
)
    ensures
        log.len() == at + 1 && log[at as int] == Reply::Flag(false) ==> promote_session_run(
            c,
            detached,
            log,
            at,
        ) == Run::<()>::Ask(
            RequestView::Copy { from: c.session_hold_path(), to: c.active_auth@ },
        ),
        log.len() == at + 2 && log[at as int] == Reply::Flag(true) && log[at as int + 1]
            == Reply::Auth(active) && detached.newer(active@) ==> promote_session_run(
            c,
            detached,
            log,
            at,
        ) == Run::<()>::Ask(
            RequestView::Copy { from: c.session_hold_path(), to: c.active_auth@ },
        ),
        log.len() == at + 2 && log[at as int] == Reply::Flag(true) && log[at as int + 1]
            == Reply::Auth(active) && active@.newer(detached) ==> promote_session_run(
            c,
            detached,
            log,
            at,
        ) == Run::Done((), at + 2),
{
}

/// What is in the session's place is set aside by a rename, never by a copy; nothing is where nothing
/// is there.
pub proof fn law_a_session_is_set_aside(c: Config, log: Seq<Reply>, at: nat, kind: EntryKind)
    ensures
        log.len() == at ==> hold_session_run(c, log, at) == Run::<()>::Ask(
            RequestView::Entry(c.session_auth@),
        ),
        log.len() > at && log[at as int] == Reply::Entry(EntryKind::Missing) ==> hold_session_run(
            c,
            log,
            at,
        ) == Run::Done((), at + 1),
        log.len() == at + 1 && log[at as int] == Reply::Entry(kind) && kind != EntryKind::Missing
            ==> hold_session_run(c, log, at) == Run::<()>::Ask(
            RequestView::Rename { from: c.session_auth@, to: c.session_hold_path() },
        ),
{
}

/// What was set aside is put back only where nothing is in its place by then, and is let go of only
/// once it is back.
pub proof fn law_a_session_is_put_back(c: Config, log: Seq<Reply>, at: nat, kind: EntryKind)
    requires
        kind != EntryKind::Missing,
    ensures
        log.len() == at + 1 && log[at as int] == Reply::Entry(kind) ==> restore_session_run(
            c,
            log,
            at,
        ) == Run::<()>::Ask(
            RequestView::LinkIfAbsent { from: c.session_hold_path(), to: c.session_auth@ },
        ),
        log.len() == at + 2 && log[at as int] == Reply::Entry(kind) && log[at as int + 1]
            == Reply::Flag(true) ==> restore_session_run(c, log, at) == Run::<()>::Ask(
            RequestView::Remove(c.session_hold_path()),
        ),
        log.len() > at + 1 && log[at as int] == Reply::Entry(kind) && log[at as int + 1]
            == Reply::Flag(false) ==> restore_session_run(c, log, at) == Run::<()>::Fail(
            ErrorView::RecoveryDeferred,
            at + 2,
        ),
{
}

/// The link is made beside its place and put there only where nothing is by then; only after that, and
/// while nothing writes, is what was set aside let go of.
pub proof fn law_a_link_is_put_in_place(c: Config, log: Seq<Reply>, put: bool)
    requires
        log == seq![
            Reply::Done,
            Reply::Done,
            Reply::Flag(put),
            Reply::Done,
            Reply::Flag(false),
            Reply::Done,
            Reply::Done,
        ],
    ensures
        install_link_run(c, log.take(0), 0) == Run::<()>::Ask(
            RequestView::Remove(c.session_link_pending_path()),
        ),
        install_link_run(c, log.take(1), 0) == Run::<()>::Ask(
            RequestView::Symlink { target: c.active_auth@, link: c.session_link_pending_path() },
        ),
        install_link_run(c, log.take(2), 0) == Run::<()>::Ask(
            RequestView::LinkIfAbsent { from: c.session_link_pending_path(), to: c.session_auth@ },
        ),
        install_link_run(c, log.take(3), 0) == Run::<()>::Ask(
            RequestView::Remove(c.session_link_pending_path()),
        ),
        !put ==> install_link_run(c, log, 0) == Run::<()>::Fail(ErrorView::RecoveryDeferred, 4),
        put ==> ({
            &&& install_link_run(c, log.take(4), 0) == Run::<()>::Ask(RequestView::WritersRunning)
            &&& install_link_run(c, log.take(5), 0) == Run::<()>::Ask(
                RequestView::Remove(c.session_hold_path()),
            )
            &&& install_link_run(c, log.take(6), 0) == Run::<()>::Ask(
                RequestView::SyncParent(c.session_hold_path()),
            )
            &&& install_link_run(c, log, 0) == Run::Done((), 7)
        }),
{
}

/// A session that is linked stays as it is; what is in the place of one that is not is set aside
/// before anything else.
pub proof fn law_a_session_is_linked_once(
    c: Config,
    selected: Option<u32>,
    log: Seq<Reply>,
    at: nat,
)
    ensures
        log.len() == at ==> ensure_link_run(c, selected, log, at) == Run::<()>::Ask(
            RequestView::PrivateDir(c.codex_home@),
        ),
        log.len() > at + 1 && log[at as int] == Reply::Done && log[at as int + 1] == Reply::Flag(
            false,
        ) ==> ({
            &&& log.len() == at + 2 ==> ensure_link_run(c, selected, log, at) == Run::<()>::Ask(
                RequestView::SessionLinked,
            )
            &&& log.len() == at + 3 && log[at as int + 2] == Reply::Flag(true) ==> ensure_link_run(
                c,
                selected,
                log,
                at,
            ) == Run::<()>::Ask(RequestView::Remove(c.session_hold_path()))
            &&& log.len() == at + 3 && log[at as int + 2] == Reply::Flag(false) ==> ensure_link_run(
                c,
                selected,
                log,
                at,
            ) == Run::<()>::Ask(RequestView::Entry(c.session_auth@))
        }),
{
}

// ---------------------------------------------------------------- the active credentials

/// Of the active and the saved credentials of an account the newer replace the older, whichever they
/// are; two of the same time that differ are both left.
pub proof fn law_the_newer_credentials_are_kept(
    c: Config,
    path: Seq<char>,
    active: AuthView,
    slot: u32,
    log: Seq<Reply>,
    at: nat,
    stored: AuthDocument,
)
    requires
        log.len() == at + 1,
        log[at as int] == Reply::Auth(stored),
    ensures
        active.newer(stored@) ==> level_run(c, path, active, slot, log, at) == Run::<()>::Ask(
            RequestView::Copy { from: path, to: c.profile_auth_path(slot) },
        ),
        stored@.newer(active) && !active.newer(stored@) ==> level_run(
            c,
            path,
            active,
            slot,
            log,
            at,
        ) == Run::<()>::Ask(RequestView::Copy { from: c.profile_auth_path(slot), to: path }),
        !active.newer(stored@) && !stored@.newer(active) ==> (if active.same_credentials(stored@) {
            level_run(c, path, active, slot, log, at) == Run::Done((), at + 1)
        } else {
            level_run(c, path, active, slot, log, at) is Fail
        }),
{
}

/// Active credentials belong to the enrolled account of their identity, which is selected where it is
/// not; those of no enrolled account are refused.
pub proof fn law_active_credentials_have_an_account(
    c: Config,
    path: Seq<char>,
    log: Seq<Reply>,
    at: nat,
    active: AuthDocument,
    accounts: Vec<Profile>,
    slot: u32,
)
    requires
        log.len() >= at + 3,
        log[at as int] == Reply::Flag(true),
        log[at as int + 1] == Reply::Auth(active),
        log[at as int + 2] == Reply::Profiles(accounts),
    ensures
        slot_with(accounts@, active@.identity) is None ==> reconcile_active_run(c, path, log, at)
            is Fail,
        slot_with(accounts@, active@.identity) == Some(slot) && log.len() == at + 3
            ==> reconcile_active_run(c, path, log, at) == Run::<()>::Ask(
            RequestView::ReadAuth(c.profile_auth_path(slot)),
        ),
{
}

/// Only a selection that is another one is changed.
pub proof fn law_a_selection_is_corrected(
    c: Config,
    slot: u32,
    log: Seq<Reply>,
    at: nat,
    selected: Option<u32>,
)
    requires
        selected_run(c, log, at) == Run::Done(selected, log.len()),
    ensures
        selected == Some(slot) ==> reselect_run(c, slot, log, at) == Run::Done((), log.len()),
        selected != Some(slot) ==> reselect_run(c, slot, log, at) == Run::<()>::Ask(
            RequestView::Write { path: c.active_profile@, bytes: selection_line(slot) },
        ),
{
}

/// Active credentials are replaced only where they cannot be read as credentials, and only where an
/// account is selected to replace them from.
pub proof fn law_only_broken_credentials_are_replaced(
    c: Config,
    selected: Option<u32>,
    log: Seq<Reply>,
    at: nat,
    error: crate::error::Error,
)
    requires
        log.len() > at + 1,
        log[at as int] == Reply::Flag(true),
    ensures
        log[at as int + 1] is Auth ==> replace_invalid_run(c, selected, log, at) == Run::Done(
            false,
            at + 2,
        ),
        log[at as int + 1] == Reply::Failed(error) ==> (if (error@ is Json || error@
            is InvalidAuth) && selected is Some {
            replace_invalid_run(c, selected, log, at) == Run::Done(true, at + 2)
        } else {
            replace_invalid_run(c, selected, log, at) is Fail
        }),
{
}

/// The active credentials are held by a rename. Where they cannot be used they are put elsewhere, and
/// the saved credentials of the selected account are held in their place.
pub proof fn law_how_credentials_are_held(
    c: Config,
    selected: Option<u32>,
    log: Seq<Reply>,
    at: nat,
    slot: u32,
)
    ensures
        log.len() == at ==> take_hold_run(c, selected, true, log, at) == Run::<()>::Ask(
            RequestView::Rename { from: c.active_auth@, to: c.active_pending_path() },
        ),
        log.len() == at + 1 && log[at as int] == Reply::Done && selected == Some(slot)
            ==> take_hold_run(c, selected, true, log, at) == Run::<()>::Ask(
            RequestView::Copy { from: c.profile_auth_path(slot), to: c.active_hold_path() },
        ),
        log.len() == at + 1 && log[at as int] == Reply::Flag(true) ==> take_hold_run(
            c,
            selected,
            false,
            log,
            at,
        ) == Run::<()>::Ask(RequestView::Rename { from: c.active_auth@, to: c.active_hold_path() }),
        log.len() == at + 1 && log[at as int] == Reply::Flag(false) && selected == Some(slot)
            ==> take_hold_run(c, selected, false, log, at) == Run::<()>::Ask(
            RequestView::Copy { from: c.profile_auth_path(slot), to: c.active_hold_path() },
        ),
        log.len() == at + 1 && log[at as int] == Reply::Flag(false) && selected is None
            ==> take_hold_run(c, selected, false, log, at) == Run::Done((), at + 1),
{
}

/// Nothing is held while something writes.
pub proof fn law_nothing_is_held_while_something_writes(c: Config, log: Seq<Reply>, at: nat)
    requires
        log.len() > at + 1,
        log[at as int] == Reply::Flag(false),
        log[at as int + 1] == Reply::Flag(true),
    ensures
        begin_barrier_run(c, log, at) == Run::<crate::barrier::AuthBarrier>::Fail(
            ErrorView::WriterRunning,
            at + 2,
        ),
        begin_barrier_run(c, log.take(at as int), at) == Run::<crate::barrier::AuthBarrier>::Ask(
            RequestView::Exists(c.transaction_path()),
        ),
        begin_barrier_run(c, log.take(at as int + 1), at) == Run::<
            crate::barrier::AuthBarrier,
        >::Ask(RequestView::WritersRunning),
{
    assert(log.take(at as int + 1)[at as int] == log[at as int]);
}

/// A change is put off where its staging is in use, or where it holds the active credentials and
/// something writes.
pub proof fn law_when_a_change_is_put_off(
    c: Config,
    t: TransactionView,
    log: Seq<Reply>,
    at: nat,
)
    requires
        log.len() > at,
        t.recovery_source is None,
    ensures
        t.hold_active && log[at as int] == Reply::Flag(true) ==> resume_run(c, t, log, at) == Run::<
            (),
        >::Fail(ErrorView::RecoveryDeferred, at + 1),
        t.hold_active && log[at as int] == Reply::Flag(false) ==> blocked_run(t, log, at)
            == Run::Done(false, at + 1),
        !t.hold_active ==> blocked_run(t, log, at) == Run::Done(false, at),
{
}

/// A switch is recorded before anything is changed, and only while nothing writes.
pub proof fn law_a_switch_is_recorded_first(c: Config, t: TransactionView, log: Seq<Reply>, at: nat)
    ensures
        log.len() == at ==> commit_switch_run(c, t, log, at) == Run::<()>::Ask(
            RequestView::WritersRunning,
        ),
        log.len() > at && log[at as int] == Reply::Flag(true) ==> commit_switch_run(c, t, log, at)
            == Run::<()>::Fail(ErrorView::RecoveryDeferred, at + 1),
        log.len() == at + 1 && log[at as int] == Reply::Flag(false) ==> commit_switch_run(
            c,
            t,
            log,
            at,
        ) == Run::<()>::Ask(RequestView::WriteState { path: c.transaction_path(), state: t }),
{
}

/// Credentials may not be imported from where they would be staged.
pub proof fn law_where_credentials_may_not_come_from(
    c: Config,
    slot: u32,
    source: Seq<char>,
    log: Seq<Reply>,
    at: nat,
    first: bool,
    second: bool,
    third: bool,
)
    requires
        log.len() == at + 3,
        log[at as int] == Reply::Flag(first),
        log[at as int + 1] == Reply::Flag(second),
        log[at as int + 2] == Reply::Flag(third),
    ensures
        overlaps_run(c, slot, source, log, at) matches Run::Done(overlaps, _) && overlaps == (first
            || second || third),
        overlaps_run(c, slot, source, log.take(at as int), at) == Run::<bool>::Ask(
            RequestView::SameEntry { a: source, b: c.profile_pending_path(slot) },
        ),
        !first ==> overlaps_run(c, slot, source, log.take(at as int + 1), at) == Run::<bool>::Ask(
            RequestView::SameEntry { a: source, b: c.profile_backup_path(slot) },
        ),
        !first && !second ==> overlaps_run(c, slot, source, log.take(at as int + 2), at) == Run::<
            bool,
        >::Ask(RequestView::SameFile { a: source, b: c.profile_pending_path(slot) }),
{
    assert(log.take(at as int + 1)[at as int] == log[at as int]);
    assert(log.take(at as int + 2)[at as int] == log[at as int]);
    assert(log.take(at as int + 2)[at as int + 1] == log[at as int + 1]);
}

/// Credentials that were refreshed before an interruption are saved for their account where they are
/// of it and differ from what is saved; those of another account are not.
pub proof fn law_what_becomes_of_refreshed_credentials(
    c: Config,
    t: TransactionView,
    source: Seq<char>,
    slot: u32,
    log: Seq<Reply>,
    at: nat,
    fresh: AuthDocument,
    stored: AuthDocument,
)
    requires
        t.recovery_source == Some(source),
        t.slot == Some(slot),
        !t.hold_active,
        log.len() == at + 2,
        log[at as int] == Reply::Auth(fresh),
        log[at as int + 1] == Reply::Auth(stored),
    ensures
        fresh@.identity.account_id == stored@.identity.account_id && fresh@.identity.user_id
            == stored@.identity.user_id && !fresh@.same_credentials(stored@)
            ==> recover_refresh_run(c, t, log, at) == Run::<bool>::Ask(
            RequestView::Copy { from: source, to: c.profile_pending_path(slot) },
        ),
        fresh@.identity.account_id == stored@.identity.account_id && fresh@.identity.user_id
            == stored@.identity.user_id && fresh@.same_credentials(stored@)
            ==> !(recover_refresh_run(c, t, log, at) matches Run::Ask(RequestView::Copy { .. })),
        fresh@.identity.account_id != stored@.identity.account_id || fresh@.identity.user_id
            != stored@.identity.user_id ==> !(recover_refresh_run(c, t, log, at) matches Run::Ask(
            RequestView::Copy { .. },
        )) && (recover_refresh_run(c, t, log, at) matches Run::Done(cleanup, _) ==> cleanup
            == !staged_enrollment(source)),
{
}

// ---------------------------------------------------------------- records

/// What is recorded of a hold, an enrollment, a refresh, a switch and a saved account says how each is
/// gone on with, and about which account and source.
pub proof fn law_what_is_recorded(
    c: Config,
    slot: u32,
    source: Seq<char>,
    activate: bool,
    select: bool,
    link_session: bool,
    hold_active: bool,
)
    ensures
        hold_record().mode == TransactionMode::Rollback && hold_record().hold_active,
        ({
            let t = enrollment_record(source);
            &&& t.mode == TransactionMode::Refreshing
            &&& t.recovery_source == Some(source)
            &&& t.slot is None && !t.hold_active && !t.activate && !t.select
        }),
        ({
            let t = refreshing_record(
                Some(slot),
                source,
                activate,
                select,
                link_session,
                hold_active,
            );
            &&& t.mode == TransactionMode::Refreshing
            &&& t.slot == Some(slot) && t.recovery_source == Some(source)
            &&& t.activate == activate && t.select == select && t.link_session == link_session
            &&& t.hold_active == hold_active
        }),
        ({
            let t = switch_record(slot, link_session, hold_active);
            &&& t.mode == TransactionMode::Commit
            &&& t.slot == Some(slot) && t.activate && t.select
            &&& t.link_session == link_session && t.hold_active == hold_active
            &&& t.profile_pending is None && t.recovery_source is None
        }),
        ({
            let t = profile_record(c, slot, source, activate, select, link_session, hold_active);
            &&& t.mode == TransactionMode::Commit
            &&& t.slot == Some(slot) && t.recovery_source == Some(source)
            &&& t.profile_pending == Some(c.profile_pending_path(slot))
            &&& t.activate == activate && t.select == select && t.link_session == link_session
            &&& t.hold_active == hold_active
        }),
{
}

/// Credentials are staged by a copy, which has to be what was asked for before anything is recorded; a
/// copy that is not is removed.
pub proof fn law_credentials_are_staged_unchanged(
    c: Config,
    t: TransactionView,
    slot: u32,
    source: Seq<char>,
    expected: JsonView,
    log: Seq<Reply>,
    staged: AuthDocument,
)
    requires
        log == seq![
            Reply::Flag(false),
            Reply::Flag(false),
            Reply::Flag(false),
            Reply::Done,
            Reply::Done,
            Reply::Auth(staged),
        ],
    ensures
        stage_run(c, t, slot, source, expected, log.take(3), 0) == Run::<()>::Ask(
            RequestView::Remove(c.profile_backup_path(slot)),
        ),
        stage_run(c, t, slot, source, expected, log.take(4), 0) == Run::<()>::Ask(
            RequestView::Copy { from: source, to: c.profile_pending_path(slot) },
        ),
        stage_run(c, t, slot, source, expected, log.take(5), 0) == Run::<()>::Ask(
            RequestView::ReadAuth(c.profile_pending_path(slot)),
        ),
        alike(staged@.raw, expected) ==> stage_run(c, t, slot, source, expected, log, 0) == Run::<
            (),
        >::Ask(RequestView::WriteState { path: c.transaction_path(), state: t }),
        !alike(staged@.raw, expected) ==> stage_run(c, t, slot, source, expected, log, 0) == Run::<
            (),
        >::Ask(RequestView::Remove(c.profile_pending_path(slot))),
{
}

/// An enrollment is recorded before it begins, after whatever was left over is recovered.
pub proof fn law_an_enrollment_is_recorded_first(
    c: Config,
    source: Seq<char>,
    log: Seq<Reply>,
    at: nat,
)
    ensures
        log.len() == at ==> begin_enrollment_run(c, source, log, at) == Run::<
            crate::barrier::AuthBarrier,
        >::Ask(RequestView::Exists(c.transaction_path())),
        log.len() == at + 1 && log[at as int] == Reply::Flag(false) ==> begin_enrollment_run(
            c,
            source,
            log,
            at,
        ) == Run::<crate::barrier::AuthBarrier>::Ask(
            RequestView::WriteState {
                path: c.transaction_path(),
                state: enrollment_record(source),
            },
        ),
{
}

/// Where there are no active credentials there is nothing to bring into line; where something writes
/// them, it is left for later.
pub proof fn law_credentials_in_use_are_left(
    c: Config,
    log: Seq<Reply>,
    at: nat,
    active: AuthDocument,
)
    ensures
        log.len() > at && log[at as int] == Reply::Flag(false) ==> reconcile_idle_run(c, log, at)
            == Run::Done((), at + 1),
        log.len() > at + 3 && log[at as int] == Reply::Flag(true) && log[at as int + 1]
            == Reply::Auth(active) && log[at as int + 2] == Reply::Flag(false) && log[at as int + 3]
            == Reply::Flag(true) ==> reconcile_idle_run(c, log, at) == Run::Done((), at + 4),
{
}

}
