//! What credential transactions never do, whatever replies they get.
//!
//! A procedure is a function of the replies so far, so what it asks for on every sequence of
//! replies is everything that it can ever ask for.
use crate::account_store::{remove_run, TransactionView};
use crate::auth::AuthView;
use crate::barrier::{
    abandon_after, abandon_run, begin_barrier_run, blocked_run, resume_run, rollback_run,
    AuthBarrier,
};
use crate::config::{configured, Config, Environment, Places};
use crate::effects::{Reply, RequestView, Run};
use crate::error::ErrorView;
use crate::paths::joined;
use crate::text::decimal_text;
use crate::transaction::{
    give_back_run, keep_claimed_run, preserve_reappeared_run, replace_lost_run, restore_hold_run,
    restore_if_held_run, return_hold_run, rollback_active_run, save_claimed_run,
    settle_pending_run,
};
use vstd::prelude::*;

verus! {

/// Whether carrying a request out can remove or overwrite what is at a path.
pub open spec fn replaces(request: RequestView, path: Seq<char>) -> bool {
    match request {
        RequestView::Remove(p) => p == path,
        RequestView::Unlink(p) => p == path,
        RequestView::RemoveTree(p) => p == path,
        RequestView::Write { path: p, .. } => p == path,
        RequestView::WriteState { path: p, .. } => p == path,
        RequestView::Copy { to, .. } => to == path,
        RequestView::Rename { from, to } => from == path || to == path,
        RequestView::Claim { to, .. } => to == path,
        RequestView::Symlink { link, .. } => link == path,
        RequestView::PersistTemp(p) => p == path,
        _ => false,
    }
}

/// Whether a run, where it asks for something, asks for nothing that can remove or overwrite what
/// is at a path.
pub open spec fn spares<T>(run: Run<T>, path: Seq<char>) -> bool {
    match run {
        Run::Ask(request) => !replaces(request, path),
        _ => true,
    }
}

/// Whether the active credentials are kept apart from the saved ones and from the record of a
/// transaction.
pub open spec fn apart(c: Config) -> bool {
    &&& forall|slot: u32| #[trigger] c.profile_auth_path(slot) != c.active_auth@
    &&& c.transaction_path() != c.active_auth@
}

proof fn lemma_side_paths(c: Config)
    ensures
        c.active_hold_path() != c.active_auth@,
        c.active_pending_path() != c.active_auth@,
        c.active_reappeared_path() != c.active_auth@,
{
    reveal_strlit(".cxa-hold");
    reveal_strlit(".cxa-pending");
    reveal_strlit(".cxa-reappeared");
    assert(c.active_hold_path().len() > c.active_auth@.len());
    assert(c.active_pending_path().len() > c.active_auth@.len());
    assert(c.active_reappeared_path().len() > c.active_auth@.len());
}

/// Every configuration that the environment gives keeps the active credentials apart.
pub proof fn law_configured_files_are_apart(config: Config, places: Places, environment: Environment)
    requires
        configured(config, places, environment),
    ensures
        apart(config),
{
    reveal_strlit("auth.json");
    reveal_strlit("transaction.json");
    reveal_strlit("/");
    reveal_strlit("profile-");
    assert("auth.json"@[0] == 'a');
    assert("transaction.json"@[0] == 't');
    assert("profile-"@[0] == 'p');
    assert("/"@[0] == '/');
    assert forall|slot: u32| #[trigger] config.profile_auth_path(slot) != config.active_auth@ by {
        let name = "profile-"@ + decimal_text(slot as nat);
        assert(name[0] == 'p');
        assert(!crate::paths::rooted(name));
        assert(!crate::paths::rooted("auth.json"@));
        let directory = joined(config.account_store@, name);
        assert(directory.len() >= config.account_store@.len() + 8);
        assert(joined(directory, "auth.json"@).len() >= directory.len() + 9);
    }
    assert(!crate::paths::rooted("transaction.json"@));
    assert(!crate::paths::rooted("auth.json"@));
    assert(config.active_auth@.len() <= config.account_store@.len() + 10);
    assert(config.transaction_path().len() >= config.account_store@.len() + 16);
}

proof fn lemma_save_claimed(c: Config, active: AuthView, log: Seq<Reply>, at: nat)
    requires
        apart(c),
    ensures
        spares(save_claimed_run(c, active, log, at), c.active_auth@),
{
    lemma_side_paths(c);
}

proof fn lemma_keep_claimed(c: Config, pending: Option<Seq<char>>, log: Seq<Reply>, at: nat)
    requires
        apart(c),
        pending != Some(c.active_auth@),
    ensures
        spares(keep_claimed_run(c, pending, log, at), c.active_auth@),
{
    lemma_side_paths(c);
    assert forall|active: AuthView, n: nat|
        spares(#[trigger] save_claimed_run(c, active, log, n), c.active_auth@) by {
        lemma_save_claimed(c, active, log, n);
    }
}

/// Saving credentials that reappeared during a transaction never removes or overwrites ones that
/// are written later: they are only ever moved aside, and only where nothing was moved aside
/// before.
pub proof fn law_preserving_spares_late_writers(
    c: Config,
    pending: Option<Seq<char>>,
    log: Seq<Reply>,
    at: nat,
)
    requires
        apart(c),
        pending != Some(c.active_auth@),
    ensures
        spares(preserve_reappeared_run(c, pending, log, at), c.active_auth@),
        preserve_reappeared_run(c, pending, log, at) matches Run::Ask(RequestView::Claim { .. })
            ==> log.len() == at + 1 && log[at as int] == Reply::Flag(false),
{
    lemma_side_paths(c);
    assert forall|n: nat|
        spares(#[trigger] keep_claimed_run(c, pending, log, n), c.active_auth@) by {
        lemma_keep_claimed(c, pending, log, n);
    }
    assert forall|n: nat|
        !(#[trigger] keep_claimed_run(c, pending, log, n) matches Run::Ask(
            RequestView::Claim { .. },
        )) by {
        lemma_keeping_claims_nothing(c, pending, log, n);
    }
}

proof fn lemma_keeping_claims_nothing(
    c: Config,
    pending: Option<Seq<char>>,
    log: Seq<Reply>,
    at: nat,
)
    ensures
        !(keep_claimed_run(c, pending, log, at) matches Run::Ask(RequestView::Claim { .. })),
{
}

proof fn lemma_give_back(
    c: Config,
    held: AuthView,
    selected: Option<u32>,
    log: Seq<Reply>,
    at: nat,
)
    requires
        apart(c),
    ensures
        spares(give_back_run(c, held, selected, log, at), c.active_auth@),
{
    lemma_side_paths(c);
}

proof fn lemma_return_hold(c: Config, log: Seq<Reply>, at: nat)
    requires
        apart(c),
    ensures
        spares(return_hold_run(c, log, at), c.active_auth@),
{
    assert forall|n: nat|
        spares(#[trigger] preserve_reappeared_run(c, None, log, n), c.active_auth@) by {
        law_preserving_spares_late_writers(c, None, log, n);
    }
    assert forall|held: AuthView, selected: Option<u32>, n: nat|
        spares(#[trigger] give_back_run(c, held, selected, log, n), c.active_auth@) by {
        lemma_give_back(c, held, selected, log, n);
    }
}

/// How a run goes on after one that spares what is at a path.
proof fn lemma_next_spares<T>(first: Run<()>, next: spec_fn(nat) -> Run<T>, path: Seq<char>)
    requires
        spares(first, path),
        forall|n: nat| spares(#[trigger] next(n), path),
    ensures
        spares(first.next(next), path),
{
}

proof fn lemma_restore_hold(c: Config, log: Seq<Reply>, at: nat)
    requires
        apart(c),
    ensures
        spares(restore_hold_run(c, log, at), c.active_auth@),
{
    lemma_side_paths(c);
    let next = |n: nat|
        return_hold_run(c, log, n).bind(
            |finished: bool, m: nat|
                if finished {
                    Run::Done((), m)
                } else {
                    settle_pending_run(c, log, m)
                },
        );
    assert forall|n: nat| spares(#[trigger] next(n), c.active_auth@) by {
        lemma_return_hold(c, log, n);
    }
    assert(spares(replace_lost_run(c, log, at), c.active_auth@));
    lemma_next_spares(replace_lost_run(c, log, at), next, c.active_auth@);
}

/// Putting the active credentials back, by itself, in a rollback or because a transaction is
/// abandoned, never removes or overwrites ones that someone wrote meanwhile.
pub proof fn law_restoring_spares_late_writers(
    c: Config,
    hold_active: bool,
    log: Seq<Reply>,
    at: nat,
)
    requires
        apart(c),
    ensures
        spares(restore_hold_run(c, log, at), c.active_auth@),
        spares(rollback_run(c, hold_active, log, at), c.active_auth@),
        spares(abandon_run(c, hold_active, log, at), c.active_auth@),
{
    lemma_restore_hold(c, log, at);
    let restored = restore_if_held_run(c, hold_active, log, at);
    assert(spares(restored, c.active_auth@));
    lemma_rollback(c, restored, log);
}

proof fn lemma_rollback(c: Config, restored: Run<()>, log: Seq<Reply>)
    requires
        apart(c),
        spares(restored, c.active_auth@),
    ensures
        spares(
            restored.next(|n: nat| remove_run(log, n, c.transaction_path())),
            c.active_auth@,
        ),
        spares(abandon_after(c, restored, log), c.active_auth@),
{
}

/// Credentials on hold are removed only right after a copy of what takes their place was made
/// where nothing was: the reply before is the yes to that copy.
pub proof fn law_hold_outlives_its_return(
    c: Config,
    held: AuthView,
    selected: Option<u32>,
    log: Seq<Reply>,
    at: nat,
)
    requires
        at <= log.len(),
        give_back_run(c, held, selected, log, at) == Run::<bool>::Ask(
            RequestView::Remove(c.active_hold_path()),
        ),
    ensures
        log.len() > at,
        log.last() == Reply::Flag(true),
        give_back_run(c, held, selected, log.drop_last(), at) matches Run::Ask(
            RequestView::CopyIfAbsent { from, to },
        ) && to == c.active_auth@ && (from == c.active_hold_path() || (selected is Some && from
            == c.profile_auth_path(selected->0))),
{
    reveal_strlit(".cxa-hold");
    reveal_strlit(".cxa-pending");
    assert(c.active_hold_path().len() == c.active_auth@.len() + 9);
    assert(c.active_pending_path().len() == c.active_auth@.len() + 12);
    let before = log.drop_last();
    assert forall|i: int| 0 <= i < before.len() implies before[i] == log[i] by {}
}

/// An activation is taken back only where the active credentials are still the ones that it put
/// there.
pub proof fn law_only_own_activation_is_taken_back(
    c: Config,
    t: TransactionView,
    log: Seq<Reply>,
    at: nat,
)
    requires
        at <= log.len(),
        rollback_active_run(c, t, log, at) == Run::<()>::Ask(RequestView::Remove(c.active_auth@)),
    ensures
        log.len() >= at + 2,
        log[log.len() - 2] matches Reply::Auth(active) && log.last() matches Reply::Auth(promoted)
            && active@.same_credentials(promoted@),
{
}

/// While a process that may write credentials is running, no transaction that holds the active
/// ones begins: nothing but two questions is asked before it is refused.
pub proof fn law_running_writers_are_left_alone(c: Config, log: Seq<Reply>, at: nat)
    ensures
        log.len() == at ==> begin_barrier_run(c, log, at) == Run::<AuthBarrier>::Ask(
            RequestView::Exists(c.transaction_path()),
        ),
        log.len() == at + 1 && log[at as int] == Reply::Flag(false) ==> begin_barrier_run(
            c,
            log,
            at,
        ) == Run::<AuthBarrier>::Ask(RequestView::WritersRunning),
        log.len() >= at + 2 && log[at as int] == Reply::Flag(false) && log[at as int + 1] == Reply::Flag(
            true,
        ) ==> begin_barrier_run(c, log, at) == Run::<AuthBarrier>::Fail(
            ErrorView::WriterRunning,
            at + 2,
        ),
{
}

/// An interrupted transaction is not resumed while something may still be writing: recovery is
/// put off, and changes nothing.
pub proof fn law_recovery_waits_for_writers(c: Config, t: TransactionView, log: Seq<Reply>, at: nat)
    ensures
        blocked_run(t, log, at) matches Run::Done(true, n) ==> resume_run(c, t, log, at) == Run::<
            (),
        >::Fail(ErrorView::RecoveryDeferred, n),
        blocked_run(t, log, at) matches Run::Ask(request) ==> resume_run(c, t, log, at) == Run::<
            (),
        >::Ask(request) && (request is LockHeld || request is WritersRunning),
{
}

}
