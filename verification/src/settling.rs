//! What is on the disk once a transaction was taken up again or ended without a change.
use crate::account_store::{
    next_slot_run, reconcile_run, restore_copy_run, selected_run, slot_for_run, TransactionState,
    TransactionView,
};
use crate::auth::{AuthDocument, AuthView};
use crate::barrier::{blocked_run, recover_run, rollback_run};
use crate::config::Config;
use crate::course::{lemma_steady_bind, lemma_steady_next, steady};
use crate::effects::{
    auth_if_valid_run, auth_run, done_run, flag_run, mismatch, text_run, Reply, RequestView, Run,
};
use crate::ending::{
    ends, lemma_ended, lemma_ends_as, lemma_ends_at_once, lemma_ends_auth, lemma_ends_bind,
    lemma_ends_done, lemma_ends_expected, lemma_ends_flag, lemma_ends_kept, lemma_ends_never,
    lemma_ends_next, lemma_ends_request,
};
use crate::error::ErrorView;
use crate::recovery::{fits, lemma_side_paths, played, well_apart, DiskView};
use crate::settled::{
    settled_first, settled_preserve_reappeared, settled_replace_lost, settled_return_hold,
    settled_save_claimed, settled_selected,
};
use crate::steady::{
    agree, end_part, lemma_cleanup, lemma_resume_part, let_go_run, resume_part, steady_blocked,
    steady_let_go, steady_restore_hold, steady_taken_up_part, taken_up_part,
};
use crate::text::{parsed, trimmed};
use crate::transaction::{
    claim_run, give_back_run, keep_claimed_run, preserve_reappeared_run, put_back_run,
    put_newer_run, release_claimed_run, replace_lost_run, restore_hold_run, return_hold_run,
    save_claimed_run, settle_pending_run, stand_in_run,
};
use vstd::prelude::*;
use vstd::utf8::encode_utf8;

verus! {

// ---------------------------------------------------------------- recovery

/// What the end of a recovery asks for last.
proof fn lemma_end(
    c: Config,
    t: TransactionView,
    cleanup: bool,
    log: Seq<Reply>,
    at: nat,
    n: nat,
)
    requires
        at <= log.len(),
        end_part(c, t, cleanup, log, at) == Run::Done((), n),
    ensures
        at < n <= log.len(),
        cleanup ==> at + 2 <= n && end_part(c, t, cleanup, log.take(n - 2), at) == Run::<()>::Ask(
            RequestView::Remove(c.transaction_path()),
        ) && end_part(c, t, cleanup, log.take(n - 1), at) == Run::<()>::Ask(
            RequestView::SyncParent(c.transaction_path()),
        ),
        !cleanup ==> end_part(c, t, cleanup, log.take(n - 1), at) == Run::<()>::Ask(
            RequestView::Remove(c.transaction_path()),
        ),
{
    reveal(end_part);
    if cleanup {
        lemma_cleanup(c, t, log, at);
        if let Run::Done(_, m) = let_go_run(c, t, log, at) {
            steady_let_go(c, t, log, at, log.len());
            assert(n == m + 2);
            steady_let_go(c, t, log, at, m);
            steady_let_go(c, t, log, at, m + 1);
            lemma_cleanup(c, t, log.take(m as int), at);
            lemma_cleanup(c, t, log.take(m as int + 1), at);
        }
    }
}

/// Recovery comes to taking up the recorded transaction.
proof fn lemma_recover(c: Config, log: Seq<Reply>)
    ensures
        log.len() == 0 ==> recover_run(c, log, 0) == Run::<()>::Ask(
            RequestView::Exists(c.transaction_path()),
        ),
        log.len() > 0 && log[0] == Reply::Flag(false) ==> recover_run(c, log, 0) == Run::Done((), 1),
        log.len() > 0 ==> (log[0] is Flag || !(recover_run(c, log, 0) is Done)),
        log.len() == 1 && log[0] == Reply::Flag(true) ==> recover_run(c, log, 0) is Ask,
        log.len() > 1 && log[0] == Reply::Flag(true) ==> match log[1] {
            Reply::State(t) => recover_run(c, log, 0) == resume_part(c, t@, log, 2),
            _ => recover_run(c, log, 0) is Fail,
        },
{
    if log.len() > 1 {
        if let Reply::State(t) = log[1] {
            lemma_resume_part(c, t@, log, 2);
        }
    }
}

/// What taking a transaction up asks for last, and that it used all replies up to there.
proof fn lemma_resumed(c: Config, t: TransactionView, log: Seq<Reply>, at: nat, n: nat)
    requires
        at <= log.len(),
        resume_part(c, t, log, at) == Run::Done((), n),
    ensures
        at < n <= log.len(),
        resume_part(c, t, log.take(n as int), at) is Done,
        ({
            ||| resume_part(c, t, log.take(n - 1), at) == Run::<()>::Ask(
                RequestView::Remove(c.transaction_path()),
            )
            ||| at + 2 <= n && resume_part(c, t, log.take(n - 2), at) == Run::<()>::Ask(
                RequestView::Remove(c.transaction_path()),
            ) && resume_part(c, t, log.take(n - 1), at) == Run::<()>::Ask(
                RequestView::SyncParent(c.transaction_path()),
            )
        }),
{
    reveal(resume_part);
    steady_blocked(t, log, at, log.len());
    if let Run::Done(blocked, m) = blocked_run(t, log, at) {
        steady_taken_up_part(c, t, log, m, log.len());
        if let Run::Done(cleanup, j) = taken_up_part(c, t, log, m) {
            lemma_end(c, t, cleanup, log, j, n);
            lemma_end_steady(c, t, cleanup, log, j, n);
            steady_blocked(t, log, at, n);
            steady_blocked(t, log, at, (n - 1) as nat);
            steady_taken_up_part(c, t, log, m, n);
            steady_taken_up_part(c, t, log, m, (n - 1) as nat);
            if cleanup {
                    steady_blocked(t, log, at, (n - 2) as nat);
                steady_taken_up_part(c, t, log, m, (n - 2) as nat);
            }
        }
    }
}

proof fn lemma_end_steady(
    c: Config,
    t: TransactionView,
    cleanup: bool,
    log: Seq<Reply>,
    at: nat,
    n: nat,
)
    requires
        at <= log.len(),
        end_part(c, t, cleanup, log, at) == Run::Done((), n),
        n <= log.len(),
    ensures
        end_part(c, t, cleanup, log.take(n as int), at) == Run::Done((), n),
{
    reveal(end_part);
    if cleanup {
        crate::steady::steady_cleanup(c, t, log, at, n);
    }
}

/// A procedure that takes up a transaction and succeeds leaves no record of it.
proof fn lemma_no_record(
    c: Config,
    t: TransactionView,
    procedure: spec_fn(Seq<Reply>) -> Run<()>,
    log: Seq<Reply>,
    disks: Seq<DiskView>,
    at: nat,
    n: nat,
)
    requires
        at <= log.len(),
        played(c, procedure, log, disks, 0),
        resume_part(c, t, log, at) == Run::Done((), n),
        forall|i: int|
            at <= i < log.len() ==> procedure(#[trigger] log.take(i)) == resume_part(
                c,
                t,
                log.take(i),
                at,
            ),
    ensures
        disks.last().record is None,
{
    lemma_resumed(c, t, log, at, n);
    if n < log.len() {
        assert(procedure(log.take(n as int)) is Done);
    }
    assert(procedure(log.take(n - 1)) is Ask);
    if at + 2 <= n {
        assert(procedure(log.take(n - 2)) is Ask);
    }
}

/// A recovery that succeeds leaves no record of a transaction, whatever kind of transaction it
/// took up.
#[verifier::spinoff_prover]
#[verifier::rlimit(100)]
pub proof fn law_recovery_leaves_no_record(c: Config, log: Seq<Reply>, disks: Seq<DiskView>)
    requires
        played(c, |l: Seq<Reply>| recover_run(c, l, 0), log, disks, 0),
        recover_run(c, log, 0) is Done,
    ensures
        disks.last().record is None,
{
    let procedure = |l: Seq<Reply>| recover_run(c, l, 0);
    lemma_recover(c, log);
    lemma_recover(c, log.take(0));
    assert(procedure(log.take(0)) is Ask);
    if log[0] == Reply::Flag(false) {
        if log.len() > 1 {
            lemma_recover(c, log.take(1));
            assert(procedure(log.take(1)) is Done);
        }
    } else {
        match log[1] {
            Reply::State(t) => {
                assert forall|i: int| 2 <= i < log.len() implies procedure(#[trigger] log.take(i))
                    == resume_part(c, t@, log.take(i), 2) by {
                    lemma_recover(c, log.take(i));
                }
                if let Run::Done(_, n) = resume_part(c, t@, log, 2) {
                    lemma_no_record(c, t@, procedure, log, disks, 2, n);
                }
            },
            _ => {},
        }
    }
}

/// Where no transaction is recorded, recovery succeeds and changes nothing. So a second recovery
/// changes nothing either.
pub proof fn law_nothing_to_recover(c: Config, log: Seq<Reply>, disks: Seq<DiskView>)
    requires
        played(c, |l: Seq<Reply>| recover_run(c, l, 0), log, disks, 0),
        disks[0].record is None,
    ensures
        forall|i: int| 0 <= i < disks.len() ==> #[trigger] disks[i] == disks[0],
        log.len() > 0 ==> recover_run(c, log, 0) is Done,
        log.len() <= 1,
{
    let procedure = |l: Seq<Reply>| recover_run(c, l, 0);
    if log.len() > 0 {
        assert(procedure(log.take(0)) is Ask);
    }
    if log.len() > 1 {
        assert(procedure(log.take(1)) is Done);
    }
}

/// Whether a request only looks at something.
pub open spec fn only_looks(request: RequestView) -> bool {
    request is Exists || request is ReadState || request is LockHeld || request is WritersRunning
}

/// A recovery that has to wait, for a writer or for a staged login, fails without having changed
/// anything.
pub proof fn law_waiting_changes_nothing(
    c: Config,
    t: TransactionState,
    log: Seq<Reply>,
    at: nat,
    n: nat,
    k: nat,
)
    requires
        at + 2 <= log.len(),
        log[at as int] == Reply::Flag(true),
        log[at as int + 1] == Reply::State(t),
        blocked_run(t@, log, at + 2) == Run::Done(true, n),
        at <= k < n,
    ensures
        recover_run(c, log, at) == Run::<()>::Fail(ErrorView::RecoveryDeferred, n),
        recover_run(c, log.take(k as int), at) matches Run::Ask(request) && only_looks(request),
{
    steady_blocked(t@, log, at + 2, k);
}

// ---------------------------------------------------------------- giving a hold back

/// Whether the disk names an account as the selected one.
#[verifier::opaque]
pub open spec fn names_account(disk: DiskView, slot: u32) -> bool {
    exists|text: Seq<char>| #[trigger]
        encode_utf8(text) == disk.choice->0 && disk.choice is Some && parsed(
            trimmed(text),
            u32::MAX as nat,
        ) == Some(slot as nat)
}

/// Whether these credentials are the saved ones of the selected account, of the same account as
/// the held ones and refreshed later.
pub open spec fn newer_saved(
    c: Config,
    held: AuthView,
    disk: DiskView,
    slot: u32,
    saved: AuthView,
) -> bool {
    &&& names_account(disk, slot)
    &&& disk.has(c.profile_auth_path(slot))
    &&& disk.auths[c.profile_auth_path(slot)] == saved
    &&& saved.identity.same_account(held.identity)
    &&& saved.newer(held)
}

/// Whether these credentials are on hold.
pub open spec fn holds(c: Config, held: AuthView, disk: DiskView) -> bool {
    disk.has(c.active_hold_path()) && disk.auths[c.active_hold_path()] == held
}

/// Whether nothing is in the place of held credentials, and nothing was moved aside from there.
pub open spec fn calm(c: Config, disk: DiskView) -> bool {
    !disk.has(c.active_auth@) && !disk.has(c.active_reappeared_path())
}

/// Whether the active credentials are the held ones, or the selected account's saved ones where
/// those are of the same account and were refreshed later.
#[verifier::opaque]
pub open spec fn stands_in(c: Config, held: AuthView, first: DiskView, disk: DiskView) -> bool {
    let active = disk.auths[c.active_auth@];
    &&& disk.has(c.active_auth@)
    &&& active == held || exists|slot: u32| #[trigger]
        newer_saved(c, held, disk, slot, active) && (calm(c, first) ==> newer_saved(
            c,
            held,
            first,
            slot,
            active,
        ))
}

/// Credentials on hold that are being given back, and the disk that this began with.
pub struct Held {
    pub config: Config,
    pub held: AuthView,
    pub first: DiskView,
}

impl Held {
    /// Whether the credentials are still on hold, and whatever reappeared has changed neither the
    /// record nor the selection.
    pub open spec fn kept(self, d: DiskView) -> bool {
        &&& holds(self.config, self.held, d)
        &&& d.record == self.first.record
        &&& d.choice == self.first.choice
        &&& calm(self.config, self.first) ==> d == self.first
    }

    /// Still on hold, with something moved aside from their place.
    pub open spec fn disturbed(self, d: DiskView) -> bool {
        self.kept(d) && !calm(self.config, self.first)
    }

    /// Still on hold, with nothing in their place.
    pub open spec fn free(self, d: DiskView) -> bool {
        self.kept(d) && calm(self.config, d)
    }

    /// On hold with nothing in their place, and the record as it was.
    pub open spec fn ready(self, d: DiskView) -> bool {
        &&& holds(self.config, self.held, d)
        &&& calm(self.config, d)
        &&& d.record == self.first.record
    }

    /// In place again, with the record as it was.
    pub open spec fn placed(self, d: DiskView) -> bool {
        &&& stands_in(self.config, self.held, self.first, d)
        &&& !d.has(self.config.active_reappeared_path())
        &&& d.record == self.first.record
    }

    /// In place again and no longer on hold.
    pub open spec fn back(self, d: DiskView) -> bool {
        self.placed(d) && !d.has(self.config.active_hold_path())
    }

    /// In place again, with nothing left beside them.
    pub open spec fn alone(self, d: DiskView) -> bool {
        self.back(d) && !d.has(self.config.active_pending_path())
    }

    /// In place again, with nothing left of the transaction.
    pub open spec fn over(self, d: DiskView) -> bool {
        let c = self.config;
        &&& stands_in(c, self.held, self.first, d)
        &&& nothing_beside(c, d)
        &&& d.record is None
    }
}

/// Whether nothing of a transaction is beside the active credentials.
pub open spec fn nothing_beside(c: Config, d: DiskView) -> bool {
    &&& !d.has(c.active_hold_path())
    &&& !d.has(c.active_pending_path())
    &&& !d.has(c.active_reappeared_path())
}

/// Whether a request leaves everything but saved credentials as it is.
pub open spec fn only_saves(c: Config, request: RequestView) -> bool {
    match request {
        RequestView::Profiles => true,
        RequestView::Names(_) => true,
        RequestView::Exists(_) => true,
        RequestView::ReadAuth(_) => true,
        RequestView::PrivateDir(_) => true,
        RequestView::Copy { to, .. } => exists|slot: u32| to == #[trigger] c.profile_auth_path(slot),
        _ => false,
    }
}

/// Saving credentials that were moved aside only saves.
proof fn lemma_only_saves(c: Config, active: AuthView, log: Seq<Reply>, at: nat)
    ensures
        save_claimed_run(c, active, log, at) matches Run::Ask(request) ==> only_saves(c, request),
{
    if let Run::Done(known, n) = slot_for_run(active.identity, log, at) {
        if let Run::Done(free, m) = next_slot_run(c, log, n) {
            let slot = match known {
                Some(slot) => slot,
                None => free,
            };
            assert(only_saves(
                c,
                RequestView::Copy {
                    from: c.active_reappeared_path(),
                    to: c.profile_auth_path(slot),
                },
            ));
        }
    }
}

proof fn lemma_saved(h: Held, active: AuthView)
    requires
        well_apart(h.config),
    ensures
        ends(
            h.config,
            |l: Seq<Reply>, n: nat| save_claimed_run(h.config, active, l, n),
            |d: DiskView| h.disturbed(d),
            |v: (), d: DiskView| h.disturbed(d),
        ),
{
    let c = h.config;
    let p = |l: Seq<Reply>, n: nat| save_claimed_run(c, active, l, n);
    let allowed = |request: RequestView| only_saves(c, request);
    let kept = |d: DiskView| h.disturbed(d);
    settled_save_claimed(c, active);
    assert forall|l: Seq<Reply>, n: nat| (#[trigger] p(l, n) matches Run::Ask(request) ==> allowed(
        request,
    )) by {
        lemma_only_saves(c, active, l, n);
    }
    lemma_ends_kept(c, p, allowed, kept);
    lemma_ends_as(
        c,
        p,
        p,
        kept,
        kept,
        |v: (), d: DiskView| kept(d),
        |v: (), d: DiskView| h.disturbed(d),
    );
}

proof fn lemma_released(h: Held)
    requires
        well_apart(h.config),
    ensures
        ends(
            h.config,
            |l: Seq<Reply>, n: nat| release_claimed_run(h.config, l, n),
            |d: DiskView| h.disturbed(d),
            |v: (), d: DiskView| h.free(d),
        ),
{
    let c = h.config;
    let begin = |d: DiskView| h.disturbed(d);
    let half = |d: DiskView| h.disturbed(d) && !d.has(c.active_reappeared_path());
    let free = |d: DiskView| h.free(d);
    let end = |v: (), d: DiskView| h.free(d);
    let removal = RequestView::Remove(c.active_reappeared_path());
    let removes = |l: Seq<Reply>, n: nat| done_run(l, n, removal);
    lemma_side_paths(c);
    lemma_ends_done(c, removal, begin, half);
    let known = |there: bool, d: DiskView| half(d) && there == d.has(c.active_auth@);
    let asks = |l: Seq<Reply>, n: nat| flag_run(l, n, RequestView::Exists(c.active_auth@));
    lemma_ends_flag(c, RequestView::Exists(c.active_auth@), half, known);
    let after = |there: bool| |l: Seq<Reply>, n: nat|
        if there {
            Run::Fail(ErrorView::RecoveryDeferred, n)
        } else {
            Run::Done((), n)
        };
    assert forall|there: bool| ends(c, #[trigger] after(there), |d: DiskView| known(there, d), end) by {
        let start = |d: DiskView| known(there, d);
        if there {
            lemma_ends_never(c, after(there), start, end);
        } else {
            lemma_ends_at_once(c, (), after(there), start, end);
        }
    }
    let looks = |l: Seq<Reply>, n: nat| asks(l, n).bind(|v: bool, k: nat| after(v)(l, k));
    lemma_ends_bind(c, asks, after, looks, half, known, end);
    lemma_ends_next(
        c,
        removes,
        looks,
        |l: Seq<Reply>, n: nat| release_claimed_run(c, l, n),
        begin,
        half,
        end,
    );
}

/// Whatever is in the place of held credentials is saved and removed.
proof fn lemma_cleared(h: Held)
    requires
        well_apart(h.config),
    ensures
        ends(
            h.config,
            |l: Seq<Reply>, n: nat| preserve_reappeared_run(h.config, None, l, n),
            |d: DiskView| h.kept(d),
            |v: (), d: DiskView| h.free(d),
        ),
{
    let c = h.config;
    let kept = |d: DiskView| h.kept(d);
    let disturbed = |d: DiskView| h.disturbed(d);
    let end = |v: (), d: DiskView| h.free(d);
    let aside = c.active_reappeared_path();
    let known = |claimed: bool, d: DiskView| if claimed {
        h.disturbed(d)
    } else {
        h.free(d)
    };
    lemma_side_paths(c);
    // moving aside
    let claim = RequestView::Claim { from: c.active_auth@, to: aside };
    let absent = |d: DiskView| h.kept(d) && !d.has(aside);
    lemma_ends_flag(c, claim, absent, known);
    let moved = |there: bool| |l: Seq<Reply>, n: nat|
        if there {
            done_run(l, n, RequestView::SyncParent(aside)).next(|m: nat| Run::Done(true, m))
        } else {
            Run::Done(false, n)
        };
    assert forall|there: bool| ends(c, #[trigger] moved(there), |d: DiskView| known(there, d), known) by {
        let start = |d: DiskView| known(there, d);
        if there {
            let says = |l: Seq<Reply>, n: nat| Run::Done(true, n);
            lemma_ends_done(c, RequestView::SyncParent(aside), start, disturbed);
            lemma_ends_at_once(c, true, says, disturbed, known);
            lemma_ends_next(
                c,
                |l: Seq<Reply>, n: nat| done_run(l, n, RequestView::SyncParent(aside)),
                says,
                moved(there),
                start,
                disturbed,
                known,
            );
        } else {
            lemma_ends_at_once(c, false, moved(there), start, known);
        }
    }
    let claims = |l: Seq<Reply>, n: nat| claim_run(c, l, n);
    lemma_ends_bind(
        c,
        |l: Seq<Reply>, n: nat| flag_run(l, n, claim),
        moved,
        claims,
        absent,
        known,
        known,
    );
    // what is aside already
    let seen = |there: bool, d: DiskView| h.kept(d) && there == d.has(aside);
    let asks = |l: Seq<Reply>, n: nat| flag_run(l, n, RequestView::Exists(aside));
    lemma_ends_flag(c, RequestView::Exists(aside), kept, seen);
    let looks = |there: bool| |l: Seq<Reply>, n: nat|
        if there {
            Run::Done(true, n)
        } else {
            claim_run(c, l, n)
        };
    assert forall|there: bool| ends(c, #[trigger] looks(there), |d: DiskView| seen(there, d), known) by {
        let start = |d: DiskView| seen(there, d);
        if there {
            lemma_ends_at_once(c, true, looks(there), start, known);
        } else {
            lemma_ends_as(c, claims, looks(there), absent, start, known, known);
        }
    }
    let first = |l: Seq<Reply>, n: nat|
        flag_run(l, n, RequestView::Exists(aside)).bind(
            |there: bool, m: nat|
                if there {
                    Run::Done(true, m)
                } else {
                    claim_run(c, l, m)
                },
        );
    lemma_ends_bind(c, asks, looks, first, kept, seen, known);
    settled_first(c, first);
    // saving and removing it
    let keeps = |l: Seq<Reply>, n: nat| keep_claimed_run(c, None, l, n);
    lemma_kept_claimed(h);
    let rest = |claimed: bool| |l: Seq<Reply>, n: nat|
        if claimed {
            keep_claimed_run(c, None, l, n)
        } else {
            Run::Done((), n)
        };
    assert forall|claimed: bool| ends(c, #[trigger] rest(claimed), |d: DiskView| known(claimed, d), end) by {
        let start = |d: DiskView| known(claimed, d);
        if claimed {
            lemma_ends_as(c, keeps, rest(claimed), disturbed, start, end, end);
        } else {
            lemma_ends_at_once(c, (), rest(claimed), start, end);
        }
    }
    lemma_ends_bind(
        c,
        first,
        rest,
        |l: Seq<Reply>, n: nat| preserve_reappeared_run(c, None, l, n),
        kept,
        known,
        end,
    );
}

proof fn lemma_kept_claimed(h: Held)
    requires
        well_apart(h.config),
    ensures
        ends(
            h.config,
            |l: Seq<Reply>, n: nat| keep_claimed_run(h.config, None, l, n),
            |d: DiskView| h.disturbed(d),
            |v: (), d: DiskView| h.free(d),
        ),
{
    let c = h.config;
    let disturbed = |d: DiskView| h.disturbed(d);
    let end = |v: (), d: DiskView| h.free(d);
    let aside = c.active_reappeared_path();
    let releases = |l: Seq<Reply>, n: nat| release_claimed_run(c, l, n);
    lemma_released(h);
    lemma_ends_auth(c, aside, disturbed);
    let read = |found: AuthDocument, d: DiskView|
        disturbed(d) && d.has(aside) && d.auths[aside] == found@;
    let after = |found: AuthDocument| |l: Seq<Reply>, n: nat|
        save_claimed_run(c, found@, l, n).next(|k: nat| release_claimed_run(c, l, k));
    assert forall|found: AuthDocument| ends(c, #[trigger] after(found), |d: DiskView| read(found, d), end) by {
        let saves = |l: Seq<Reply>, n: nat| save_claimed_run(c, found@, l, n);
        lemma_saved(h, found@);
        settled_save_claimed(c, found@);
        lemma_ends_as(
            c,
            saves,
            saves,
            disturbed,
            |d: DiskView| read(found, d),
            |v: (), d: DiskView| h.disturbed(d),
            |v: (), d: DiskView| disturbed(d),
        );
        lemma_ends_next(
            c,
            saves,
            releases,
            after(found),
            |d: DiskView| read(found, d),
            disturbed,
            end,
        );
    }
    lemma_ends_bind(
        c,
        |l: Seq<Reply>, n: nat| auth_run(l, n, aside),
        after,
        |l: Seq<Reply>, n: nat| keep_claimed_run(c, None, l, n),
        disturbed,
        read,
        end,
    );
}

/// The held credentials are put back as they are.
proof fn lemma_put_back(h: Held)
    requires
        well_apart(h.config),
    ensures
        ends(
            h.config,
            |l: Seq<Reply>, n: nat| put_back_run(h.config, l, n),
            |d: DiskView| h.ready(d),
            |finished: bool, d: DiskView| !finished && h.back(d),
        ),
{
    let c = h.config;
    let ready = |d: DiskView| h.ready(d);
    let placed = |d: DiskView| h.placed(d);
    let back = |d: DiskView| h.back(d);
    let end = |finished: bool, d: DiskView| !finished && h.back(d);
    let hold = c.active_hold_path();
    lemma_side_paths(c);
    let restores = |l: Seq<Reply>, n: nat| restore_copy_run(l, n, hold, c.active_auth@);
    assert forall|d: DiskView, e: DiskView|
        ready(d) && #[trigger] fits(
            c,
            d,
            RequestView::CopyIfAbsent { from: hold, to: c.active_auth@ },
            Reply::Flag(true),
            e,
        ) implies placed(e) by {
        reveal(stands_in);
    }
    lemma_restored_copy(c, hold, ready, placed);
    let removes = |l: Seq<Reply>, n: nat| done_run(l, n, RequestView::Remove(hold));
    let syncs = |l: Seq<Reply>, n: nat| done_run(l, n, RequestView::SyncParent(hold));
    let says = |l: Seq<Reply>, n: nat| Run::Done(false, n);
    lemma_placed_stays(h, hold);
    lemma_ends_done(c, RequestView::Remove(hold), placed, back);
    lemma_ends_done(c, RequestView::SyncParent(hold), back, back);
    lemma_ends_at_once(c, false, says, back, end);
    let last = |l: Seq<Reply>, n: nat| syncs(l, n).next(|k: nat| says(l, k));
    lemma_ends_next(c, syncs, says, last, back, back, end);
    let rest = |l: Seq<Reply>, n: nat| removes(l, n).next(|k: nat| last(l, k));
    lemma_ends_next(c, removes, last, rest, placed, back, end);
    lemma_ends_next(
        c,
        restores,
        rest,
        |l: Seq<Reply>, n: nat| put_back_run(c, l, n),
        ready,
        placed,
        end,
    );
}

/// Copying something to where the active credentials go, unless something is there.
proof fn lemma_restored_copy(
    c: Config,
    from: Seq<char>,
    begin: spec_fn(DiskView) -> bool,
    end: spec_fn(DiskView) -> bool,
)
    requires
        forall|d: DiskView, e: DiskView|
            begin(d) && #[trigger] fits(
                c,
                d,
                RequestView::CopyIfAbsent { from, to: c.active_auth@ },
                Reply::Flag(true),
                e,
            ) ==> end(e),
    ensures
        ends(
            c,
            |l: Seq<Reply>, n: nat| restore_copy_run(l, n, from, c.active_auth@),
            begin,
            |v: (), d: DiskView| end(d),
        ),
        steady(|l: Seq<Reply>, n: nat| restore_copy_run(l, n, from, c.active_auth@)),
{
    let request = RequestView::CopyIfAbsent { from, to: c.active_auth@ };
    let finish = |v: (), d: DiskView| end(d);
    let known = |copied: bool, d: DiskView| copied ==> end(d);
    let asks = |l: Seq<Reply>, n: nat| flag_run(l, n, request);
    lemma_ends_flag(c, request, begin, known);
    let after = |copied: bool| |l: Seq<Reply>, n: nat|
        if copied {
            Run::Done((), n)
        } else {
            Run::Fail(ErrorView::RecoveryDeferred, n)
        };
    assert forall|copied: bool| ends(c, #[trigger] after(copied), |d: DiskView| known(copied, d), finish)
        && steady(after(copied)) by {
        let start = |d: DiskView| known(copied, d);
        if copied {
            lemma_ends_at_once(c, (), after(copied), start, finish);
        } else {
            lemma_ends_never(c, after(copied), start, finish);
            reveal(steady);
        }
    }
    let whole = |l: Seq<Reply>, n: nat| restore_copy_run(l, n, from, c.active_auth@);
    lemma_ends_bind(c, asks, after, whole, begin, known, finish);
    lemma_steady_bind(asks, after, whole);
}

/// Credentials that are in place again stay so when a file beside them goes.
proof fn lemma_placed_stays(h: Held, path: Seq<char>)
    requires
        path != h.config.active_auth@,
        path != h.config.transaction_path(),
        forall|slot: u32| path != #[trigger] h.config.profile_auth_path(slot),
    ensures
        forall|d: DiskView, e: DiskView|
            h.placed(d) && #[trigger] fits(
                h.config,
                d,
                RequestView::Remove(path),
                Reply::Done,
                e,
            ) ==> h.placed(e),
{
    reveal(stands_in);
    let c = h.config;
    assert forall|d: DiskView, e: DiskView|
        h.placed(d) && #[trigger] fits(
            c,
            d,
            RequestView::Remove(path),
            Reply::Done,
            e,
        ) implies h.placed(e) by {
        let active = d.auths[c.active_auth@];
        if active != h.held {
            let slot = choose|slot: u32| #[trigger]
                newer_saved(c, h.held, d, slot, active) && (calm(c, h.first) ==> newer_saved(
                    c,
                    h.held,
                    h.first,
                    slot,
                    active,
                ));
            assert(path != c.profile_auth_path(slot));
            lemma_names(d, e, slot);
            assert(newer_saved(c, h.held, e, slot, active));
        }
    }
}

/// Which account is selected depends on the selection alone.
proof fn lemma_names(d: DiskView, e: DiskView, slot: u32)
    requires
        names_account(d, slot),
        d.choice == e.choice,
    ensures
        names_account(e, slot),
{
    reveal(names_account);
    let text = choose|text: Seq<char>| #[trigger]
        encode_utf8(text) == d.choice->0 && d.choice is Some && parsed(
            trimmed(text),
            u32::MAX as nat,
        ) == Some(slot as nat);
    assert(encode_utf8(text) == e.choice->0);
}

/// Newer saved credentials that were copied to the place of the held ones stand in for them.
proof fn lemma_newer_placed(h: Held, slot: u32, saved: AuthView)
    requires
        well_apart(h.config),
    ensures
        forall|d: DiskView, e: DiskView|
            h.free(d) && newer_saved(h.config, h.held, d, slot, saved) && #[trigger] fits(
                h.config,
                d,
                RequestView::CopyIfAbsent {
                    from: h.config.profile_auth_path(slot),
                    to: h.config.active_auth@,
                },
                Reply::Flag(true),
                e,
            ) ==> h.placed(e),
{
    let c = h.config;
    let copy = RequestView::CopyIfAbsent {
        from: c.profile_auth_path(slot),
        to: c.active_auth@,
    };
    lemma_side_paths(c);
    assert forall|d: DiskView, e: DiskView|
        h.free(d) && newer_saved(c, h.held, d, slot, saved) && #[trigger] fits(
            c,
            d,
            copy,
            Reply::Flag(true),
            e,
        ) implies h.placed(e) by {
        reveal(stands_in);
        lemma_names(d, e, slot);
        assert(newer_saved(c, h.held, e, slot, saved));
        if calm(c, h.first) {
            assert(newer_saved(c, h.held, h.first, slot, saved));
        }
    }
}

/// Newer saved credentials are put in place of the held ones.
proof fn lemma_put_newer(h: Held, slot: u32, saved: AuthView)
    requires
        well_apart(h.config),
    ensures
        ends(
            h.config,
            |l: Seq<Reply>, n: nat| put_newer_run(h.config, slot, l, n),
            |d: DiskView| h.free(d) && newer_saved(h.config, h.held, d, slot, saved),
            |finished: bool, d: DiskView| finished && h.alone(d),
        ),
{
    let c = h.config;
    let begin = |d: DiskView| h.free(d) && newer_saved(c, h.held, d, slot, saved);
    let placed = |d: DiskView| h.placed(d);
    let back = |d: DiskView| h.back(d);
    let alone = |d: DiskView| h.alone(d);
    let end = |finished: bool, d: DiskView| finished && h.alone(d);
    let hold = c.active_hold_path();
    let pending = c.active_pending_path();
    let from = c.profile_auth_path(slot);
    lemma_side_paths(c);
    lemma_newer_placed(h, slot, saved);
    let restores = |l: Seq<Reply>, n: nat| restore_copy_run(l, n, from, c.active_auth@);
    lemma_restored_copy(c, from, begin, placed);
    let removes = |l: Seq<Reply>, n: nat| done_run(l, n, RequestView::Remove(hold));
    let drops = |l: Seq<Reply>, n: nat| done_run(l, n, RequestView::Remove(pending));
    let says = |l: Seq<Reply>, n: nat| Run::Done(true, n);
    lemma_placed_stays(h, hold);
    lemma_placed_stays(h, pending);
    lemma_ends_done(c, RequestView::Remove(hold), placed, back);
    lemma_ends_done(c, RequestView::Remove(pending), back, alone);
    lemma_ends_at_once(c, true, says, alone, end);
    let last = |l: Seq<Reply>, n: nat| drops(l, n).next(|k: nat| says(l, k));
    lemma_ends_next(c, drops, says, last, back, alone, end);
    let rest = |l: Seq<Reply>, n: nat| removes(l, n).next(|k: nat| last(l, k));
    lemma_ends_next(c, removes, last, rest, placed, back, end);
    lemma_ends_next(
        c,
        restores,
        rest,
        |l: Seq<Reply>, n: nat| put_newer_run(c, slot, l, n),
        begin,
        placed,
        end,
    );
}

/// Credentials of the selected account are compared with the held ones, and the newer are put in
/// place.
proof fn lemma_give_back(h: Held, selected: Option<u32>)
    requires
        well_apart(h.config),
    ensures
        ends(
            h.config,
            |l: Seq<Reply>, n: nat| give_back_run(h.config, h.held, selected, l, n),
            |d: DiskView| h.free(d) && (selected matches Some(slot) ==> names_account(d, slot)),
            |finished: bool, d: DiskView| h.back(d) && (finished ==> h.alone(d)),
        ),
{
    let c = h.config;
    let begin = |d: DiskView|
        h.free(d) && (selected matches Some(slot) ==> names_account(d, slot));
    let ready = |d: DiskView| h.ready(d);
    let end = |finished: bool, d: DiskView| h.back(d) && (finished ==> h.alone(d));
    let whole = |l: Seq<Reply>, n: nat| give_back_run(c, h.held, selected, l, n);
    let hold = c.active_hold_path();
    let puts = |l: Seq<Reply>, n: nat| put_back_run(c, l, n);
    let put = |finished: bool, d: DiskView| !finished && h.back(d);
    lemma_put_back(h);
    lemma_side_paths(c);
    match selected {
        None => {
            lemma_ends_as(c, puts, whole, ready, begin, put, end);
        },
        Some(slot) => {
            let path = c.profile_auth_path(slot);
            let read = |reply: Reply, n: nat| match reply {
                Reply::Auth(document) => Run::Done(Some(document), n),
                _ => Run::Done(None, n),
            };
            let reads = |l: Seq<Reply>, n: nat| auth_if_valid_run(l, n, path);
            let known = |saved: Option<AuthDocument>, d: DiskView|
                begin(d) && (saved matches Some(profile) ==> d.has(path) && d.auths[path]
                    == profile@);
            lemma_ends_request(c, RequestView::ReadAuth(path), read, reads, begin, known);
            let after = |saved: Option<AuthDocument>| |l: Seq<Reply>, n: nat|
                match saved {
                    Some(profile) => if !profile@.identity.same_account(h.held.identity) {
                        put_back_run(c, l, n)
                    } else if profile@.newer(h.held) {
                        put_newer_run(c, slot, l, n)
                    } else {
                        reconcile_run(l, n, hold, h.held, path, profile@).next(
                            |m: nat| put_back_run(c, l, m),
                        )
                    },
                    None => put_back_run(c, l, n),
                };
            assert forall|saved: Option<AuthDocument>| ends(
                c,
                #[trigger] after(saved),
                |d: DiskView| known(saved, d),
                end,
            ) by {
                let start = |d: DiskView| known(saved, d);
                match saved {
                    Some(profile) => {
                        if !profile@.identity.same_account(h.held.identity) {
                            lemma_ends_as(c, puts, after(saved), ready, start, put, end);
                        } else if profile@.newer(h.held) {
                            lemma_put_newer(h, slot, profile@);
                            lemma_ends_as(
                                c,
                                |l: Seq<Reply>, n: nat| put_newer_run(c, slot, l, n),
                                after(saved),
                                |d: DiskView|
                                    h.free(d) && newer_saved(c, h.held, d, slot, profile@),
                                start,
                                |finished: bool, d: DiskView| finished && h.alone(d),
                                end,
                            );
                        } else {
                            lemma_level_put(h, slot, profile@, start, after(saved));
                        }
                    },
                    None => {
                        lemma_ends_as(c, puts, after(saved), ready, start, put, end);
                    },
                }
            }
            lemma_ends_bind(c, reads, after, whole, begin, known, end);
        },
    }
}

/// Saved credentials that are no newer are brought to the state of the held ones, which are put
/// back.
proof fn lemma_level_put(
    h: Held,
    slot: u32,
    saved: AuthView,
    begin: spec_fn(DiskView) -> bool,
    p: spec_fn(Seq<Reply>, nat) -> Run<bool>,
)
    requires
        well_apart(h.config),
        forall|d: DiskView| #[trigger] begin(d) ==> h.ready(d),
        forall|l: Seq<Reply>, n: nat| #[trigger]
            p(l, n) == reconcile_run(
                l,
                n,
                h.config.active_hold_path(),
                h.held,
                h.config.profile_auth_path(slot),
                saved,
            ).next(|m: nat| put_back_run(h.config, l, m)),
    ensures
        ends(
            h.config,
            p,
            begin,
            |finished: bool, d: DiskView| h.back(d) && (finished ==> h.alone(d)),
        ),
{
    let c = h.config;
    let hold = c.active_hold_path();
    let path = c.profile_auth_path(slot);
    let ready = |d: DiskView| h.ready(d);
    let end = |finished: bool, d: DiskView| h.back(d) && (finished ==> h.alone(d));
    let puts = |l: Seq<Reply>, n: nat| put_back_run(c, l, n);
    let levels = |l: Seq<Reply>, n: nat| reconcile_run(l, n, hold, h.held, path, saved);
    let known = |v: (), d: DiskView| ready(d);
    let copy = RequestView::Copy { from: hold, to: path };
    lemma_put_back(h);
    lemma_ends_as(
        c,
        puts,
        puts,
        ready,
        ready,
        |finished: bool, d: DiskView| !finished && h.back(d),
        end,
    );
    lemma_ends_done(c, copy, begin, ready);
    if h.held.newer(saved) {
        let copies = |l: Seq<Reply>, n: nat| done_run(l, n, copy);
        lemma_ends_as(c, copies, levels, begin, begin, known, known);
        assert(steady(levels)) by {
            reveal(steady);
        }
    } else if h.held.refresh_ns == saved.refresh_ns && !h.held.same_credentials(saved) {
        lemma_ends_never(c, levels, begin, known);
        assert(steady(levels)) by {
            reveal(steady);
        }
    } else {
        lemma_ends_at_once(c, (), levels, begin, known);
    }
    lemma_ends_next(c, levels, puts, p, begin, ready, end);
}

/// Which account is found to be selected is what the disk says.
proof fn lemma_selected(c: Config, begin: spec_fn(DiskView) -> bool)
    ensures
        ends(
            c,
            |l: Seq<Reply>, n: nat| selected_run(c, l, n),
            begin,
            |selected: Option<u32>, d: DiskView|
                begin(d) && (selected matches Some(slot) ==> names_account(d, slot)),
        ),
{
    let end = |selected: Option<u32>, d: DiskView|
        begin(d) && (selected matches Some(slot) ==> names_account(d, slot));
    let read = |reply: Reply, n: nat| match reply {
        Reply::Text(text) => Run::Done(Some(text), n),
        Reply::Missing => Run::Done(None, n),
        Reply::Failed(_) => Run::Done(None, n),
        _ => Run::Fail(mismatch(), n),
    };
    let reads = |l: Seq<Reply>, n: nat| text_run(l, n, c.active_profile@);
    let known = |recorded: Option<String>, d: DiskView|
        begin(d) && (recorded matches Some(value) ==> d.choice is Some && encode_utf8(value@)
            == d.choice->0);
    lemma_ends_request(c, RequestView::ReadText(c.active_profile@), read, reads, begin, known);
    let after = |recorded: Option<String>| |l: Seq<Reply>, n: nat|
        match recorded {
            Some(value) => match parsed(trimmed(value@), u32::MAX as nat) {
                Some(slot) => flag_run(
                    l,
                    n,
                    RequestView::IsDir(c.profile_dir_path(slot as u32)),
                ).bind(
                    |there: bool, m: nat|
                        Run::Done(
                            if there {
                                Some(slot as u32)
                            } else {
                                None
                            },
                            m,
                        ),
                ),
                None => Run::Done(None, n),
            },
            None => Run::Done(None, n),
        };
    assert forall|recorded: Option<String>| ends(
        c,
        #[trigger] after(recorded),
        |d: DiskView| known(recorded, d),
        end,
    ) by {
        let start = |d: DiskView| known(recorded, d);
        let named = match recorded {
            Some(value) => parsed(trimmed(value@), u32::MAX as nat),
            None => None,
        };
        match named {
            Some(slot) => {
                let request = RequestView::IsDir(c.profile_dir_path(slot as u32));
                let same = |there: bool, d: DiskView| start(d);
                lemma_ends_flag(c, request, start, same);
                let says = |there: bool| |l: Seq<Reply>, n: nat|
                    Run::Done(
                        if there {
                            Some(slot as u32)
                        } else {
                            None
                        },
                        n,
                    );
                assert forall|there: bool| ends(
                    c,
                    #[trigger] says(there),
                    |d: DiskView| same(there, d),
                    end,
                ) by {
                    let value = if there {
                        Some(slot as u32)
                    } else {
                        None
                    };
                    assert forall|d: DiskView| #[trigger] same(there, d) implies end(value, d) by {
                        if there {
                            reveal(names_account);
                            assert(encode_utf8(recorded->0@) == d.choice->0);
                            assert(names_account(d, slot as u32));
                        }
                    }
                    lemma_ends_at_once(c, value, says(there), |d: DiskView| same(there, d), end);
                }
                lemma_ends_bind(
                    c,
                    |l: Seq<Reply>, n: nat| flag_run(l, n, request),
                    says,
                    after(recorded),
                    start,
                    same,
                    end,
                );
            },
            None => {
                lemma_ends_at_once(c, None, after(recorded), start, end);
            },
        }
    }
    lemma_ends_bind(
        c,
        reads,
        after,
        |l: Seq<Reply>, n: nat| selected_run(c, l, n),
        begin,
        known,
        end,
    );
}

proof fn lemma_returned(h: Held)
    requires
        well_apart(h.config),
    ensures
        ends(
            h.config,
            |l: Seq<Reply>, n: nat| return_hold_run(h.config, l, n),
            |d: DiskView| h.kept(d),
            |finished: bool, d: DiskView| h.back(d) && (finished ==> h.alone(d)),
        ),
{
    let c = h.config;
    let kept = |d: DiskView| h.kept(d);
    let free = |d: DiskView| h.free(d);
    let end = |finished: bool, d: DiskView| h.back(d) && (finished ==> h.alone(d));
    let hold = c.active_hold_path();
    let read = |found: AuthDocument, d: DiskView| free(d) && d.has(hold) && d.auths[hold] == found@;
    let selects = |l: Seq<Reply>, n: nat| selected_run(c, l, n);
    settled_selected(c);
    let tail = |found: AuthDocument| |l: Seq<Reply>, n: nat|
        selected_run(c, l, n).bind(
            |selected: Option<u32>, j: nat| give_back_run(c, found@, selected, l, j),
        );
    assert forall|found: AuthDocument| ends(c, #[trigger] tail(found), |d: DiskView| read(found, d), end) by {
        let start = |d: DiskView| read(found, d);
        if found@ == h.held {
            let known = |selected: Option<u32>, d: DiskView|
                start(d) && (selected matches Some(slot) ==> names_account(d, slot));
            lemma_selected(c, start);
            let after = |selected: Option<u32>| |l: Seq<Reply>, n: nat|
                give_back_run(c, found@, selected, l, n);
            assert forall|selected: Option<u32>| ends(
                c,
                #[trigger] after(selected),
                |d: DiskView| known(selected, d),
                end,
            ) by {
                lemma_give_back(h, selected);
                lemma_ends_as(
                    c,
                    |l: Seq<Reply>, n: nat| give_back_run(c, h.held, selected, l, n),
                    after(selected),
                    |d: DiskView|
                        h.free(d) && (selected matches Some(slot) ==> names_account(d, slot)),
                    |d: DiskView| known(selected, d),
                    end,
                    end,
                );
            }
            lemma_ends_bind(c, selects, after, tail(found), start, known, end);
        } else {
            lemma_ends_never(c, tail(found), start, end);
        }
    }
    let auths = |l: Seq<Reply>, n: nat| auth_run(l, n, hold);
    lemma_ends_auth(c, hold, free);
    let reads = |l: Seq<Reply>, n: nat|
        auths(l, n).bind(|found: AuthDocument, k: nat| tail(found)(l, k));
    lemma_ends_bind(c, auths, tail, reads, free, read, end);
    let preserves = |l: Seq<Reply>, n: nat| preserve_reappeared_run(c, None, l, n);
    lemma_cleared(h);
    settled_preserve_reappeared(c, None);
    lemma_ends_as(
        c,
        preserves,
        preserves,
        kept,
        kept,
        |v: (), d: DiskView| h.free(d),
        |v: (), d: DiskView| free(d),
    );
    let rest = |l: Seq<Reply>, n: nat| preserves(l, n).next(|k: nat| reads(l, k));
    lemma_ends_next(c, preserves, reads, rest, kept, free, end);
    let other = |there: bool| |l: Seq<Reply>, n: nat|
        if !there {
            Run::Done(false, n)
        } else {
            rest(l, n)
        };
    lemma_ends_expected(
        c,
        RequestView::Exists(hold),
        true,
        rest,
        other,
        |l: Seq<Reply>, n: nat| return_hold_run(c, l, n),
        kept,
        kept,
        end,
    );
}

proof fn lemma_settled_pending(h: Held)
    requires
        well_apart(h.config),
    ensures
        ends(
            h.config,
            |l: Seq<Reply>, n: nat| settle_pending_run(h.config, l, n),
            |d: DiskView| h.back(d),
            |v: (), d: DiskView| h.alone(d),
        ),
{
    let c = h.config;
    let back = |d: DiskView| h.back(d);
    let end = |v: (), d: DiskView| h.alone(d);
    let pending = c.active_pending_path();
    let removal = RequestView::Remove(pending);
    let removes = |l: Seq<Reply>, n: nat| done_run(l, n, removal);
    lemma_side_paths(c);
    assert(forall|d: DiskView| #[trigger] h.placed(d) ==> d.has(c.active_auth@)) by {
        reveal(stands_in);
    }
    lemma_placed_stays(h, pending);
    let alone = |d: DiskView| h.alone(d);
    lemma_ends_done(c, removal, back, alone);
    lemma_ends_as(c, removes, removes, back, back, |v: (), d: DiskView| alone(d), end);
    let placed = |there: bool| |l: Seq<Reply>, n: nat|
        if there {
            done_run(l, n, removal)
        } else {
            Run::Fail(ErrorView::RecoveryDeferred, n)
        };
    let looks = |l: Seq<Reply>, n: nat|
        flag_run(l, n, RequestView::Exists(c.active_auth@)).bind(
            |v: bool, k: nat| placed(v)(l, k),
        );
    lemma_ends_expected(
        c,
        RequestView::Exists(c.active_auth@),
        true,
        removes,
        placed,
        looks,
        back,
        back,
        end,
    );
    let known = |aside: bool, d: DiskView| back(d);
    lemma_ends_flag(c, RequestView::Exists(pending), back, known);
    let after = |aside: bool| |l: Seq<Reply>, n: nat|
        if aside {
            looks(l, n)
        } else {
            done_run(l, n, removal)
        };
    assert forall|aside: bool| ends(c, #[trigger] after(aside), |d: DiskView| known(aside, d), end) by {
        let start = |d: DiskView| known(aside, d);
        if aside {
            lemma_ends_as(c, looks, after(aside), back, start, end, end);
        } else {
            lemma_ends_as(c, removes, after(aside), back, start, end, end);
        }
    }
    lemma_ends_bind(
        c,
        |l: Seq<Reply>, n: nat| flag_run(l, n, RequestView::Exists(pending)),
        after,
        |l: Seq<Reply>, n: nat| settle_pending_run(c, l, n),
        back,
        known,
        end,
    );
}

proof fn lemma_restored(h: Held)
    requires
        well_apart(h.config),
    ensures
        ends(
            h.config,
            |l: Seq<Reply>, n: nat| restore_hold_run(h.config, l, n),
            |d: DiskView| h.kept(d),
            |v: (), d: DiskView| h.alone(d),
        ),
{
    let c = h.config;
    let kept = |d: DiskView| h.kept(d);
    let back = |d: DiskView| h.back(d);
    let end = |v: (), d: DiskView| h.alone(d);
    let nothing = |l: Seq<Reply>, n: nat| Run::Done((), n);
    let replaces = |l: Seq<Reply>, n: nat| replace_lost_run(c, l, n);
    let lost = |held: bool| |l: Seq<Reply>, n: nat|
        if held {
            Run::Done((), n)
        } else {
            flag_run(l, n, RequestView::Exists(c.active_pending_path())).bind(
                |aside: bool, m: nat|
                    if !aside {
                        Run::Done((), m)
                    } else {
                        flag_run(l, m, RequestView::Exists(c.active_auth@)).bind(
                            |back: bool, k: nat|
                                if back {
                                    Run::Done((), k)
                                } else {
                                    stand_in_run(c, l, k).bind(
                                        |source: Seq<char>, j: nat|
                                            restore_copy_run(l, j, source, c.active_auth@),
                                    )
                                },
                        )
                    },
            )
        };
    let still = |v: (), d: DiskView| kept(d);
    lemma_ends_at_once(c, (), nothing, kept, still);
    lemma_ends_expected(
        c,
        RequestView::Exists(c.active_hold_path()),
        true,
        nothing,
        lost,
        replaces,
        kept,
        kept,
        still,
    );
    settled_replace_lost(c);
    let brings = |l: Seq<Reply>, n: nat| return_hold_run(c, l, n);
    let known = |finished: bool, d: DiskView| h.back(d) && (finished ==> h.alone(d));
    lemma_returned(h);
    settled_return_hold(c);
    let settles = |l: Seq<Reply>, n: nat| settle_pending_run(c, l, n);
    lemma_settled_pending(h);
    let after = |finished: bool| |l: Seq<Reply>, n: nat|
        if finished {
            Run::Done((), n)
        } else {
            settle_pending_run(c, l, n)
        };
    assert forall|finished: bool| ends(
        c,
        #[trigger] after(finished),
        |d: DiskView| known(finished, d),
        end,
    ) by {
        let start = |d: DiskView| known(finished, d);
        if finished {
            lemma_ends_at_once(c, (), after(finished), start, end);
        } else {
            lemma_ends_as(c, settles, after(finished), back, start, end, end);
        }
    }
    let rest = |l: Seq<Reply>, n: nat| brings(l, n).bind(|v: bool, k: nat| after(v)(l, k));
    lemma_ends_bind(c, brings, after, rest, kept, known, end);
    lemma_ends_next(
        c,
        replaces,
        rest,
        |l: Seq<Reply>, n: nat| restore_hold_run(c, l, n),
        kept,
        kept,
        end,
    );
}

proof fn settled_restore_hold(c: Config)
    ensures
        steady(|l: Seq<Reply>, n: nat| restore_hold_run(c, l, n)),
{
    reveal(steady);
    assert forall|log: Seq<Reply>, at: nat, k: nat|
        at <= log.len() && k <= log.len() implies agree(
        #[trigger] restore_hold_run(c, log, at),
        #[trigger] restore_hold_run(c, log.take(k as int), at),
        at,
        k,
        log.len(),
    ) by {
        steady_restore_hold(c, log, at, k);
    }
}

proof fn lemma_rollback_shape(c: Config, log: Seq<Reply>, at: nat)
    ensures
        rollback_run(c, true, log, at) == restore_hold_run(c, log, at).next(
            |n: nat| done_run(log, n, RequestView::Remove(c.transaction_path())),
        ),
{
}

proof fn lemma_rolled_back(h: Held)
    requires
        well_apart(h.config),
    ensures
        ends(
            h.config,
            |l: Seq<Reply>, n: nat| rollback_run(h.config, true, l, n),
            |d: DiskView| h.kept(d),
            |v: (), d: DiskView| h.over(d),
        ),
        steady(|l: Seq<Reply>, n: nat| rollback_run(h.config, true, l, n)),
{
    let c = h.config;
    let kept = |d: DiskView| h.kept(d);
    let alone = |d: DiskView| h.alone(d);
    let over = |d: DiskView| h.over(d);
    let end = |v: (), d: DiskView| h.over(d);
    let removal = RequestView::Remove(c.transaction_path());
    let removes = |l: Seq<Reply>, n: nat| done_run(l, n, removal);
    let restores = |l: Seq<Reply>, n: nat| restore_hold_run(c, l, n);
    assert forall|d: DiskView, e: DiskView|
        alone(d) && #[trigger] fits(c, d, removal, Reply::Done, e) implies over(e) by {
        reveal(stands_in);
        let active = d.auths[c.active_auth@];
        if active != h.held {
            let slot = choose|slot: u32| #[trigger]
                newer_saved(c, h.held, d, slot, active) && (calm(c, h.first) ==> newer_saved(
                    c,
                    h.held,
                    h.first,
                    slot,
                    active,
                ));
            lemma_names(d, e, slot);
            assert(newer_saved(c, h.held, e, slot, active));
        }
    }
    lemma_ends_done(c, removal, alone, over);
    lemma_ends_as(c, removes, removes, alone, alone, |v: (), d: DiskView| over(d), end);
    lemma_restored(h);
    settled_restore_hold(c);
    lemma_ends_as(
        c,
        restores,
        restores,
        kept,
        kept,
        |v: (), d: DiskView| h.alone(d),
        |v: (), d: DiskView| alone(d),
    );
    let whole = |l: Seq<Reply>, n: nat| rollback_run(c, true, l, n);
    assert forall|l: Seq<Reply>, n: nat| #[trigger]
        whole(l, n) == restores(l, n).next(|k: nat| removes(l, k)) by {
        lemma_rollback_shape(c, l, n);
    }
    lemma_ends_next(c, restores, removes, whole, kept, alone, end);
    lemma_steady_next(restores, removes, whole);
}

/// A hold that is ended without a change is given back, whatever stands in the place of the held
/// credentials or was moved aside from there: the held credentials are in place again, or the
/// selected account's saved ones where those are of the same account and were refreshed later, and
/// nothing of the transaction is left. Where nothing stood there and nothing was moved aside, the
/// saved ones are those that were saved when this began.
pub proof fn law_rollback_gives_the_hold_back(
    c: Config,
    held: AuthView,
    log: Seq<Reply>,
    disks: Seq<DiskView>,
)
    requires
        well_apart(c),
        played(c, |l: Seq<Reply>| rollback_run(c, true, l, 0), log, disks, 0),
        holds(c, held, disks[0]),
        rollback_run(c, true, log, 0) is Done,
    ensures
        disks.last().has(c.active_auth@),
        disks.last().auths[c.active_auth@] == held || exists|slot: u32| #[trigger]
            newer_saved(c, held, disks.last(), slot, disks.last().auths[c.active_auth@]) && (calm(
                c,
                disks[0],
            ) ==> newer_saved(c, held, disks[0], slot, disks.last().auths[c.active_auth@])),
        !disks.last().has(c.active_hold_path()),
        !disks.last().has(c.active_pending_path()),
        !disks.last().has(c.active_reappeared_path()),
        disks.last().record is None,
{
    reveal(stands_in);
    let h = Held { config: c, held, first: disks[0] };
    let p = |l: Seq<Reply>, n: nat| rollback_run(c, true, l, n);
    let whole = |l: Seq<Reply>| rollback_run(c, true, l, 0);
    lemma_rolled_back(h);
    assert forall|i: int| 0 <= i < log.len() implies (p(#[trigger] log.take(i), 0) matches Run::Ask(
        request,
    ) && fits(c, disks[i], request, log[i], disks[i + 1])) by {
        assert(whole(log.take(i)) is Ask);
    }
    lemma_ended(
        c,
        p,
        |d: DiskView| h.kept(d),
        |v: (), d: DiskView| h.over(d),
        log,
        disks,
    );
}

}
