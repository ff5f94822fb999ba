//! Each part of a transaction is settled by the replies that it was given.
use crate::account_store::{next_slot_run, selected_run, slot_for_run, TransactionView};
use crate::auth::{AuthView, IdentityView};
use crate::barrier::blocked_run;
use crate::config::Config;
use crate::course::{lemma_steady_next, steady};
use crate::effects::{flag_run, Reply, RequestView, Run};
use crate::session::{enrolled_run, hold_session_run, preserve_session_run, validate_detached_run};
use crate::steady::{
    agree, lemma_finish_commit, recover_part, steady_activate, steady_already_restored,
    steady_back_up, steady_blocked, steady_check_session, steady_claim, steady_cleanup,
    steady_cleanup_held, steady_cleanup_source, steady_cleanup_staged, steady_enrolled,
    steady_finish_commit_part, steady_hold_session, steady_merge_staged, steady_next_slot,
    steady_preserve_reappeared, steady_preserve_session, steady_promote, steady_recover_part,
    steady_relink, steady_replace_lost, steady_return_hold, steady_save_claimed, steady_selected,
    steady_slot_for, steady_validate_detached,
};
use crate::transaction::{
    activate_run, already_restored_run, back_up_run, check_session_run, claim_run,
    cleanup_held_run, cleanup_run, cleanup_source_run, cleanup_staged_run, finish_commit_run,
    merge_staged_run, preserve_reappeared_run, promote_run, relink_run, replace_lost_run,
    return_hold_run, save_claimed_run,
};
use vstd::prelude::*;

verus! {

pub(crate) proof fn lemma_same_steady<T>(
    p: spec_fn(Seq<Reply>, nat) -> Run<T>,
    q: spec_fn(Seq<Reply>, nat) -> Run<T>,
)
    requires
        steady(p),
        forall|l: Seq<Reply>, n: nat| #[trigger] q(l, n) == p(l, n),
    ensures
        steady(q),
{
    reveal(steady);
    assert forall|log: Seq<Reply>, at: nat, k: nat|
        at <= log.len() && k <= log.len() implies agree(
        #[trigger] q(log, at),
        #[trigger] q(log.take(k as int), at),
        at,
        k,
        log.len(),
    ) by {
        assert(agree(p(log, at), p(log.take(k as int), at), at, k, log.len()));
    }
}

pub(crate) proof fn settled_merge_staged(c: Config, pending: Option<Seq<char>>, active: AuthView)
    ensures
        steady(|l: Seq<Reply>, n: nat| merge_staged_run(c, pending, active, l, n)),
{
    reveal(steady);
    assert forall|log: Seq<Reply>, at: nat, k: nat|
        at <= log.len() && k <= log.len() implies agree(
        #[trigger] merge_staged_run(c, pending, active, log, at),
        #[trigger] merge_staged_run(c, pending, active, log.take(k as int), at),
        at,
        k,
        log.len(),
    ) by {
        steady_merge_staged(c, pending, active, log, at, k);
    }
}

pub(crate) proof fn settled_save_claimed(c: Config, active: AuthView)
    ensures
        steady(|l: Seq<Reply>, n: nat| save_claimed_run(c, active, l, n)),
{
    reveal(steady);
    assert forall|log: Seq<Reply>, at: nat, k: nat|
        at <= log.len() && k <= log.len() implies agree(
        #[trigger] save_claimed_run(c, active, log, at),
        #[trigger] save_claimed_run(c, active, log.take(k as int), at),
        at,
        k,
        log.len(),
    ) by {
        steady_save_claimed(c, active, log, at, k);
    }
}

pub(crate) proof fn settled_slot_for(identity: IdentityView)
    ensures
        steady(|l: Seq<Reply>, n: nat| slot_for_run(identity, l, n)),
{
    reveal(steady);
    assert forall|log: Seq<Reply>, at: nat, k: nat|
        at <= log.len() && k <= log.len() implies agree(
        #[trigger] slot_for_run(identity, log, at),
        #[trigger] slot_for_run(identity, log.take(k as int), at),
        at,
        k,
        log.len(),
    ) by {
        steady_slot_for(identity, log, at, k);
    }
}

pub(crate) proof fn settled_next_slot(c: Config)
    ensures
        steady(|l: Seq<Reply>, n: nat| next_slot_run(c, l, n)),
{
    reveal(steady);
    assert forall|log: Seq<Reply>, at: nat, k: nat|
        at <= log.len() && k <= log.len() implies agree(
        #[trigger] next_slot_run(c, log, at),
        #[trigger] next_slot_run(c, log.take(k as int), at),
        at,
        k,
        log.len(),
    ) by {
        steady_next_slot(c, log, at, k);
    }
}

pub(crate) proof fn settled_preserve_reappeared(c: Config, pending: Option<Seq<char>>)
    ensures
        steady(|l: Seq<Reply>, n: nat| preserve_reappeared_run(c, pending, l, n)),
{
    reveal(steady);
    assert forall|log: Seq<Reply>, at: nat, k: nat|
        at <= log.len() && k <= log.len() implies agree(
        #[trigger] preserve_reappeared_run(c, pending, log, at),
        #[trigger] preserve_reappeared_run(c, pending, log.take(k as int), at),
        at,
        k,
        log.len(),
    ) by {
        steady_preserve_reappeared(c, pending, log, at, k);
    }
}

pub(crate) proof fn settled_check_session(c: Config, t: TransactionView)
    ensures
        steady(|l: Seq<Reply>, n: nat| check_session_run(c, t, l, n)),
{
    reveal(steady);
    assert forall|log: Seq<Reply>, at: nat, k: nat|
        at <= log.len() && k <= log.len() implies agree(
        #[trigger] check_session_run(c, t, log, at),
        #[trigger] check_session_run(c, t, log.take(k as int), at),
        at,
        k,
        log.len(),
    ) by {
        steady_check_session(c, t, log, at, k);
    }
}

pub(crate) proof fn settled_back_up(c: Config, slot: u32)
    ensures
        steady(|l: Seq<Reply>, n: nat| back_up_run(c, slot, l, n)),
{
    reveal(steady);
    assert forall|log: Seq<Reply>, at: nat, k: nat|
        at <= log.len() && k <= log.len() implies agree(
        #[trigger] back_up_run(c, slot, log, at),
        #[trigger] back_up_run(c, slot, log.take(k as int), at),
        at,
        k,
        log.len(),
    ) by {
        steady_back_up(c, slot, log, at, k);
    }
}

pub(crate) proof fn settled_promote(c: Config, t: TransactionView, slot: u32)
    ensures
        steady(|l: Seq<Reply>, n: nat| promote_run(c, t, slot, l, n)),
{
    reveal(steady);
    assert forall|log: Seq<Reply>, at: nat, k: nat|
        at <= log.len() && k <= log.len() implies agree(
        #[trigger] promote_run(c, t, slot, log, at),
        #[trigger] promote_run(c, t, slot, log.take(k as int), at),
        at,
        k,
        log.len(),
    ) by {
        steady_promote(c, t, slot, log, at, k);
    }
}

pub(crate) proof fn settled_activate(c: Config, t: TransactionView, slot: u32, restored: bool)
    ensures
        steady(|l: Seq<Reply>, n: nat| activate_run(c, t, slot, restored, l, n)),
{
    reveal(steady);
    assert forall|log: Seq<Reply>, at: nat, k: nat|
        at <= log.len() && k <= log.len() implies agree(
        #[trigger] activate_run(c, t, slot, restored, log, at),
        #[trigger] activate_run(c, t, slot, restored, log.take(k as int), at),
        at,
        k,
        log.len(),
    ) by {
        steady_activate(c, t, slot, restored, log, at, k);
    }
}

pub(crate) proof fn settled_relink(c: Config, t: TransactionView, slot: u32)
    ensures
        steady(|l: Seq<Reply>, n: nat| relink_run(c, t, slot, l, n)),
{
    reveal(steady);
    assert forall|log: Seq<Reply>, at: nat, k: nat|
        at <= log.len() && k <= log.len() implies agree(
        #[trigger] relink_run(c, t, slot, log, at),
        #[trigger] relink_run(c, t, slot, log.take(k as int), at),
        at,
        k,
        log.len(),
    ) by {
        steady_relink(c, t, slot, log, at, k);
    }
}

pub(crate) proof fn settled_selected(c: Config)
    ensures
        steady(|l: Seq<Reply>, n: nat| selected_run(c, l, n)),
{
    reveal(steady);
    assert forall|log: Seq<Reply>, at: nat, k: nat|
        at <= log.len() && k <= log.len() implies agree(
        #[trigger] selected_run(c, log, at),
        #[trigger] selected_run(c, log.take(k as int), at),
        at,
        k,
        log.len(),
    ) by {
        steady_selected(c, log, at, k);
    }
}

pub(crate) proof fn settled_cleanup_staged(c: Config, t: TransactionView)
    ensures
        steady(|l: Seq<Reply>, n: nat| cleanup_staged_run(c, t, l, n)),
{
    reveal(steady);
    assert forall|log: Seq<Reply>, at: nat, k: nat|
        at <= log.len() && k <= log.len() implies agree(
        #[trigger] cleanup_staged_run(c, t, log, at),
        #[trigger] cleanup_staged_run(c, t, log.take(k as int), at),
        at,
        k,
        log.len(),
    ) by {
        steady_cleanup_staged(c, t, log, at, k);
    }
}

pub(crate) proof fn settled_cleanup_held(c: Config, t: TransactionView)
    ensures
        steady(|l: Seq<Reply>, n: nat| cleanup_held_run(c, t, l, n)),
{
    reveal(steady);
    assert forall|log: Seq<Reply>, at: nat, k: nat|
        at <= log.len() && k <= log.len() implies agree(
        #[trigger] cleanup_held_run(c, t, log, at),
        #[trigger] cleanup_held_run(c, t, log.take(k as int), at),
        at,
        k,
        log.len(),
    ) by {
        steady_cleanup_held(c, t, log, at, k);
    }
}

pub(crate) proof fn settled_cleanup_source(c: Config, source: Seq<char>)
    ensures
        steady(|l: Seq<Reply>, n: nat| cleanup_source_run(c, source, l, n)),
{
    reveal(steady);
    assert forall|log: Seq<Reply>, at: nat, k: nat|
        at <= log.len() && k <= log.len() implies agree(
        #[trigger] cleanup_source_run(c, source, log, at),
        #[trigger] cleanup_source_run(c, source, log.take(k as int), at),
        at,
        k,
        log.len(),
    ) by {
        steady_cleanup_source(c, source, log, at, k);
    }
}

/// Whether a transaction can be taken up is settled by the replies.
pub proof fn settled_blocked(t: TransactionView)
    ensures
        steady(|l: Seq<Reply>, n: nat| blocked_run(t, l, n)),
{
    reveal(steady);
    assert forall|log: Seq<Reply>, at: nat, k: nat|
        at <= log.len() && k <= log.len() implies agree(
        #[trigger] blocked_run(t, log, at),
        #[trigger] blocked_run(t, log.take(k as int), at),
        at,
        k,
        log.len(),
    ) by {
        steady_blocked(t, log, at, k);
    }
}

pub(crate) proof fn settled_cleanup(c: Config, t: TransactionView)
    ensures
        steady(|l: Seq<Reply>, n: nat| cleanup_run(c, t, l, n)),
{
    reveal(steady);
    assert forall|log: Seq<Reply>, at: nat, k: nat|
        at <= log.len() && k <= log.len() implies agree(
        #[trigger] cleanup_run(c, t, log, at),
        #[trigger] cleanup_run(c, t, log.take(k as int), at),
        at,
        k,
        log.len(),
    ) by {
        steady_cleanup(c, t, log, at, k);
    }
}

pub(crate) proof fn settled_validate_detached(c: Config, path: Seq<char>)
    ensures
        steady(|l: Seq<Reply>, n: nat| validate_detached_run(c, path, l, n)),
{
    reveal(steady);
    assert forall|log: Seq<Reply>, at: nat, k: nat|
        at <= log.len() && k <= log.len() implies agree(
        #[trigger] validate_detached_run(c, path, log, at),
        #[trigger] validate_detached_run(c, path, log.take(k as int), at),
        at,
        k,
        log.len(),
    ) by {
        steady_validate_detached(c, path, log, at, k);
    }
}

pub(crate) proof fn settled_preserve_session(c: Config, selected: Option<u32>)
    ensures
        steady(|l: Seq<Reply>, n: nat| preserve_session_run(c, selected, l, n)),
{
    reveal(steady);
    assert forall|log: Seq<Reply>, at: nat, k: nat|
        at <= log.len() && k <= log.len() implies agree(
        #[trigger] preserve_session_run(c, selected, log, at),
        #[trigger] preserve_session_run(c, selected, log.take(k as int), at),
        at,
        k,
        log.len(),
    ) by {
        steady_preserve_session(c, selected, log, at, k);
    }
}

pub(crate) proof fn settled_hold_session(c: Config)
    ensures
        steady(|l: Seq<Reply>, n: nat| hold_session_run(c, l, n)),
{
    reveal(steady);
    assert forall|log: Seq<Reply>, at: nat, k: nat|
        at <= log.len() && k <= log.len() implies agree(
        #[trigger] hold_session_run(c, log, at),
        #[trigger] hold_session_run(c, log.take(k as int), at),
        at,
        k,
        log.len(),
    ) by {
        steady_hold_session(c, log, at, k);
    }
}

pub(crate) proof fn settled_enrolled(detached: AuthView)
    ensures
        steady(|l: Seq<Reply>, n: nat| enrolled_run(detached, l, n)),
{
    reveal(steady);
    assert forall|log: Seq<Reply>, at: nat, k: nat|
        at <= log.len() && k <= log.len() implies agree(
        #[trigger] enrolled_run(detached, log, at),
        #[trigger] enrolled_run(detached, log.take(k as int), at),
        at,
        k,
        log.len(),
    ) by {
        steady_enrolled(detached, log, at, k);
    }
}

pub(crate) proof fn settled_restored(c: Config, t: TransactionView)
    ensures
        steady(|l: Seq<Reply>, n: nat| already_restored_run(c, t, l, n)),
{
    reveal(steady);
    assert forall|log: Seq<Reply>, at: nat, k: nat|
        at <= log.len() && k <= log.len() implies agree(
        #[trigger] already_restored_run(c, t, log, at),
        #[trigger] already_restored_run(c, t, log.take(k as int), at),
        at,
        k,
        log.len(),
    ) by {
        steady_already_restored(c, t, log, at, k);
    }
}

pub(crate) proof fn settled_replace_lost(c: Config)
    ensures
        steady(|l: Seq<Reply>, n: nat| replace_lost_run(c, l, n)),
{
    reveal(steady);
    assert forall|log: Seq<Reply>, at: nat, k: nat|
        at <= log.len() && k <= log.len() implies agree(
        #[trigger] replace_lost_run(c, log, at),
        #[trigger] replace_lost_run(c, log.take(k as int), at),
        at,
        k,
        log.len(),
    ) by {
        steady_replace_lost(c, log, at, k);
    }
}

pub(crate) proof fn settled_return_hold(c: Config)
    ensures
        steady(|l: Seq<Reply>, n: nat| return_hold_run(c, l, n)),
{
    reveal(steady);
    assert forall|log: Seq<Reply>, at: nat, k: nat|
        at <= log.len() && k <= log.len() implies agree(
        #[trigger] return_hold_run(c, log, at),
        #[trigger] return_hold_run(c, log.take(k as int), at),
        at,
        k,
        log.len(),
    ) by {
        steady_return_hold(c, log, at, k);
    }
}

/// Going through with a recorded change is settled by the replies.
pub proof fn settled_finish(c: Config, t: TransactionView)
    ensures
        steady(|l: Seq<Reply>, n: nat| finish_commit_run(c, t, l, n)),
{
    reveal(steady);
    assert forall|log: Seq<Reply>, at: nat, k: nat|
        at <= log.len() && k <= log.len() implies agree(
        #[trigger] finish_commit_run(c, t, log, at),
        #[trigger] finish_commit_run(c, t, log.take(k as int), at),
        at,
        k,
        log.len(),
    ) by {
        lemma_finish_commit(c, t, log, at);
        lemma_finish_commit(c, t, log.take(k as int), at);
        steady_finish_commit_part(c, t, log, at, k);
    }
}

/// Recovery is settled by the replies.
pub proof fn settled_recover(c: Config)
    ensures
        steady(|l: Seq<Reply>, n: nat| recover_part(c, l, n)),
{
    reveal(steady);
    assert forall|log: Seq<Reply>, at: nat, k: nat|
        at <= log.len() && k <= log.len() implies agree(
        #[trigger] recover_part(c, log, at),
        #[trigger] recover_part(c, log.take(k as int), at),
        at,
        k,
        log.len(),
    ) by {
        steady_recover_part(c, log, at, k);
    }
}

pub(crate) proof fn settled_through(c: Config, t: TransactionView)
    ensures
        steady(|l: Seq<Reply>, n: nat| through_run(c, t, l, n)),
{
    settled_finish(c, t);
    settled_cleanup(c, t);
    lemma_steady_next(
        |l: Seq<Reply>, n: nat| finish_commit_run(c, t, l, n),
        |l: Seq<Reply>, n: nat| cleanup_run(c, t, l, n),
        |l: Seq<Reply>, n: nat| through_run(c, t, l, n),
    );
}

pub(crate) proof fn settled_first(c: Config, first: spec_fn(Seq<Reply>, nat) -> Run<bool>)
    requires
        forall|l: Seq<Reply>, n: nat| #[trigger]
            first(l, n) == flag_run(
                l,
                n,
                RequestView::Exists(c.active_reappeared_path()),
            ).bind(
                |there: bool, m: nat|
                    if there {
                        Run::Done(true, m)
                    } else {
                        claim_run(c, l, m)
                    },
            ),
    ensures
        steady(first),
{
    reveal(steady);
    assert forall|log: Seq<Reply>, at: nat, k: nat|
        at <= log.len() && k <= log.len() implies agree(
        #[trigger] first(log, at),
        #[trigger] first(log.take(k as int), at),
        at,
        k,
        log.len(),
    ) by {
        if at < log.len() {
            steady_claim(c, log, at + 1, k);
        }
    }
}

/// Going through with a recorded commit.
pub open spec fn through_run(c: Config, t: TransactionView, log: Seq<Reply>, at: nat) -> Run<()> {
    finish_commit_run(c, t, log, at).next(|n: nat| cleanup_run(c, t, log, n))
}

}
