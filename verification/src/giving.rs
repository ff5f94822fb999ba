//! Held credentials during a commit: what reappears in their place is kept, and they are given back
//! or replaced.
use crate::account_store::{
    highest, lemma_selection_read, next_slot_run, reconcile_run, restore_copy_run, selected_run,
    selection_line, slot_after, slot_for_run, slot_with, Profile,
};
use crate::auth::{law_same_account, AuthDocument, AuthView};
use crate::config::Config;
use crate::course::{
    lemma_at_once, lemma_auth, lemma_bind, lemma_done, lemma_expected, lemma_flag, lemma_instead,
    lemma_never, lemma_next, lemma_request, steady, works,
};
use crate::effects::{
    auth_if_valid_run, auth_run, done_run, flag_run, mismatch, text_run, Reply, RequestView, Run,
};
use crate::error::ErrorView;
use crate::job::{holds_alone, Job};
use crate::recovery::{fits, lemma_alike, lemma_known, lemma_side_paths, DiskView};
use crate::settled::{
    settled_first, settled_merge_staged, settled_next_slot, settled_preserve_reappeared,
    settled_replace_lost, settled_return_hold, settled_save_claimed, settled_selected,
    settled_slot_for,
};
use crate::text::{decimal_text, parsed, texts, trimmed};
use crate::transaction::{
    activate_run, already_restored_run, claim_run, give_back_run, keep_claimed_run,
    merge_staged_run, preserve_reappeared_run, put_back_run, put_newer_run, release_claimed_run,
    replace_lost_run, restore_hold_run, return_hold_run, save_claimed_run, save_to_run,
    settle_pending_run, stand_in_run, update_selected_run,
};
use vstd::prelude::*;
use vstd::utf8::{encode_utf8, encode_utf8_decode_utf8};

verus! {

/// Credentials that are the same already are left as they are.
pub(crate) proof fn lemma_reconciled(
    c: Config,
    auth: AuthView,
    from: Seq<char>,
    to: Seq<char>,
    begin: spec_fn(DiskView) -> bool,
    fine: spec_fn(DiskView) -> bool,
)
    requires
        forall|d: DiskView| #[trigger] begin(d) ==> fine(d),
    ensures
        works(
            c,
            |l: Seq<Reply>, n: nat| reconcile_run(l, n, from, auth, to, auth),
            begin,
            fine,
            |v: (), d: DiskView| begin(d),
        ),
        steady(|l: Seq<Reply>, n: nat| reconcile_run(l, n, from, auth, to, auth)),
{
    if let Some(tokens) = auth.raw.get("tokens"@) {
        lemma_alike(tokens);
    }
    lemma_at_once(
        c,
        (),
        |l: Seq<Reply>, n: nat| reconcile_run(l, n, from, auth, to, auth),
        begin,
        fine,
        |v: (), d: DiskView| begin(d),
    );
}

pub(crate) proof fn lemma_claim(job: Job)
    requires
        job.valid(),
        job.record.hold_active,
    ensures
        works(
            job.config,
            |l: Seq<Reply>, n: nat| claim_run(job.config, l, n),
            |d: DiskView| job.held(d) && !d.has(job.config.active_reappeared_path()),
            |d: DiskView| job.fine(d),
            |moved: bool, d: DiskView| if moved {
                job.aside(d)
            } else {
                job.free(false, d)
            },
        ),
{
    let c = job.config;
    let request = RequestView::Claim { from: c.active_auth@, to: c.active_reappeared_path() };
    let begin = |d: DiskView| job.held(d) && !d.has(c.active_reappeared_path());
    let fine = |d: DiskView| job.fine(d);
    let end = |moved: bool, d: DiskView| if moved {
        job.aside(d)
    } else {
        job.free(false, d)
    };
    lemma_side_paths(c);
    lemma_flag(c, request, begin, fine, end);
    let after = |moved: bool| |l: Seq<Reply>, n: nat|
        if moved {
            done_run(l, n, RequestView::SyncParent(c.active_reappeared_path())).next(
                |m: nat| Run::Done(true, m),
            )
        } else {
            Run::Done(false, n)
        };
    assert forall|moved: bool| works(
        c,
        #[trigger] after(moved),
        |d: DiskView| end(moved, d),
        fine,
        end,
    ) by {
        let start = |d: DiskView| end(moved, d);
        if moved {
            lemma_done(
                c,
                RequestView::SyncParent(c.active_reappeared_path()),
                start,
                fine,
                |d: DiskView| job.aside(d),
            );
            lemma_at_once(
                c,
                true,
                |l: Seq<Reply>, n: nat| Run::Done(true, n),
                |d: DiskView| job.aside(d),
                fine,
                end,
            );
            lemma_next(
                c,
                |l: Seq<Reply>, n: nat|
                    done_run(l, n, RequestView::SyncParent(c.active_reappeared_path())),
                |l: Seq<Reply>, n: nat| Run::Done(true, n),
                after(moved),
                start,
                fine,
                |d: DiskView| job.aside(d),
                end,
            );
        } else {
            lemma_at_once(c, false, after(moved), start, fine, end);
        }
    }
    lemma_bind(
        c,
        |l: Seq<Reply>, n: nat| flag_run(l, n, request),
        after,
        |l: Seq<Reply>, n: nat| claim_run(c, l, n),
        begin,
        fine,
        end,
        end,
    );
}

pub(crate) proof fn lemma_merge(job: Job)
    requires
        job.valid(),
        job.record.hold_active,
    ensures
        works(
            job.config,
            |l: Seq<Reply>, n: nat|
                merge_staged_run(job.config, job.record.profile_pending, job.shown, l, n),
            |d: DiskView| job.aside(d),
            |d: DiskView| job.fine(d),
            |merged: bool, d: DiskView| job.aside(d) && (merged || job.owned(d)),
        ),
{
    let c = job.config;
    let pending = job.record.profile_pending;
    let begin = |d: DiskView| job.aside(d);
    let fine = |d: DiskView| job.fine(d);
    let end = |merged: bool, d: DiskView| job.aside(d) && (merged || job.owned(d));
    let whole = |l: Seq<Reply>, n: nat| merge_staged_run(c, pending, job.shown, l, n);
    match pending {
        None => {
            lemma_at_once(c, false, whole, begin, fine, end);
        },
        Some(path) => {
            let request = RequestView::Exists(path);
            let found = |there: bool, d: DiskView| job.aside(d) && there == job.staged(d);
            lemma_flag(c, request, begin, fine, found);
            let after = |there: bool| |l: Seq<Reply>, n: nat|
                if there {
                    auth_run(l, n, path).bind(
                        |staged: AuthDocument, m: nat|
                            if job.shown.identity.same_account(staged@.identity) {
                                reconcile_run(
                                    l,
                                    m,
                                    c.active_reappeared_path(),
                                    job.shown,
                                    path,
                                    staged@,
                                ).next(|k: nat| Run::Done(true, k))
                            } else {
                                Run::Done(false, m)
                            },
                    )
                } else {
                    Run::Done(false, n)
                };
            assert forall|there: bool| works(
                c,
                #[trigger] after(there),
                |d: DiskView| found(there, d),
                fine,
                end,
            ) by {
                let start = |d: DiskView| found(there, d);
                if there {
                    lemma_merge_there(job, path, after(there), start, fine, end);
                } else {
                    lemma_at_once(c, false, after(there), start, fine, end);
                }
            }
            lemma_bind(
                c,
                |l: Seq<Reply>, n: nat| flag_run(l, n, request),
                after,
                whole,
                begin,
                fine,
                found,
                end,
            );
        },
    }
}

pub(crate) proof fn lemma_merge_there(
    job: Job,
    path: Seq<char>,
    p: spec_fn(Seq<Reply>, nat) -> Run<bool>,
    begin: spec_fn(DiskView) -> bool,
    fine: spec_fn(DiskView) -> bool,
    end: spec_fn(bool, DiskView) -> bool,
)
    requires
        job.record.activate || job.quiet(),
        job.valid(),
        forall|d: DiskView| #[trigger]
            begin(d) ==> fine(d) && end(job.record.activate, d) && d.has(path) && d.auths[path]
                == job.target,
        forall|l: Seq<Reply>, n: nat| #[trigger]
            p(l, n) == auth_run(l, n, path).bind(
                |staged: AuthDocument, m: nat|
                    if job.shown.identity.same_account(staged@.identity) {
                        reconcile_run(
                            l,
                            m,
                            job.config.active_reappeared_path(),
                            job.shown,
                            path,
                            staged@,
                        ).next(|k: nat| Run::Done(true, k))
                    } else {
                        Run::Done(false, m)
                    },
            ),
    ensures
        works(job.config, p, begin, fine, end),
{
    let c = job.config;
    let from = c.active_reappeared_path();
    lemma_auth(c, path, job.target, begin, fine);
    let after = |staged: AuthDocument| |l: Seq<Reply>, m: nat|
        if job.shown.identity.same_account(staged@.identity) {
            reconcile_run(l, m, from, job.shown, path, staged@).next(
                |k: nat| Run::Done(true, k),
            )
        } else {
            Run::Done(false, m)
        };
    let between = |staged: AuthDocument, d: DiskView| staged@ == job.target && begin(d);
    assert forall|staged: AuthDocument| works(
        c,
        #[trigger] after(staged),
        |d: DiskView| between(staged, d),
        fine,
        end,
    ) by {
        let start = |d: DiskView| between(staged, d);
        if staged@ == job.target && job.quiet() {
            lemma_at_once(c, false, after(staged), start, fine, end);
        } else if staged@ == job.target {
            law_same_account(job.shown.identity, job.shown.identity, job.shown.identity);
            lemma_reconciled(c, job.shown, from, path, start, fine);
            lemma_at_once(
                c,
                true,
                |l: Seq<Reply>, n: nat| Run::Done(true, n),
                start,
                fine,
                end,
            );
            lemma_next(
                c,
                |l: Seq<Reply>, n: nat| reconcile_run(l, n, from, job.shown, path, job.shown),
                |l: Seq<Reply>, n: nat| Run::Done(true, n),
                after(staged),
                start,
                fine,
                start,
                end,
            );
        } else {
            lemma_never(c, after(staged), start, fine, end);
        }
    }
    lemma_bind(
        c,
        |l: Seq<Reply>, n: nat| auth_run(l, n, path),
        after,
        p,
        begin,
        fine,
        between,
        end,
    );
}

pub(crate) proof fn lemma_save_to(job: Job)
    requires
        job.valid(),
        job.record.hold_active,
    ensures
        works(
            job.config,
            |l: Seq<Reply>, n: nat| save_to_run(job.config, job.shown, job.owner, l, n),
            |d: DiskView| job.aside(d) && job.owned(d),
            |d: DiskView| job.fine(d),
            |v: (), d: DiskView| job.aside(d),
        ),
{
    let c = job.config;
    let path = job.owned_path();
    let from = c.active_reappeared_path();
    let begin = |d: DiskView| job.aside(d) && job.owned(d);
    let fine = |d: DiskView| job.fine(d);
    let end = |v: (), d: DiskView| job.aside(d);
    let request = RequestView::Exists(path);
    let found = |there: bool, d: DiskView| there && job.aside(d) && job.owned(d);
    lemma_flag(c, request, begin, fine, found);
    let after = |there: bool| |l: Seq<Reply>, n: nat|
        if there {
            auth_run(l, n, path).bind(
                |stored: AuthDocument, m: nat| reconcile_run(l, m, from, job.shown, path, stored@),
            )
        } else {
            done_run(l, n, RequestView::PrivateDir(c.profile_dir_path(job.owner))).next(
                |m: nat| done_run(l, m, RequestView::Copy { from, to: path }),
            )
        };
    assert forall|there: bool| works(
        c,
        #[trigger] after(there),
        |d: DiskView| found(there, d),
        fine,
        end,
    ) by {
        let start = |d: DiskView| found(there, d);
        if there {
            lemma_auth(c, path, job.shown, start, fine);
            let compared = |stored: AuthDocument| |l: Seq<Reply>, m: nat|
                reconcile_run(l, m, from, job.shown, path, stored@);
            let between = |stored: AuthDocument, d: DiskView| stored@ == job.shown && start(d);
            assert forall|stored: AuthDocument| works(
                c,
                #[trigger] compared(stored),
                |d: DiskView| between(stored, d),
                fine,
                end,
            ) by {
                let here = |d: DiskView| between(stored, d);
                if stored@ == job.shown {
                    lemma_reconciled(c, job.shown, from, path, here, fine);
                    lemma_instead(
                        c,
                        |l: Seq<Reply>, n: nat|
                            reconcile_run(l, n, from, job.shown, path, job.shown),
                        compared(stored),
                        here,
                        here,
                        fine,
                        |v: (), d: DiskView| here(d),
                        end,
                    );
                } else {
                    lemma_never(c, compared(stored), here, fine, end);
                }
            }
            lemma_bind(
                c,
                |l: Seq<Reply>, n: nat| auth_run(l, n, path),
                compared,
                after(there),
                start,
                fine,
                between,
                end,
            );
        } else {
            lemma_never(c, after(there), start, fine, end);
        }
    }
    lemma_bind(
        c,
        |l: Seq<Reply>, n: nat| flag_run(l, n, request),
        after,
        |l: Seq<Reply>, n: nat| save_to_run(c, job.shown, job.owner, l, n),
        begin,
        fine,
        found,
        end,
    );
}

/// The account of credentials is found by their identity.
pub(crate) proof fn lemma_found(c: Config, auth: AuthView, slot: u32, d: DiskView, accounts: Seq<Profile>)
    requires
        holds_alone(c, auth, slot, d),
        d.lists(c, accounts),
    ensures
        slot_with(accounts, auth.identity) == Some(slot),
{
    law_same_account(auth.identity, auth.identity, auth.identity);
    assert(d.has(c.profile_auth_path(slot)));
    let i = choose|i: int| 0 <= i < accounts.len() && (#[trigger] accounts[i]).slot == slot;
    assert(accounts[i].auth@ == auth);
    assert forall|k: int|
        0 <= k < accounts.len() && (#[trigger] accounts[k]).auth@.identity.same_account(
            auth.identity,
        ) implies accounts[k].slot == slot by {
        assert(d.has(c.profile_auth_path(accounts[k].slot)));
    }
    lemma_known(accounts, auth.identity, slot);
}

pub(crate) proof fn lemma_slot_for(
    c: Config,
    auth: AuthView,
    slot: u32,
    begin: spec_fn(DiskView) -> bool,
    fine: spec_fn(DiskView) -> bool,
)
    requires
        forall|d: DiskView| #[trigger] begin(d) ==> fine(d) && holds_alone(c, auth, slot, d),
    ensures
        works(
            c,
            |l: Seq<Reply>, n: nat| slot_for_run(auth.identity, l, n),
            begin,
            fine,
            |known: Option<u32>, d: DiskView| known == Some(slot) && begin(d),
        ),
{
    let after = |reply: Reply, n: nat| match reply {
        Reply::Profiles(accounts) => Run::Done(slot_with(accounts@, auth.identity), n),
        Reply::Failed(error) => Run::Fail(error@, n),
        _ => Run::Fail(mismatch(), n),
    };
    assert forall|d: DiskView, reply: Reply, e: DiskView, n: nat|
        begin(d) && #[trigger] fits(c, d, RequestView::Profiles, reply, e) implies (
    #[trigger] after(reply, n) matches Run::Done(known, m) && m == n && fine(e) && known == Some(
        slot,
    ) && begin(e)) by {
        if let Reply::Profiles(accounts) = reply {
            lemma_found(c, auth, slot, d, accounts@);
        }
    }
    lemma_request(
        c,
        RequestView::Profiles,
        after,
        |l: Seq<Reply>, n: nat| slot_for_run(auth.identity, l, n),
        begin,
        fine,
        |known: Option<u32>, d: DiskView| known == Some(slot) && begin(d),
    );
}

pub(crate) proof fn lemma_next_slot(
    job: Job,
    begin: spec_fn(DiskView) -> bool,
    fine: spec_fn(DiskView) -> bool,
)
    requires
        forall|d: DiskView| #[trigger] begin(d) ==> fine(d),
    ensures
        works(
            job.config,
            |l: Seq<Reply>, n: nat| next_slot_run(job.config, l, n),
            begin,
            fine,
            |free: u32, d: DiskView| begin(d),
        ),
{
    let c = job.config;
    let after = |reply: Reply, n: nat| match reply {
        Reply::Names(names) => slot_after(highest(texts(names@)), n),
        Reply::Missing => Run::Done(1, n),
        Reply::Failed(error) => Run::Fail(error@, n),
        _ => Run::Fail(mismatch(), n),
    };
    lemma_request(
        c,
        RequestView::Names(c.account_store@),
        after,
        |l: Seq<Reply>, n: nat| next_slot_run(c, l, n),
        begin,
        fine,
        |free: u32, d: DiskView| begin(d),
    );
}

pub(crate) proof fn lemma_save_claimed(job: Job)
    requires
        job.valid(),
        job.record.hold_active,
    ensures
        works(
            job.config,
            |l: Seq<Reply>, n: nat| save_claimed_run(job.config, job.shown, l, n),
            |d: DiskView| job.aside(d) && job.owned(d),
            |d: DiskView| job.fine(d),
            |v: (), d: DiskView| job.aside(d),
        ),
{
    let c = job.config;
    let begin = |d: DiskView| job.aside(d) && job.owned(d);
    let fine = |d: DiskView| job.fine(d);
    let end = |v: (), d: DiskView| job.aside(d);
    settled_slot_for(job.shown.identity);
    settled_next_slot(c);
    assert forall|d: DiskView| #[trigger] begin(d) implies holds_alone(
        c,
        job.shown,
        job.owner,
        d,
    ) by {}
    lemma_slot_for(c, job.shown, job.owner, begin, fine);
    let between = |known: Option<u32>, d: DiskView| known == Some(job.owner) && begin(d);
    let after = |known: Option<u32>| |l: Seq<Reply>, n: nat|
        next_slot_run(c, l, n).bind(
            |free: u32, m: nat|
                save_to_run(
                    c,
                    job.shown,
                    match known {
                        Some(slot) => slot,
                        None => free,
                    },
                    l,
                    m,
                ),
        );
    assert forall|known: Option<u32>| works(
        c,
        #[trigger] after(known),
        |d: DiskView| between(known, d),
        fine,
        end,
    ) by {
        let start = |d: DiskView| between(known, d);
        if known == Some(job.owner) {
            lemma_next_slot(job, start, fine);
            lemma_save_to(job);
            let saves = |l: Seq<Reply>, n: nat| save_to_run(c, job.shown, job.owner, l, n);
            lemma_instead(c, saves, saves, begin, start, fine, end, end);
            lemma_next(
                c,
                |l: Seq<Reply>, n: nat| next_slot_run(c, l, n),
                saves,
                after(known),
                start,
                fine,
                start,
                end,
            );
        } else {
            lemma_never(c, after(known), start, fine, end);
        }
    }
    lemma_bind(
        c,
        |l: Seq<Reply>, n: nat| slot_for_run(job.shown.identity, l, n),
        after,
        |l: Seq<Reply>, n: nat| save_claimed_run(c, job.shown, l, n),
        begin,
        fine,
        between,
        end,
    );
}

pub(crate) proof fn lemma_release(job: Job)
    requires
        job.valid(),
        job.record.hold_active,
    ensures
        works(
            job.config,
            |l: Seq<Reply>, n: nat| release_claimed_run(job.config, l, n),
            |d: DiskView| job.aside(d),
            |d: DiskView| job.fine(d),
            |v: (), d: DiskView| job.free(false, d),
        ),
{
    let c = job.config;
    let begin = |d: DiskView| job.aside(d);
    let fine = |d: DiskView| job.fine(d);
    let free = |d: DiskView| job.free(false, d);
    let end = |v: (), d: DiskView| job.free(false, d);
    lemma_side_paths(c);
    lemma_done(c, RequestView::Remove(c.active_reappeared_path()), begin, fine, free);
    let request = RequestView::Exists(c.active_auth@);
    let found = |back: bool, d: DiskView| !back && job.free(false, d);
    lemma_flag(c, request, free, fine, found);
    let after = |back: bool| |l: Seq<Reply>, n: nat|
        if back {
            Run::Fail(ErrorView::RecoveryDeferred, n)
        } else {
            Run::Done((), n)
        };
    assert forall|back: bool| works(
        c,
        #[trigger] after(back),
        |d: DiskView| found(back, d),
        fine,
        end,
    ) by {
        let start = |d: DiskView| found(back, d);
        if back {
            lemma_never(c, after(back), start, fine, end);
        } else {
            lemma_at_once(c, (), after(back), start, fine, end);
        }
    }
    let looks = |l: Seq<Reply>, n: nat|
        flag_run(l, n, request).bind(
            |back: bool, m: nat|
                if back {
                    Run::Fail(ErrorView::RecoveryDeferred, m)
                } else {
                    Run::Done((), m)
                },
        );
    lemma_bind(
        c,
        |l: Seq<Reply>, n: nat| flag_run(l, n, request),
        after,
        looks,
        free,
        fine,
        found,
        end,
    );
    lemma_next(
        c,
        |l: Seq<Reply>, n: nat| done_run(l, n, RequestView::Remove(c.active_reappeared_path())),
        looks,
        |l: Seq<Reply>, n: nat| release_claimed_run(c, l, n),
        begin,
        fine,
        free,
        end,
    );
}

pub(crate) proof fn lemma_keep(job: Job)
    requires
        job.valid(),
        job.record.hold_active,
    ensures
        works(
            job.config,
            |l: Seq<Reply>, n: nat|
                keep_claimed_run(job.config, job.record.profile_pending, l, n),
            |d: DiskView| job.aside(d),
            |d: DiskView| job.fine(d),
            |v: (), d: DiskView| job.free(false, d),
        ),
{
    let c = job.config;
    let pending = job.record.profile_pending;
    let begin = |d: DiskView| job.aside(d);
    let fine = |d: DiskView| job.fine(d);
    let end = |v: (), d: DiskView| job.free(false, d);
    let path = c.active_reappeared_path();
    lemma_auth(c, path, job.shown, begin, fine);
    let between = |active: AuthDocument, d: DiskView| active@ == job.shown && begin(d);
    let after = |active: AuthDocument| |l: Seq<Reply>, n: nat|
        merge_staged_run(c, pending, active@, l, n).bind(
            |merged: bool, m: nat|
                if merged {
                    release_claimed_run(c, l, m)
                } else {
                    save_claimed_run(c, active@, l, m).next(|k: nat| release_claimed_run(c, l, k))
                },
        );
    assert forall|active: AuthDocument| works(
        c,
        #[trigger] after(active),
        |d: DiskView| between(active, d),
        fine,
        end,
    ) by {
        let start = |d: DiskView| between(active, d);
        if active@ == job.shown {
            lemma_keep_merged(job, after(active), start);
        } else {
            lemma_never(c, after(active), start, fine, end);
        }
    }
    lemma_bind(
        c,
        |l: Seq<Reply>, n: nat| auth_run(l, n, path),
        after,
        |l: Seq<Reply>, n: nat| keep_claimed_run(c, pending, l, n),
        begin,
        fine,
        between,
        end,
    );
}

pub(crate) proof fn lemma_keep_merged(
    job: Job,
    p: spec_fn(Seq<Reply>, nat) -> Run<()>,
    start: spec_fn(DiskView) -> bool,
)
    requires
        job.valid(),
        job.record.hold_active,
        forall|d: DiskView| #[trigger] start(d) ==> job.aside(d),
        forall|l: Seq<Reply>, n: nat| #[trigger]
            p(l, n) == merge_staged_run(
                job.config,
                job.record.profile_pending,
                job.shown,
                l,
                n,
            ).bind(
                |merged: bool, m: nat|
                    if merged {
                        release_claimed_run(job.config, l, m)
                    } else {
                        save_claimed_run(job.config, job.shown, l, m).next(
                            |k: nat| release_claimed_run(job.config, l, k),
                        )
                    },
            ),
    ensures
        works(
            job.config,
            p,
            start,
            |d: DiskView| job.fine(d),
            |v: (), d: DiskView| job.free(false, d),
        ),
{
    let c = job.config;
    let pending = job.record.profile_pending;
    let fine = |d: DiskView| job.fine(d);
    let aside = |d: DiskView| job.aside(d);
    let end = |v: (), d: DiskView| job.free(false, d);
    let known = |merged: bool, d: DiskView| job.aside(d) && (merged || job.owned(d));
    let merges = |l: Seq<Reply>, n: nat| merge_staged_run(c, pending, job.shown, l, n);
    let releases = |l: Seq<Reply>, n: nat| release_claimed_run(c, l, n);
    let saves = |l: Seq<Reply>, n: nat| save_claimed_run(c, job.shown, l, n);
    settled_merge_staged(c, pending, job.shown);
    settled_save_claimed(c, job.shown);
    lemma_merge(job);
    lemma_instead(c, merges, merges, aside, start, fine, known, known);
    lemma_release(job);
    lemma_save_claimed(job);
    let rest = |merged: bool| |l: Seq<Reply>, m: nat|
        if merged {
            release_claimed_run(c, l, m)
        } else {
            save_claimed_run(c, job.shown, l, m).next(|k: nat| release_claimed_run(c, l, k))
        };
    assert forall|merged: bool| works(
        c,
        #[trigger] rest(merged),
        |d: DiskView| known(merged, d),
        fine,
        end,
    ) by {
        let here = |d: DiskView| known(merged, d);
        if merged {
            lemma_instead(c, releases, rest(merged), aside, here, fine, end, end);
        } else {
            let begin = |d: DiskView| job.aside(d) && job.owned(d);
            lemma_instead(
                c,
                saves,
                saves,
                begin,
                here,
                fine,
                |v: (), d: DiskView| job.aside(d),
                |v: (), d: DiskView| aside(d),
            );
            lemma_next(c, saves, releases, rest(merged), here, fine, aside, end);
        }
    }
    lemma_bind(c, merges, rest, p, start, fine, known, end);
}

pub(crate) proof fn lemma_preserve(job: Job)
    requires
        job.valid(),
        job.record.hold_active,
    ensures
        works(
            job.config,
            |l: Seq<Reply>, n: nat|
                preserve_reappeared_run(job.config, job.record.profile_pending, l, n),
            |d: DiskView| job.held(d),
            |d: DiskView| job.fine(d),
            |v: (), d: DiskView| job.free(false, d),
        ),
{
    let c = job.config;
    let pending = job.record.profile_pending;
    let begin = |d: DiskView| job.held(d);
    let fine = |d: DiskView| job.fine(d);
    let end = |v: (), d: DiskView| job.free(false, d);
    let request = RequestView::Exists(c.active_reappeared_path());
    let found = |there: bool, d: DiskView|
        job.held(d) && there == d.has(c.active_reappeared_path());
    let known = |claimed: bool, d: DiskView| if claimed {
        job.aside(d)
    } else {
        job.free(false, d)
    };
    lemma_flag(c, request, begin, fine, found);
    lemma_claim(job);
    lemma_keep(job);
    let claims = |l: Seq<Reply>, n: nat| claim_run(c, l, n);
    let looks = |there: bool| |l: Seq<Reply>, n: nat|
        if there {
            Run::Done(true, n)
        } else {
            claim_run(c, l, n)
        };
    assert forall|there: bool| works(
        c,
        #[trigger] looks(there),
        |d: DiskView| found(there, d),
        fine,
        known,
    ) by {
        let start = |d: DiskView| found(there, d);
        if there {
            lemma_at_once(c, true, looks(there), start, fine, known);
        } else {
            lemma_instead(
                c,
                claims,
                looks(there),
                |d: DiskView| job.held(d) && !d.has(c.active_reappeared_path()),
                start,
                fine,
                known,
                known,
            );
        }
    }
    let first = |l: Seq<Reply>, n: nat|
        flag_run(l, n, request).bind(
            |there: bool, m: nat|
                if there {
                    Run::Done(true, m)
                } else {
                    claim_run(c, l, m)
                },
        );
    lemma_bind(
        c,
        |l: Seq<Reply>, n: nat| flag_run(l, n, request),
        looks,
        first,
        begin,
        fine,
        found,
        known,
    );
    settled_first(c, first);
    let rest = |claimed: bool| |l: Seq<Reply>, n: nat|
        if claimed {
            keep_claimed_run(c, pending, l, n)
        } else {
            Run::Done((), n)
        };
    assert forall|claimed: bool| works(
        c,
        #[trigger] rest(claimed),
        |d: DiskView| known(claimed, d),
        fine,
        end,
    ) by {
        let start = |d: DiskView| known(claimed, d);
        if claimed {
            lemma_instead(
                c,
                |l: Seq<Reply>, n: nat| keep_claimed_run(c, pending, l, n),
                rest(claimed),
                |d: DiskView| job.aside(d),
                start,
                fine,
                end,
                end,
            );
        } else {
            lemma_at_once(c, (), rest(claimed), start, fine, end);
        }
    }
    lemma_bind(
        c,
        first,
        rest,
        |l: Seq<Reply>, n: nat| preserve_reappeared_run(c, pending, l, n),
        begin,
        fine,
        known,
        end,
    );
}

/// The owner of the held credentials is found to be selected.
pub(crate) proof fn lemma_owner_selected(
    job: Job,
    begin: spec_fn(DiskView) -> bool,
    fine: spec_fn(DiskView) -> bool,
)
    requires
        forall|d: DiskView| #[trigger]
            begin(d) ==> fine(d) && d.choice == Some(selection_line(job.owner)) && job.owned(d),
    ensures
        works(
            job.config,
            |l: Seq<Reply>, n: nat| selected_run(job.config, l, n),
            begin,
            fine,
            |selected: Option<u32>, d: DiskView| selected == Some(job.owner) && begin(d),
        ),
{
    let c = job.config;
    let end = |selected: Option<u32>, d: DiskView| selected == Some(job.owner) && begin(d);
    let request = RequestView::ReadText(c.active_profile@);
    let read = |reply: Reply, n: nat| match reply {
        Reply::Text(text) => Run::Done(Some(text), n),
        Reply::Missing => Run::Done(None, n),
        Reply::Failed(_) => Run::Done(None, n),
        _ => Run::Fail(mismatch(), n),
    };
    let reads = |l: Seq<Reply>, n: nat| text_run(l, n, c.active_profile@);
    let known = |recorded: Option<String>, d: DiskView|
        begin(d) && (recorded matches Some(value) && parsed(trimmed(value@), u32::MAX as nat)
            == Some(job.owner as nat));
    assert forall|d: DiskView, reply: Reply, e: DiskView, n: nat|
        begin(d) && #[trigger] fits(c, d, request, reply, e) implies (#[trigger] read(
        reply,
        n,
    ) matches Run::Done(recorded, m) && m == n && fine(e) && known(recorded, e)) by {
        let line = decimal_text(job.owner as nat) + "\n"@;
        assert(encode_utf8(line) == selection_line(job.owner));
        lemma_selection_read(job.owner);
        if let Reply::Text(text) = reply {
            encode_utf8_decode_utf8(text@);
            encode_utf8_decode_utf8(line);
            assert(text@ == line);
        }
    }
    lemma_request(c, request, read, reads, begin, fine, known);
    assert(steady(reads)) by {
        reveal(steady);
    }
    let after = |recorded: Option<String>| |l: Seq<Reply>, n: nat|
        match recorded {
            Some(value) => match parsed(trimmed(value@), u32::MAX as nat) {
                Some(slot) => flag_run(
                    l,
                    n,
                    RequestView::IsDir(c.profile_dir_path(slot as u32)),
                ).bind(
                    |there: bool, m: nat|
                        Run::Done(
                            if there {
                                Some(slot as u32)
                            } else {
                                None
                            },
                            m,
                        ),
                ),
                None => Run::Done(None, n),
            },
            None => Run::Done(None, n),
        };
    assert forall|recorded: Option<String>| works(
        c,
        #[trigger] after(recorded),
        |d: DiskView| known(recorded, d),
        fine,
        end,
    ) by {
        let start = |d: DiskView| known(recorded, d);
        let named = match recorded {
            Some(value) => parsed(trimmed(value@), u32::MAX as nat),
            None => None,
        };
        if named == Some(job.owner as nat) {
            let looks = RequestView::IsDir(c.profile_dir_path(job.owner));
            let says = |there: bool| |l: Seq<Reply>, n: nat|
                Run::Done(
                    if there {
                        Some(job.owner)
                    } else {
                        None
                    },
                    n,
                );
            let yes = |l: Seq<Reply>, n: nat| Run::Done(Some(job.owner), n);
            lemma_at_once(c, Some(job.owner), yes, start, fine, end);
            lemma_expected(c, looks, true, yes, says, after(recorded), start, fine, start, end);
        } else {
            lemma_never(c, after(recorded), start, fine, end);
        }
    }
    lemma_bind(
        c,
        reads,
        after,
        |l: Seq<Reply>, n: nat| selected_run(c, l, n),
        begin,
        fine,
        known,
        end,
    );
}

pub(crate) proof fn lemma_put_back(job: Job)
    requires
        job.valid(),
        job.quiet(),
    ensures
        works(
            job.config,
            |l: Seq<Reply>, n: nat| put_back_run(job.config, l, n),
            |d: DiskView| job.had(false, d),
            |d: DiskView| job.fine(d),
            |finished: bool, d: DiskView| !finished && job.active(d),
        ),
{
    let c = job.config;
    let had = |d: DiskView| job.had(false, d);
    let active = |d: DiskView| job.active(d);
    let fine = |d: DiskView| job.fine(d);
    let end = |finished: bool, d: DiskView| !finished && job.active(d);
    let hold = c.active_hold_path();
    lemma_side_paths(c);
    let copy = RequestView::CopyIfAbsent { from: hold, to: c.active_auth@ };
    let nothing = |l: Seq<Reply>, n: nat| Run::Done((), n);
    let other = |copied: bool| |l: Seq<Reply>, n: nat|
        if copied {
            Run::Done((), n)
        } else {
            Run::Fail(ErrorView::RecoveryDeferred, n)
        };
    let restores = |l: Seq<Reply>, n: nat| restore_copy_run(l, n, hold, c.active_auth@);
    let back = |v: (), d: DiskView| active(d);
    lemma_at_once(c, (), nothing, active, fine, back);
    lemma_expected(c, copy, true, nothing, other, restores, had, fine, active, back);
    assert(steady(restores)) by {
        reveal(steady);
    }
    let removes = |l: Seq<Reply>, n: nat| done_run(l, n, RequestView::Remove(hold));
    let syncs = |l: Seq<Reply>, n: nat| done_run(l, n, RequestView::SyncParent(hold));
    let says = |l: Seq<Reply>, n: nat| Run::Done(false, n);
    lemma_done(c, RequestView::Remove(hold), active, fine, active);
    lemma_done(c, RequestView::SyncParent(hold), active, fine, active);
    lemma_at_once(c, false, says, active, fine, end);
    let last = |l: Seq<Reply>, n: nat| syncs(l, n).next(|k: nat| says(l, k));
    lemma_next(c, syncs, says, last, active, fine, active, end);
    let rest = |l: Seq<Reply>, n: nat| removes(l, n).next(|k: nat| last(l, k));
    lemma_next(c, removes, last, rest, active, fine, active, end);
    lemma_next(
        c,
        restores,
        rest,
        |l: Seq<Reply>, n: nat| put_back_run(c, l, n),
        had,
        fine,
        active,
        end,
    );
}

pub(crate) proof fn lemma_give(job: Job)
    requires
        job.valid(),
        job.quiet(),
    ensures
        works(
            job.config,
            |l: Seq<Reply>, n: nat|
                give_back_run(job.config, job.shown, Some(job.owner), l, n),
            |d: DiskView| job.had(false, d),
            |d: DiskView| job.fine(d),
            |finished: bool, d: DiskView| !finished && job.active(d),
        ),
{
    let c = job.config;
    let had = |d: DiskView| job.had(false, d);
    let fine = |d: DiskView| job.fine(d);
    let end = |finished: bool, d: DiskView| !finished && job.active(d);
    let path = job.owned_path();
    let hold = c.active_hold_path();
    let read = |reply: Reply, n: nat| match reply {
        Reply::Auth(document) => Run::Done(Some(document), n),
        _ => Run::Done(None, n),
    };
    let reads = |l: Seq<Reply>, n: nat| auth_if_valid_run(l, n, path);
    let known = |saved: Option<AuthDocument>, d: DiskView|
        saved is Some && saved->0@ == job.shown && job.had(false, d);
    lemma_request(c, RequestView::ReadAuth(path), read, reads, had, fine, known);
    assert(steady(reads)) by {
        reveal(steady);
    }
    let puts = |l: Seq<Reply>, n: nat| put_back_run(c, l, n);
    lemma_put_back(job);
    law_same_account(job.shown.identity, job.shown.identity, job.shown.identity);
    let after = |saved: Option<AuthDocument>| |l: Seq<Reply>, n: nat|
        match saved {
            Some(profile) => if !profile@.identity.same_account(job.shown.identity) {
                put_back_run(c, l, n)
            } else if profile@.newer(job.shown) {
                put_newer_run(c, job.owner, l, n)
            } else {
                reconcile_run(l, n, hold, job.shown, path, profile@).next(
                    |m: nat| put_back_run(c, l, m),
                )
            },
            None => put_back_run(c, l, n),
        };
    assert forall|saved: Option<AuthDocument>| works(
        c,
        #[trigger] after(saved),
        |d: DiskView| known(saved, d),
        fine,
        end,
    ) by {
        let start = |d: DiskView| known(saved, d);
        if saved is Some && saved->0@ == job.shown {
            let reconciles = |l: Seq<Reply>, n: nat|
                reconcile_run(l, n, hold, job.shown, path, job.shown);
            lemma_reconciled(c, job.shown, hold, path, start, fine);
            lemma_instead(c, puts, puts, had, start, fine, end, end);
            lemma_next(c, reconciles, puts, after(saved), start, fine, start, end);
        } else {
            lemma_never(c, after(saved), start, fine, end);
        }
    }
    lemma_bind(
        c,
        reads,
        after,
        |l: Seq<Reply>, n: nat| give_back_run(c, job.shown, Some(job.owner), l, n),
        had,
        fine,
        known,
        end,
    );
}

/// Nothing is in place of the held credentials that would have to be saved.
pub(crate) proof fn lemma_nothing_there(job: Job)
    requires
        job.valid(),
        job.quiet(),
    ensures
        works(
            job.config,
            |l: Seq<Reply>, n: nat| preserve_reappeared_run(job.config, None, l, n),
            |d: DiskView| job.had(false, d),
            |d: DiskView| job.fine(d),
            |v: (), d: DiskView| job.had(false, d),
        ),
{
    let c = job.config;
    let had = |d: DiskView| job.had(false, d);
    let fine = |d: DiskView| job.fine(d);
    let end = |v: (), d: DiskView| job.had(false, d);
    let no = |claimed: bool, d: DiskView| !claimed && job.had(false, d);
    let claim = RequestView::Claim { from: c.active_auth@, to: c.active_reappeared_path() };
    let says = |l: Seq<Reply>, n: nat| Run::Done(false, n);
    let moved = |there: bool| |l: Seq<Reply>, n: nat|
        if there {
            done_run(l, n, RequestView::SyncParent(c.active_reappeared_path())).next(
                |m: nat| Run::Done(true, m),
            )
        } else {
            Run::Done(false, n)
        };
    let claims = |l: Seq<Reply>, n: nat| claim_run(c, l, n);
    lemma_side_paths(c);
    lemma_at_once(c, false, says, had, fine, no);
    lemma_expected(c, claim, false, says, moved, claims, had, fine, had, no);
    let looks = |there: bool| |l: Seq<Reply>, n: nat|
        if there {
            Run::Done(true, n)
        } else {
            claim_run(c, l, n)
        };
    let first = |l: Seq<Reply>, n: nat|
        flag_run(l, n, RequestView::Exists(c.active_reappeared_path())).bind(
            |there: bool, m: nat|
                if there {
                    Run::Done(true, m)
                } else {
                    claim_run(c, l, m)
                },
        );
    lemma_expected(
        c,
        RequestView::Exists(c.active_reappeared_path()),
        false,
        claims,
        looks,
        first,
        had,
        fine,
        had,
        no,
    );
    settled_first(c, first);
    let rest = |claimed: bool| |l: Seq<Reply>, n: nat|
        if claimed {
            keep_claimed_run(c, None, l, n)
        } else {
            Run::Done((), n)
        };
    assert forall|claimed: bool| works(
        c,
        #[trigger] rest(claimed),
        |d: DiskView| no(claimed, d),
        fine,
        end,
    ) by {
        let start = |d: DiskView| no(claimed, d);
        if claimed {
            lemma_never(c, rest(claimed), start, fine, end);
        } else {
            lemma_at_once(c, (), rest(claimed), start, fine, end);
        }
    }
    lemma_bind(
        c,
        first,
        rest,
        |l: Seq<Reply>, n: nat| preserve_reappeared_run(c, None, l, n),
        had,
        fine,
        no,
        end,
    );
}

pub(crate) proof fn lemma_return(job: Job)
    requires
        job.valid(),
        job.quiet(),
    ensures
        works(
            job.config,
            |l: Seq<Reply>, n: nat| return_hold_run(job.config, l, n),
            |d: DiskView| job.had(false, d),
            |d: DiskView| job.fine(d),
            |finished: bool, d: DiskView| !finished && job.active(d),
        ),
{
    let c = job.config;
    let had = |d: DiskView| job.had(false, d);
    let fine = |d: DiskView| job.fine(d);
    let end = |finished: bool, d: DiskView| !finished && job.active(d);
    let hold = c.active_hold_path();
    let between = |held: AuthDocument, d: DiskView| held@ == job.shown && had(d);
    let tail = |held: AuthDocument| |l: Seq<Reply>, n: nat|
        selected_run(c, l, n).bind(
            |selected: Option<u32>, j: nat| give_back_run(c, held@, selected, l, j),
        );
    lemma_give(job);
    settled_selected(c);
    let selects = |l: Seq<Reply>, n: nat| selected_run(c, l, n);
    let gives = |l: Seq<Reply>, n: nat| give_back_run(c, job.shown, Some(job.owner), l, n);
    assert forall|held: AuthDocument| works(
        c,
        #[trigger] tail(held),
        |d: DiskView| between(held, d),
        fine,
        end,
    ) by {
        let start = |d: DiskView| between(held, d);
        if held@ == job.shown {
            let known = |selected: Option<u32>, d: DiskView|
                selected == Some(job.owner) && start(d);
            lemma_owner_selected(job, start, fine);
            let after = |selected: Option<u32>| |l: Seq<Reply>, n: nat|
                give_back_run(c, held@, selected, l, n);
            assert forall|selected: Option<u32>| works(
                c,
                #[trigger] after(selected),
                |d: DiskView| known(selected, d),
                fine,
                end,
            ) by {
                let here = |d: DiskView| known(selected, d);
                if selected == Some(job.owner) {
                    lemma_instead(c, gives, after(selected), had, here, fine, end, end);
                } else {
                    lemma_never(c, after(selected), here, fine, end);
                }
            }
            lemma_bind(c, selects, after, tail(held), start, fine, known, end);
        } else {
            lemma_never(c, tail(held), start, fine, end);
        }
    }
    let auths = |l: Seq<Reply>, n: nat| auth_run(l, n, hold);
    let reads = |l: Seq<Reply>, n: nat|
        auths(l, n).bind(|held: AuthDocument, k: nat| tail(held)(l, k));
    lemma_auth(c, hold, job.shown, had, fine);
    lemma_bind(c, auths, tail, reads, had, fine, between, end);
    let keeps = |l: Seq<Reply>, n: nat| preserve_reappeared_run(c, None, l, n);
    lemma_nothing_there(job);
    settled_preserve_reappeared(c, None);
    lemma_instead(
        c,
        keeps,
        keeps,
        had,
        had,
        fine,
        |v: (), d: DiskView| job.had(false, d),
        |v: (), d: DiskView| had(d),
    );
    let rest = |l: Seq<Reply>, n: nat| keeps(l, n).next(|k: nat| reads(l, k));
    lemma_next(c, keeps, reads, rest, had, fine, had, end);
    let other = |there: bool| |l: Seq<Reply>, n: nat|
        if !there {
            Run::Done(false, n)
        } else {
            rest(l, n)
        };
    let whole = |l: Seq<Reply>, n: nat| return_hold_run(c, l, n);
    lemma_expected(
        c,
        RequestView::Exists(hold),
        true,
        rest,
        other,
        whole,
        had,
        fine,
        had,
        end,
    );
}

pub(crate) proof fn lemma_give_back(job: Job)
    requires
        job.valid(),
        job.quiet(),
    ensures
        works(
            job.config,
            |l: Seq<Reply>, n: nat| restore_hold_run(job.config, l, n),
            |d: DiskView| job.had(false, d),
            |d: DiskView| job.fine(d),
            |v: (), d: DiskView| job.active(d),
        ),
{
    let c = job.config;
    let had = |d: DiskView| job.had(false, d);
    let active = |d: DiskView| job.active(d);
    let fine = |d: DiskView| job.fine(d);
    let end = |v: (), d: DiskView| job.active(d);
    let nothing = |l: Seq<Reply>, n: nat| Run::Done((), n);
    let replaces = |l: Seq<Reply>, n: nat| replace_lost_run(c, l, n);
    let lost = |held: bool| |l: Seq<Reply>, n: nat|
        if held {
            Run::Done((), n)
        } else {
            flag_run(l, n, RequestView::Exists(c.active_pending_path())).bind(
                |aside: bool, m: nat|
                    if !aside {
                        Run::Done((), m)
                    } else {
                        flag_run(l, m, RequestView::Exists(c.active_auth@)).bind(
                            |back: bool, k: nat|
                                if back {
                                    Run::Done((), k)
                                } else {
                                    stand_in_run(c, l, k).bind(
                                        |source: Seq<char>, j: nat|
                                            restore_copy_run(l, j, source, c.active_auth@),
                                    )
                                },
                        )
                    },
            )
        };
    lemma_side_paths(c);
    lemma_at_once(c, (), nothing, had, fine, |v: (), d: DiskView| had(d));
    lemma_expected(
        c,
        RequestView::Exists(c.active_hold_path()),
        true,
        nothing,
        lost,
        replaces,
        had,
        fine,
        had,
        |v: (), d: DiskView| had(d),
    );
    settled_replace_lost(c);
    let removal = RequestView::Remove(c.active_pending_path());
    let removes = |l: Seq<Reply>, n: nat| done_run(l, n, removal);
    lemma_done(c, removal, active, fine, active);
    lemma_instead(
        c,
        removes,
        removes,
        active,
        active,
        fine,
        |v: (), d: DiskView| active(d),
        end,
    );
    let settles = |l: Seq<Reply>, n: nat| settle_pending_run(c, l, n);
    let aside = |there: bool| |l: Seq<Reply>, n: nat|
        if there {
            flag_run(l, n, RequestView::Exists(c.active_auth@)).bind(
                |back: bool, m: nat|
                    if back {
                        done_run(l, m, removal)
                    } else {
                        Run::Fail(ErrorView::RecoveryDeferred, m)
                    },
            )
        } else {
            done_run(l, n, removal)
        };
    lemma_expected(
        c,
        RequestView::Exists(c.active_pending_path()),
        false,
        removes,
        aside,
        settles,
        active,
        fine,
        active,
        end,
    );
    let brings = |l: Seq<Reply>, n: nat| return_hold_run(c, l, n);
    let known = |finished: bool, d: DiskView| !finished && job.active(d);
    lemma_return(job);
    settled_return_hold(c);
    let after = |finished: bool| |l: Seq<Reply>, n: nat|
        if finished {
            Run::Done((), n)
        } else {
            settle_pending_run(c, l, n)
        };
    assert forall|finished: bool| works(
        c,
        #[trigger] after(finished),
        |d: DiskView| known(finished, d),
        fine,
        end,
    ) by {
        let start = |d: DiskView| known(finished, d);
        if finished {
            lemma_never(c, after(finished), start, fine, end);
        } else {
            lemma_instead(c, settles, after(finished), active, start, fine, end, end);
        }
    }
    let rest = |l: Seq<Reply>, n: nat| brings(l, n).bind(|v: bool, k: nat| after(v)(l, k));
    lemma_bind(c, brings, after, rest, had, fine, known, end);
    lemma_next(
        c,
        replaces,
        rest,
        |l: Seq<Reply>, n: nat| restore_hold_run(c, l, n),
        had,
        fine,
        had,
        end,
    );
}

/// Bringing the saved copy of credentials that are back in their place up to date.
pub(crate) proof fn lemma_update(job: Job, begin: spec_fn(DiskView) -> bool)
    requires
        forall|d: DiskView| #[trigger]
            begin(d) ==> job.fine(d) && job.owned(d) && d.has(job.config.active_auth@)
                && d.auths[job.config.active_auth@] == job.shown,
    ensures
        works(
            job.config,
            |l: Seq<Reply>, n: nat| update_selected_run(job.config, job.owner, l, n),
            begin,
            |d: DiskView| job.fine(d),
            |updated: bool, d: DiskView| updated && begin(d),
        ),
{
    let c = job.config;
    let fine = |d: DiskView| job.fine(d);
    let end = |updated: bool, d: DiskView| updated && begin(d);
    let from = c.active_auth@;
    let path = job.owned_path();
    law_same_account(job.shown.identity, job.shown.identity, job.shown.identity);
    let same = |found: AuthDocument, d: DiskView| found@ == job.shown && begin(d);
    let says = |l: Seq<Reply>, n: nat| Run::Done(true, n);
    let both = |active: AuthDocument| |profile: AuthDocument| |l: Seq<Reply>, n: nat|
        if active@.identity.same_account(profile@.identity) {
            reconcile_run(l, n, from, active@, path, profile@).next(|k: nat| Run::Done(true, k))
        } else {
            Run::Done(false, n)
        };
    let saved = |l: Seq<Reply>, n: nat| auth_run(l, n, path);
    let rest = |active: AuthDocument| |l: Seq<Reply>, n: nat|
        auth_run(l, n, path).bind(
            |profile: AuthDocument, m: nat|
                if active@.identity.same_account(profile@.identity) {
                    reconcile_run(l, m, from, active@, path, profile@).next(
                        |k: nat| Run::Done(true, k),
                    )
                } else {
                    Run::Done(false, m)
                },
        );
    assert forall|active: AuthDocument| works(
        c,
        #[trigger] rest(active),
        |d: DiskView| same(active, d),
        fine,
        end,
    ) by {
        let start = |d: DiskView| same(active, d);
        if active@ == job.shown {
            lemma_auth(c, path, job.shown, start, fine);
            let known = |profile: AuthDocument, d: DiskView| profile@ == job.shown && start(d);
            let after = both(active);
            assert forall|profile: AuthDocument| works(
                c,
                #[trigger] after(profile),
                |d: DiskView| known(profile, d),
                fine,
                end,
            ) by {
                let here = |d: DiskView| known(profile, d);
                if profile@ == job.shown {
                    let reconciles = |l: Seq<Reply>, n: nat|
                        reconcile_run(l, n, from, job.shown, path, job.shown);
                    lemma_reconciled(c, job.shown, from, path, here, fine);
                    lemma_at_once(c, true, says, here, fine, end);
                    lemma_next(c, reconciles, says, after(profile), here, fine, here, end);
                } else {
                    lemma_never(c, after(profile), here, fine, end);
                }
            }
            lemma_bind(c, saved, after, rest(active), start, fine, known, end);
        } else {
            lemma_never(c, rest(active), start, fine, end);
        }
    }
    lemma_auth(c, from, job.shown, begin, fine);
    lemma_bind(
        c,
        |l: Seq<Reply>, n: nat| auth_run(l, n, from),
        rest,
        |l: Seq<Reply>, n: nat| update_selected_run(c, job.owner, l, n),
        begin,
        fine,
        same,
        end,
    );
}

/// Whether held credentials are back in their place already is found out.
pub(crate) proof fn lemma_restored(job: Job)
    requires
        job.valid(),
    ensures
        works(
            job.config,
            |l: Seq<Reply>, n: nat| already_restored_run(job.config, job.record, l, n),
            |d: DiskView| job.begun(d),
            |d: DiskView| job.fine(d),
            |restored: bool, d: DiskView| job.told(restored, d),
        ),
{
    let c = job.config;
    let begun = |d: DiskView| job.begun(d);
    let fine = |d: DiskView| job.fine(d);
    let end = |restored: bool, d: DiskView| job.told(restored, d);
    let whole = |l: Seq<Reply>, n: nat| already_restored_run(c, job.record, l, n);
    if !job.quiet() {
        lemma_at_once(c, false, whole, begun, fine, end);
    } else {
        let hold = RequestView::Exists(c.active_hold_path());
        let found = |held: bool, d: DiskView|
            job.begun(d) && held == d.has(c.active_hold_path());
        lemma_flag(c, hold, begun, fine, found);
        let back = |d: DiskView| job.told(true, d);
        let updates = |l: Seq<Reply>, n: nat| update_selected_run(c, job.owner, l, n);
        lemma_update(job, back);
        lemma_owner_selected(job, back, fine);
        settled_selected(c);
        let selects = |l: Seq<Reply>, n: nat| selected_run(c, l, n);
        let known = |selected: Option<u32>, d: DiskView|
            selected == Some(job.owner) && back(d);
        let after = |selected: Option<u32>| |l: Seq<Reply>, n: nat|
            match selected {
                Some(slot) => update_selected_run(c, slot, l, n),
                None => Run::Done(false, n),
            };
        assert forall|selected: Option<u32>| works(
            c,
            #[trigger] after(selected),
            |d: DiskView| known(selected, d),
            fine,
            end,
        ) by {
            let start = |d: DiskView| known(selected, d);
            if selected == Some(job.owner) {
                lemma_instead(
                    c,
                    updates,
                    after(selected),
                    back,
                    start,
                    fine,
                    |updated: bool, d: DiskView| updated && back(d),
                    end,
                );
            } else {
                lemma_never(c, after(selected), start, fine, end);
            }
        }
        let looks = |l: Seq<Reply>, n: nat|
            selects(l, n).bind(|v: Option<u32>, k: nat| after(v)(l, k));
        lemma_bind(c, selects, after, looks, back, fine, known, end);
        let there = |answer: bool| |l: Seq<Reply>, n: nat|
            if !answer {
                Run::Done(false, n)
            } else {
                looks(l, n)
            };
        let asks = |l: Seq<Reply>, n: nat|
            flag_run(l, n, RequestView::IsFile(c.active_auth@)).bind(
                |v: bool, k: nat| there(v)(l, k),
            );
        lemma_expected(
            c,
            RequestView::IsFile(c.active_auth@),
            true,
            looks,
            there,
            asks,
            back,
            fine,
            back,
            end,
        );
        let rest = |held: bool| |l: Seq<Reply>, n: nat|
            if held {
                Run::Done(false, n)
            } else {
                asks(l, n)
            };
        assert forall|held: bool| works(
            c,
            #[trigger] rest(held),
            |d: DiskView| found(held, d),
            fine,
            end,
        ) by {
            let start = |d: DiskView| found(held, d);
            if held {
                lemma_at_once(c, false, rest(held), start, fine, end);
            } else {
                lemma_instead(c, asks, rest(held), back, start, fine, end, end);
            }
        }
        lemma_bind(
            c,
            |l: Seq<Reply>, n: nat| flag_run(l, n, hold),
            rest,
            whole,
            begun,
            fine,
            found,
            end,
        );
    }
}

pub(crate) proof fn lemma_activate(job: Job, restored: bool)
    requires
        job.valid(),
    ensures
        works(
            job.config,
            |l: Seq<Reply>, n: nat| activate_run(job.config, job.record, job.slot, restored, l, n),
            |d: DiskView| job.had(restored, d),
            |d: DiskView| job.fine(d),
            |v: (), d: DiskView| job.active(d),
        ),
{
    let c = job.config;
    let begin = |d: DiskView| job.had(restored, d);
    let fine = |d: DiskView| job.fine(d);
    let active = |d: DiskView| job.active(d);
    let end = |v: (), d: DiskView| job.active(d);
    let whole = |l: Seq<Reply>, n: nat| activate_run(c, job.record, job.slot, restored, l, n);
    let saved = job.saved_path();
    lemma_side_paths(c);
    if job.record.hold_active && job.record.activate {
        let request = RequestView::CopyIfAbsent { from: saved, to: c.active_auth@ };
        let copied = |answer: bool, d: DiskView| answer && job.active(d);
        lemma_flag(c, request, begin, fine, copied);
        let after = |answer: bool| |l: Seq<Reply>, n: nat|
            if answer {
                Run::Done((), n)
            } else {
                Run::Fail(ErrorView::RecoveryDeferred, n)
            };
        assert forall|answer: bool| works(
            c,
            #[trigger] after(answer),
            |d: DiskView| copied(answer, d),
            fine,
            end,
        ) by {
            let start = |d: DiskView| copied(answer, d);
            if answer {
                lemma_at_once(c, (), after(answer), start, fine, end);
            } else {
                lemma_never(c, after(answer), start, fine, end);
            }
        }
        lemma_bind(
            c,
            |l: Seq<Reply>, n: nat| flag_run(l, n, request),
            after,
            whole,
            begin,
            fine,
            copied,
            end,
        );
    } else if job.record.activate {
        let request = RequestView::Copy { from: saved, to: c.active_auth@ };
        lemma_done(c, request, begin, fine, active);
        lemma_instead(
            c,
            |l: Seq<Reply>, n: nat| done_run(l, n, request),
            whole,
            begin,
            begin,
            fine,
            |v: (), d: DiskView| active(d),
            end,
        );
    } else if job.quiet() && !restored {
        let restores = |l: Seq<Reply>, n: nat| restore_hold_run(c, l, n);
        lemma_give_back(job);
        lemma_instead(c, restores, whole, begin, begin, fine, end, end);
    } else {
        lemma_at_once(c, (), whole, begin, fine, end);
    }
}

}
