//! A commit that stopped at any point after it was recorded is brought to its end by recovery,
//! whatever it changes.
use crate::account_store::{
    select_run, selection_line, TransactionMode, TransactionState, TransactionView,
};
use crate::barrier::{blocked_run, commit_switch_run, recover_run, resume_run, staging_busy_run};
use crate::config::{law_accounts_are_apart, Config};
use crate::course::{
    lemma_at_once, lemma_bind, lemma_comes_to, lemma_done, lemma_flag, lemma_instead, lemma_never,
    lemma_next, lemma_request, lemma_steady_bind, lemma_steady_next, lemma_wider, steady, works,
};
use crate::effects::{done_run, flag_run, mismatch, state_run, Reply, RequestView, Run};
use crate::error::ErrorView;
use crate::giving::{lemma_activate, lemma_preserve, lemma_restored};
use crate::job::Job;
use crate::linking::{lemma_check_session, lemma_relink};
use crate::paths::{joined, parts_of, PathView};
use crate::recovery::{fits, inside, lemma_side_paths, played, DiskView};
use crate::settled::{
    lemma_same_steady, settled_activate, settled_back_up, settled_blocked, settled_check_session,
    settled_cleanup_held, settled_cleanup_source, settled_cleanup_staged, settled_finish,
    settled_preserve_reappeared, settled_promote, settled_recover, settled_relink,
    settled_restored, settled_through, through_run,
};
use crate::steady::{lemma_recover_part, lemma_resume_part, recover_part, resume_part};
use crate::transaction::{
    activate_run, already_restored_run, back_up_run, check_session_run, cleanup_held_run,
    cleanup_run, cleanup_source_run, cleanup_staged_run, commit_slot_run, finish_commit_run,
    generated_run, preserve_reappeared_run, promote_run, relink_run, OWNED_TEMP_MARKER,
    STAGING_WRITER_LOCK,
};
use vstd::prelude::*;

verus! {

/// The saved credentials of other accounts are other files.
pub(crate) proof fn lemma_others(job: Job)
    ensures
        forall|other: u32|
            other != job.slot ==> #[trigger] job.config.profile_auth_path(other)
                != job.saved_path(),
{
    assert forall|other: u32| other != job.slot implies #[trigger] job.config.profile_auth_path(
        other,
    ) != job.saved_path() by {
        law_accounts_are_apart(job.config, other, job.slot);
    }
}

pub(crate) proof fn lemma_back_up(job: Job, restored: bool)
    requires
        job.valid(),
    ensures
        works(
            job.config,
            |l: Seq<Reply>, n: nat| back_up_run(job.config, job.slot, l, n),
            |d: DiskView| job.free(restored, d) && job.staged(d),
            |d: DiskView| job.fine(d),
            |v: (), d: DiskView| job.free(restored, d) && job.staged(d),
        ),
{
    let c = job.config;
    let begin = |d: DiskView| job.free(restored, d) && job.staged(d);
    let fine = |d: DiskView| job.fine(d);
    let end = |v: (), d: DiskView| job.free(restored, d) && job.staged(d);
    let saved = job.saved_path();
    let backup = job.backup_path();
    lemma_side_paths(c);
    let found = |there: bool, d: DiskView| begin(d) && (there ==> d.has(saved));
    lemma_flag(c, RequestView::Exists(saved), begin, fine, found);
    let after = |there: bool| |l: Seq<Reply>, n: nat|
        if !there {
            Run::Done((), n)
        } else {
            flag_run(l, n, RequestView::Exists(backup)).bind(
                |kept: bool, m: nat|
                    if kept {
                        Run::Done((), m)
                    } else {
                        done_run(l, m, RequestView::Copy { from: saved, to: backup })
                    },
            )
        };
    assert forall|there: bool| works(
        c,
        #[trigger] after(there),
        |d: DiskView| found(there, d),
        fine,
        end,
    ) by {
        let start = |d: DiskView| found(there, d);
        if !there {
            lemma_at_once(c, (), after(there), start, fine, end);
        } else {
            let still = |kept: bool, d: DiskView| start(d);
            lemma_flag(c, RequestView::Exists(backup), start, fine, still);
            let copies = |kept: bool| |l: Seq<Reply>, n: nat|
                if kept {
                    Run::Done((), n)
                } else {
                    done_run(l, n, RequestView::Copy { from: saved, to: backup })
                };
            assert forall|kept: bool| works(
                c,
                #[trigger] copies(kept),
                |d: DiskView| still(kept, d),
                fine,
                end,
            ) by {
                let here = |d: DiskView| still(kept, d);
                if kept {
                    lemma_at_once(c, (), copies(kept), here, fine, end);
                } else {
                    let request = RequestView::Copy { from: saved, to: backup };
                    lemma_done(c, request, here, fine, begin);
                    lemma_instead(
                        c,
                        |l: Seq<Reply>, n: nat| done_run(l, n, request),
                        copies(kept),
                        here,
                        here,
                        fine,
                        |v: (), d: DiskView| begin(d),
                        end,
                    );
                }
            }
            lemma_bind(
                c,
                |l: Seq<Reply>, n: nat| flag_run(l, n, RequestView::Exists(backup)),
                copies,
                after(there),
                start,
                fine,
                still,
                end,
            );
        }
    }
    lemma_bind(
        c,
        |l: Seq<Reply>, n: nat| flag_run(l, n, RequestView::Exists(saved)),
        after,
        |l: Seq<Reply>, n: nat| back_up_run(c, job.slot, l, n),
        begin,
        fine,
        found,
        end,
    );
}

pub(crate) proof fn lemma_promote(job: Job, restored: bool)
    requires
        job.valid(),
    ensures
        works(
            job.config,
            |l: Seq<Reply>, n: nat| promote_run(job.config, job.record, job.slot, l, n),
            |d: DiskView| job.free(restored, d),
            |d: DiskView| job.fine(d),
            |v: (), d: DiskView| job.had(restored, d),
        ),
{
    let c = job.config;
    let begin = |d: DiskView| job.free(restored, d);
    let fine = |d: DiskView| job.fine(d);
    let end = |v: (), d: DiskView| job.had(restored, d);
    let whole = |l: Seq<Reply>, n: nat| promote_run(c, job.record, job.slot, l, n);
    lemma_side_paths(c);
    lemma_others(job);
    match job.record.profile_pending {
        None => {
            lemma_at_once(c, (), whole, begin, fine, end);
        },
        Some(pending) => {
            let found = |staged: bool, d: DiskView| job.free(restored, d) && staged == job.staged(d);
            lemma_flag(c, RequestView::Exists(pending), begin, fine, found);
            let request = RequestView::PrivateDir(c.profile_dir_path(job.slot));
            let copy = RequestView::Copy { from: pending, to: job.saved_path() };
            let after = |staged: bool| |l: Seq<Reply>, n: nat|
                if !staged {
                    Run::Done((), n)
                } else {
                    done_run(l, n, request).next(
                        |m: nat|
                            back_up_run(c, job.slot, l, m).next(|k: nat| done_run(l, k, copy)),
                    )
                };
            assert forall|staged: bool| works(
                c,
                #[trigger] after(staged),
                |d: DiskView| found(staged, d),
                fine,
                end,
            ) by {
                let start = |d: DiskView| found(staged, d);
                if !staged {
                    lemma_at_once(c, (), after(staged), start, fine, end);
                } else {
                    let ready = |d: DiskView| job.free(restored, d) && job.staged(d);
                    lemma_done(c, request, start, fine, ready);
                    lemma_back_up(job, restored);
                    settled_back_up(c, job.slot);
                    let had = |d: DiskView| job.had(restored, d);
                    lemma_done(c, copy, ready, fine, had);
                    let backs_up = |l: Seq<Reply>, n: nat| back_up_run(c, job.slot, l, n);
                    let copies = |l: Seq<Reply>, n: nat| done_run(l, n, copy);
                    lemma_instead(
                        c,
                        backs_up,
                        backs_up,
                        ready,
                        ready,
                        fine,
                        |v: (), d: DiskView| job.free(restored, d) && job.staged(d),
                        |v: (), d: DiskView| ready(d),
                    );
                    lemma_instead(
                        c,
                        copies,
                        copies,
                        ready,
                        ready,
                        fine,
                        |v: (), d: DiskView| had(d),
                        end,
                    );
                    let both = |l: Seq<Reply>, n: nat|
                        back_up_run(c, job.slot, l, n).next(|k: nat| done_run(l, k, copy));
                    lemma_next(c, backs_up, copies, both, ready, fine, ready, end);
                    lemma_next(
                        c,
                        |l: Seq<Reply>, n: nat| done_run(l, n, request),
                        both,
                        after(staged),
                        start,
                        fine,
                        ready,
                        end,
                    );
                }
            }
            lemma_bind(
                c,
                |l: Seq<Reply>, n: nat| flag_run(l, n, RequestView::Exists(pending)),
                after,
                whole,
                begin,
                fine,
                found,
                end,
            );
        },
    }
}

pub(crate) proof fn lemma_select(job: Job)
    requires
        job.valid(),
    ensures
        works(
            job.config,
            |l: Seq<Reply>, n: nat|
                if job.record.select {
                    select_run(job.config, job.slot, l, n)
                } else {
                    Run::Done((), n)
                },
            |d: DiskView| job.bound(d),
            |d: DiskView| job.fine(d),
            |v: (), d: DiskView| job.chosen(d),
        ),
{
    let c = job.config;
    let bound = |d: DiskView| job.bound(d);
    let fine = |d: DiskView| job.fine(d);
    let chosen = |d: DiskView| job.chosen(d);
    let end = |v: (), d: DiskView| job.chosen(d);
    let whole = |l: Seq<Reply>, n: nat|
        if job.record.select {
            select_run(c, job.slot, l, n)
        } else {
            Run::Done((), n)
        };
    if job.record.select {
        let request = RequestView::Write {
            path: c.active_profile@,
            bytes: selection_line(job.slot),
        };
        lemma_done(c, request, bound, fine, chosen);
        lemma_instead(
            c,
            |l: Seq<Reply>, n: nat| done_run(l, n, request),
            whole,
            bound,
            bound,
            fine,
            |v: (), d: DiskView| chosen(d),
            end,
        );
    } else {
        lemma_at_once(c, (), whole, bound, fine, end);
    }
}

pub(crate) proof fn lemma_commit_slot(job: Job, restored: bool)
    requires
        job.valid(),
    ensures
        works(
            job.config,
            |l: Seq<Reply>, n: nat|
                commit_slot_run(job.config, job.record, job.slot, restored, l, n),
            |d: DiskView| job.free(restored, d),
            |d: DiskView| job.fine(d),
            |v: (), d: DiskView| job.chosen(d),
        ),
{
    let c = job.config;
    let t = job.record;
    let slot = job.slot;
    let free = |d: DiskView| job.free(restored, d);
    let had = |d: DiskView| job.had(restored, d);
    let active = |d: DiskView| job.active(d);
    let bound = |d: DiskView| job.bound(d);
    let fine = |d: DiskView| job.fine(d);
    let end = |v: (), d: DiskView| job.chosen(d);
    let promotes = |l: Seq<Reply>, n: nat| promote_run(c, t, slot, l, n);
    let activates = |l: Seq<Reply>, n: nat| activate_run(c, t, slot, restored, l, n);
    let relinks = |l: Seq<Reply>, n: nat| relink_run(c, t, slot, l, n);
    let selects = |l: Seq<Reply>, n: nat|
        if t.select {
            select_run(c, slot, l, n)
        } else {
            Run::Done((), n)
        };
    lemma_promote(job, restored);
    lemma_activate(job, restored);
    lemma_relink(job);
    lemma_select(job);
    settled_promote(c, t, slot);
    settled_activate(c, t, slot, restored);
    settled_relink(c, t, slot);
    lemma_instead(
        c,
        promotes,
        promotes,
        free,
        free,
        fine,
        |v: (), d: DiskView| job.had(restored, d),
        |v: (), d: DiskView| had(d),
    );
    lemma_instead(
        c,
        activates,
        activates,
        had,
        had,
        fine,
        |v: (), d: DiskView| job.active(d),
        |v: (), d: DiskView| active(d),
    );
    lemma_instead(
        c,
        relinks,
        relinks,
        active,
        active,
        fine,
        |v: (), d: DiskView| job.bound(d),
        |v: (), d: DiskView| bound(d),
    );
    lemma_in_turn(
        c,
        promotes,
        activates,
        relinks,
        selects,
        |l: Seq<Reply>, n: nat| commit_slot_run(c, t, slot, restored, l, n),
        free,
        had,
        active,
        bound,
        fine,
        end,
    );
}

/// Four procedures, one after the other.
pub(crate) proof fn lemma_in_turn(
    c: Config,
    first: spec_fn(Seq<Reply>, nat) -> Run<()>,
    second: spec_fn(Seq<Reply>, nat) -> Run<()>,
    third: spec_fn(Seq<Reply>, nat) -> Run<()>,
    fourth: spec_fn(Seq<Reply>, nat) -> Run<()>,
    p: spec_fn(Seq<Reply>, nat) -> Run<()>,
    begin: spec_fn(DiskView) -> bool,
    once: spec_fn(DiskView) -> bool,
    twice: spec_fn(DiskView) -> bool,
    thrice: spec_fn(DiskView) -> bool,
    fine: spec_fn(DiskView) -> bool,
    end: spec_fn((), DiskView) -> bool,
)
    requires
        steady(first),
        steady(second),
        steady(third),
        works(c, first, begin, fine, |v: (), d: DiskView| once(d)),
        works(c, second, once, fine, |v: (), d: DiskView| twice(d)),
        works(c, third, twice, fine, |v: (), d: DiskView| thrice(d)),
        works(c, fourth, thrice, fine, end),
        forall|l: Seq<Reply>, n: nat| #[trigger]
            p(l, n) == first(l, n).next(
                |m: nat|
                    second(l, m).next(
                        |k: nat| third(l, k).next(|j: nat| fourth(l, j)),
                    ),
            ),
    ensures
        works(c, p, begin, fine, end),
{
    let last = |l: Seq<Reply>, n: nat| third(l, n).next(|j: nat| fourth(l, j));
    lemma_next(c, third, fourth, last, twice, fine, thrice, end);
    let rest = |l: Seq<Reply>, n: nat|
        second(l, n).next(|k: nat| third(l, k).next(|j: nat| fourth(l, j)));
    lemma_next(c, second, last, rest, once, fine, twice, end);
    lemma_next(c, first, rest, p, begin, fine, once, end);
}

/// Going through with a recorded change brings it to where only the cleanup is missing.
pub proof fn lemma_finish(job: Job)
    requires
        job.valid(),
    ensures
        works(
            job.config,
            |l: Seq<Reply>, n: nat| finish_commit_run(job.config, job.record, l, n),
            |d: DiskView| job.begun(d),
            |d: DiskView| job.fine(d),
            |v: (), d: DiskView| job.chosen(d),
        ),
{
    let c = job.config;
    let t = job.record;
    let begun = |d: DiskView| job.begun(d);
    let fine = |d: DiskView| job.fine(d);
    let end = |v: (), d: DiskView| job.chosen(d);
    let known = |restored: bool, d: DiskView| job.told(restored, d);
    let checks = |l: Seq<Reply>, n: nat| check_session_run(c, t, l, n);
    let asks = |l: Seq<Reply>, n: nat| already_restored_run(c, t, l, n);
    lemma_check_session(job);
    settled_check_session(c, t);
    lemma_instead(
        c,
        checks,
        checks,
        begun,
        begun,
        fine,
        |v: (), d: DiskView| job.begun(d),
        |v: (), d: DiskView| begun(d),
    );
    lemma_restored(job);
    settled_restored(c, t);
    let after = |restored: bool| |l: Seq<Reply>, n: nat|
        (if t.hold_active && !restored {
            preserve_reappeared_run(c, t.profile_pending, l, n)
        } else {
            Run::Done((), n)
        }).next(|k: nat| commit_slot_run(c, t, job.slot, restored, l, k));
    assert forall|restored: bool| works(
        c,
        #[trigger] after(restored),
        |d: DiskView| known(restored, d),
        fine,
        end,
    ) by {
        lemma_go_on(job, restored, after(restored));
        lemma_instead(
            c,
            after(restored),
            after(restored),
            |d: DiskView| job.told(restored, d),
            |d: DiskView| known(restored, d),
            fine,
            end,
            end,
        );
    }
    let rest = |l: Seq<Reply>, n: nat| asks(l, n).bind(|v: bool, k: nat| after(v)(l, k));
    lemma_bind(c, asks, after, rest, begun, fine, known, end);
    let whole = |l: Seq<Reply>, n: nat| finish_commit_run(c, t, l, n);
    assert forall|l: Seq<Reply>, n: nat| #[trigger]
        whole(l, n) == checks(l, n).next(|k: nat| rest(l, k)) by {
        lemma_finish_shape(job, l, n);
    }
    lemma_next(c, checks, rest, whole, begun, fine, begun, end);
}

/// The part of a commit that follows the question whether held credentials are back already.
pub(crate) proof fn lemma_go_on(job: Job, restored: bool, p: spec_fn(Seq<Reply>, nat) -> Run<()>)
    requires
        job.valid(),
        forall|l: Seq<Reply>, n: nat| #[trigger]
            p(l, n) == (if job.record.hold_active && !restored {
                preserve_reappeared_run(job.config, job.record.profile_pending, l, n)
            } else {
                Run::Done((), n)
            }).next(
                |k: nat| commit_slot_run(job.config, job.record, job.slot, restored, l, k),
            ),
    ensures
        works(
            job.config,
            p,
            |d: DiskView| job.told(restored, d),
            |d: DiskView| job.fine(d),
            |v: (), d: DiskView| job.chosen(d),
        ),
{
    let c = job.config;
    let t = job.record;
    let told = |d: DiskView| job.told(restored, d);
    let free = |d: DiskView| job.free(restored, d);
    let fine = |d: DiskView| job.fine(d);
    let end = |v: (), d: DiskView| job.chosen(d);
    let preserves = |l: Seq<Reply>, n: nat|
        if t.hold_active && !restored {
            preserve_reappeared_run(c, t.profile_pending, l, n)
        } else {
            Run::Done((), n)
        };
    let commits = |l: Seq<Reply>, n: nat| commit_slot_run(c, t, job.slot, restored, l, n);
    if t.hold_active && !restored {
        let keeps = |l: Seq<Reply>, n: nat| preserve_reappeared_run(c, t.profile_pending, l, n);
        lemma_preserve(job);
        lemma_instead(
            c,
            keeps,
            preserves,
            |d: DiskView| job.held(d),
            told,
            fine,
            |v: (), d: DiskView| job.free(false, d),
            |v: (), d: DiskView| free(d),
        );
        settled_preserve_reappeared(c, t.profile_pending);
        lemma_same_steady(keeps, preserves);
    } else {
        lemma_at_once(c, (), preserves, told, fine, |v: (), d: DiskView| free(d));
    }
    lemma_commit_slot(job, restored);
    lemma_instead(
        c,
        commits,
        commits,
        |d: DiskView| job.free(restored, d),
        free,
        fine,
        end,
        end,
    );
    lemma_next(c, preserves, commits, p, told, fine, free, end);
}

pub(crate) proof fn lemma_finish_shape(job: Job, log: Seq<Reply>, at: nat)
    requires
        job.valid(),
    ensures
        finish_commit_run(job.config, job.record, log, at) == check_session_run(
            job.config,
            job.record,
            log,
            at,
        ).next(
            |n: nat|
                already_restored_run(job.config, job.record, log, n).bind(
                    |restored: bool, m: nat|
                        (if job.record.hold_active && !restored {
                            preserve_reappeared_run(
                                job.config,
                                job.record.profile_pending,
                                log,
                                m,
                            )
                        } else {
                            Run::Done((), m)
                        }).next(
                            |k: nat|
                                commit_slot_run(
                                    job.config,
                                    job.record,
                                    job.slot,
                                    restored,
                                    log,
                                    k,
                                ),
                        ),
                ),
        ),
{
}

pub(crate) proof fn lemma_unstage(job: Job, t: TransactionView)
    requires
        job.valid(),
        job.cleaned_by(t),
    ensures
        works(
            job.config,
            |l: Seq<Reply>, n: nat| cleanup_staged_run(job.config, t, l, n),
            |d: DiskView| job.chosen(d),
            |d: DiskView| job.fine(d),
            |v: (), d: DiskView| job.unstaged(d),
        ),
{
    let c = job.config;
    let begin = |d: DiskView| job.chosen(d);
    let fine = |d: DiskView| job.fine(d);
    let end = |v: (), d: DiskView| job.unstaged(d);
    let whole = |l: Seq<Reply>, n: nat| cleanup_staged_run(c, t, l, n);
    lemma_side_paths(c);
    match t.profile_pending {
        None => {
            lemma_at_once(c, (), whole, begin, fine, end);
        },
        Some(pending) => {
            let half = |d: DiskView| job.chosen(d) && !d.has(pending);
            let unstaged = |d: DiskView| job.unstaged(d);
            let backup = RequestView::Remove(job.backup_path());
            let removes = |l: Seq<Reply>, n: nat| done_run(l, n, backup);
            lemma_done(c, RequestView::Remove(pending), begin, fine, half);
            lemma_done(c, backup, half, fine, unstaged);
            lemma_instead(
                c,
                removes,
                removes,
                half,
                half,
                fine,
                |v: (), d: DiskView| unstaged(d),
                end,
            );
            lemma_next(
                c,
                |l: Seq<Reply>, n: nat| done_run(l, n, RequestView::Remove(pending)),
                removes,
                whole,
                begin,
                fine,
                half,
                end,
            );
        },
    }
}

pub(crate) proof fn lemma_unhold(job: Job)
    requires
        job.valid(),
    ensures
        works(
            job.config,
            |l: Seq<Reply>, n: nat| cleanup_held_run(job.config, job.record, l, n),
            |d: DiskView| job.unstaged(d),
            |d: DiskView| job.fine(d),
            |v: (), d: DiskView| job.released(d),
        ),
{
    let c = job.config;
    let begin = |d: DiskView| job.unstaged(d);
    let fine = |d: DiskView| job.fine(d);
    let end = |v: (), d: DiskView| job.released(d);
    let whole = |l: Seq<Reply>, n: nat| cleanup_held_run(c, job.record, l, n);
    lemma_side_paths(c);
    if job.record.hold_active {
        let half = |d: DiskView| job.unstaged(d) && !d.has(c.active_pending_path());
        let released = |d: DiskView| job.released(d);
        let hold = RequestView::Remove(c.active_hold_path());
        let removes = |l: Seq<Reply>, n: nat| done_run(l, n, hold);
        lemma_done(c, RequestView::Remove(c.active_pending_path()), begin, fine, half);
        lemma_done(c, hold, half, fine, released);
        lemma_instead(
            c,
            removes,
            removes,
            half,
            half,
            fine,
            |v: (), d: DiskView| released(d),
            end,
        );
        lemma_next(
            c,
            |l: Seq<Reply>, n: nat|
                done_run(l, n, RequestView::Remove(c.active_pending_path())),
            removes,
            whole,
            begin,
            fine,
            half,
            end,
        );
    } else {
        lemma_at_once(c, (), whole, begin, fine, end);
    }
}

/// Removing the directory that the credentials came from.
pub(crate) proof fn lemma_remove_source(job: Job, directory: PathView)
    requires
        job.valid(),
        job.source_directory() == Some(directory),
    ensures
        works(
            job.config,
            |l: Seq<Reply>, n: nat|
                done_run(l, n, RequestView::RemoveTree(directory.text())).next(
                    |m: nat| done_run(l, m, RequestView::SyncParent(directory.text())),
                ),
            |d: DiskView| job.released(d),
            |d: DiskView| job.fine(d),
            |v: (), d: DiskView| job.released(d),
        ),
{
    let c = job.config;
    let released = |d: DiskView| job.released(d);
    let fine = |d: DiskView| job.fine(d);
    let end = |v: (), d: DiskView| job.released(d);
    let removal = RequestView::RemoveTree(directory.text());
    let sync = RequestView::SyncParent(directory.text());
    assert forall|d: DiskView, reply: Reply, e: DiskView|
        released(d) && #[trigger] fits(c, d, removal, reply, e) implies reply == Reply::Done && fine(
        e,
    ) && released(e) by {
        assert(e.has(job.saved_path()));
        assert(job.record.activate || job.quiet() ==> e.has(c.active_auth@));
        assert(job.quiet() ==> e.has(job.owned_path()));
        assert(job.known(d) && !inside(
            directory.text(),
            c.profile_auth_path(job.guest),
        ) ==> job.known(e)) by {
            assert forall|other: u32|
                job.known(d) && e.has(#[trigger] c.profile_auth_path(other))
                    && e.auths[c.profile_auth_path(other)].identity.same_account(
                    job.session.identity,
                ) implies other == job.guest by {
                assert(d.has(c.profile_auth_path(other)));
            }
        }
        assert(job.sole(d) ==> job.sole(e)) by {
            if job.sole(d) {
                assert forall|other: u32|
                    e.has(#[trigger] c.profile_auth_path(other))
                        && e.auths[c.profile_auth_path(other)].identity.same_account(
                        job.shown.identity,
                    ) implies other == job.owner by {
                    assert(d.has(c.profile_auth_path(other)));
                }
            }
        }
        assert(job.alone(e)) by {
            assert forall|other: u32|
                e.has(#[trigger] c.profile_auth_path(other))
                    && e.auths[c.profile_auth_path(other)].identity.same_account(
                    job.target.identity,
                ) implies other == job.slot by {
                assert(d.has(c.profile_auth_path(other)));
            }
        }
        assert(job.kept(e)) by {
            assert forall|path: Seq<char>|
                !job.own(path) && path != job.saved_path() && !(
                job.source_directory() matches Some(directory) && inside(
                    directory.text(),
                    path,
                )) implies e.has(path) == #[trigger] job.first.has(path) && (job.first.has(path)
                ==> e.auths[path] == job.first.auths[path]) by {
                assert(d.has(path) == job.first.has(path));
                assert(e.has(path) == d.has(path));
            }
        }
    }
    lemma_done(c, removal, released, fine, released);
    lemma_done(c, sync, released, fine, released);
    let syncs = |l: Seq<Reply>, n: nat| done_run(l, n, sync);
    lemma_instead(
        c,
        syncs,
        syncs,
        released,
        released,
        fine,
        |v: (), d: DiskView| released(d),
        end,
    );
    lemma_next(
        c,
        |l: Seq<Reply>, n: nat| done_run(l, n, removal),
        syncs,
        |l: Seq<Reply>, n: nat| done_run(l, n, removal).next(|m: nat| done_run(l, m, sync)),
        released,
        fine,
        released,
        end,
    );
}

pub(crate) proof fn lemma_unsource(job: Job, source: Seq<char>)
    requires
        job.valid(),
        job.record.recovery_source == Some(source),
    ensures
        works(
            job.config,
            |l: Seq<Reply>, n: nat| cleanup_source_run(job.config, source, l, n),
            |d: DiskView| job.released(d),
            |d: DiskView| job.fine(d),
            |v: (), d: DiskView| job.released(d),
        ),
{
    let c = job.config;
    let released = |d: DiskView| job.released(d);
    let fine = |d: DiskView| job.fine(d);
    let end = |v: (), d: DiskView| job.released(d);
    let whole = |l: Seq<Reply>, n: nat| cleanup_source_run(c, source, l, n);
    match parts_of(source).parent() {
        None => {
            lemma_at_once(c, (), whole, released, fine, end);
        },
        Some(directory) => {
            let same = |generated: bool, d: DiskView| job.released(d);
            let asks = |l: Seq<Reply>, n: nat| generated_run(directory, l, n);
            lemma_generated(job, directory);
            lemma_remove_source(job, directory);
            let removes = |l: Seq<Reply>, n: nat|
                done_run(l, n, RequestView::RemoveTree(directory.text())).next(
                    |m: nat| done_run(l, m, RequestView::SyncParent(directory.text())),
                );
            let rest = |generated: bool| |l: Seq<Reply>, n: nat|
                if generated && directory.parent() == Some(parts_of(c.account_store@)) {
                    done_run(l, n, RequestView::RemoveTree(directory.text())).next(
                        |m: nat| done_run(l, m, RequestView::SyncParent(directory.text())),
                    )
                } else {
                    Run::Done((), n)
                };
            assert forall|generated: bool| works(
                c,
                #[trigger] rest(generated),
                |d: DiskView| same(generated, d),
                fine,
                end,
            ) by {
                let start = |d: DiskView| same(generated, d);
                if generated && directory.parent() == Some(parts_of(c.account_store@)) {
                    lemma_instead(c, removes, rest(generated), released, start, fine, end, end);
                } else {
                    lemma_at_once(c, (), rest(generated), start, fine, end);
                }
            }
            lemma_bind(c, asks, rest, whole, released, fine, same, end);
        },
    }
}

pub(crate) proof fn lemma_generated(job: Job, directory: PathView)
    ensures
        works(
            job.config,
            |l: Seq<Reply>, n: nat| generated_run(directory, l, n),
            |d: DiskView| job.released(d),
            |d: DiskView| job.fine(d),
            |generated: bool, d: DiskView| job.released(d),
        ),
        steady(|l: Seq<Reply>, n: nat| generated_run(directory, l, n)),
{
    let c = job.config;
    let released = |d: DiskView| job.released(d);
    let fine = |d: DiskView| job.fine(d);
    let end = |generated: bool, d: DiskView| job.released(d);
    let whole = |l: Seq<Reply>, n: nat| generated_run(directory, l, n);
    let named = match directory.file_name() {
        Some(name) => ".quota-"@.is_prefix_of(name) || ".enroll-"@.is_prefix_of(name),
        None => false,
    };
    if named {
        let request = RequestView::IsFile(joined(directory.text(), OWNED_TEMP_MARKER@));
        let asks = |l: Seq<Reply>, n: nat| flag_run(l, n, request);
        lemma_flag(c, request, released, fine, end);
        lemma_instead(c, asks, whole, released, released, fine, end, end);
        lemma_same_steady(asks, whole);
    } else {
        lemma_at_once(c, false, whole, released, fine, end);
    }
}

/// The cleanup completes a commit.
pub proof fn lemma_clean_up(job: Job, t: TransactionView)
    requires
        job.valid(),
        job.cleaned_by(t),
    ensures
        works(
            job.config,
            |l: Seq<Reply>, n: nat| cleanup_run(job.config, t, l, n),
            |d: DiskView| job.chosen(d),
            |d: DiskView| job.fine(d),
            |v: (), d: DiskView| job.complete(d) && job.kept(d),
        ),
{
    let c = job.config;
    let chosen = |d: DiskView| job.chosen(d);
    let unstaged = |d: DiskView| job.unstaged(d);
    let released = |d: DiskView| job.released(d);
    let complete = |d: DiskView| job.complete(d) && job.kept(d);
    let fine = |d: DiskView| job.fine(d);
    let end = |v: (), d: DiskView| job.complete(d) && job.kept(d);
    let unstages = |l: Seq<Reply>, n: nat| cleanup_staged_run(c, t, l, n);
    let unholds = |l: Seq<Reply>, n: nat| cleanup_held_run(c, t, l, n);
    let unsources = |l: Seq<Reply>, n: nat|
        match t.recovery_source {
            Some(source) => cleanup_source_run(c, source, l, n),
            None => Run::Done((), n),
        };
    let removal = RequestView::Remove(c.transaction_path());
    let sync = RequestView::SyncParent(c.transaction_path());
    let removes = |l: Seq<Reply>, n: nat| done_run(l, n, removal);
    let syncs = |l: Seq<Reply>, n: nat| done_run(l, n, sync);
    let ends = |l: Seq<Reply>, n: nat| done_run(l, n, removal).next(|j: nat| done_run(l, j, sync));
    lemma_done(c, removal, released, fine, complete);
    lemma_done(c, sync, complete, fine, complete);
    lemma_instead(
        c,
        syncs,
        syncs,
        complete,
        complete,
        fine,
        |v: (), d: DiskView| complete(d),
        end,
    );
    lemma_next(c, removes, syncs, ends, released, fine, complete, end);
    lemma_unstage(job, t);
    lemma_unhold(job);
    settled_cleanup_staged(c, t);
    settled_cleanup_held(c, t);
    lemma_instead(
        c,
        unstages,
        unstages,
        chosen,
        chosen,
        fine,
        |v: (), d: DiskView| job.unstaged(d),
        |v: (), d: DiskView| unstaged(d),
    );
    lemma_instead(
        c,
        |l: Seq<Reply>, n: nat| cleanup_held_run(c, job.record, l, n),
        unholds,
        unstaged,
        unstaged,
        fine,
        |v: (), d: DiskView| job.released(d),
        |v: (), d: DiskView| released(d),
    );
    match t.recovery_source {
        Some(source) => {
            let clears = |l: Seq<Reply>, n: nat| cleanup_source_run(c, source, l, n);
            lemma_unsource(job, source);
            lemma_instead(
                c,
                clears,
                unsources,
                released,
                released,
                fine,
                |v: (), d: DiskView| job.released(d),
                |v: (), d: DiskView| released(d),
            );
            settled_cleanup_source(c, source);
            lemma_same_steady(clears, unsources);
        },
        None => {
            lemma_at_once(c, (), unsources, released, fine, |v: (), d: DiskView| released(d));
        },
    }
    let last = |l: Seq<Reply>, n: nat| unsources(l, n).next(|k: nat| ends(l, k));
    lemma_next(c, unsources, ends, last, released, fine, released, end);
    let rest = |l: Seq<Reply>, n: nat| unholds(l, n).next(|k: nat| last(l, k));
    lemma_next(c, unholds, last, rest, unstaged, fine, released, end);
    let whole = |l: Seq<Reply>, n: nat| cleanup_run(c, t, l, n);
    lemma_next(c, unstages, rest, whole, chosen, fine, unstaged, end);
}

pub(crate) proof fn lemma_through(job: Job)
    requires
        job.valid(),
        !job.leaves,
    ensures
        works(
            job.config,
            |l: Seq<Reply>, n: nat| through_run(job.config, job.record, l, n),
            |d: DiskView| job.begun(d),
            |d: DiskView| job.fine(d),
            |v: (), d: DiskView| job.complete(d) && job.kept(d),
        ),
{
    let c = job.config;
    let t = job.record;
    let begun = |d: DiskView| job.begun(d);
    let chosen = |d: DiskView| job.chosen(d);
    let fine = |d: DiskView| job.fine(d);
    let end = |v: (), d: DiskView| job.complete(d) && job.kept(d);
    let finishes = |l: Seq<Reply>, n: nat| finish_commit_run(c, t, l, n);
    let cleans = |l: Seq<Reply>, n: nat| cleanup_run(c, t, l, n);
    lemma_finish(job);
    lemma_clean_up(job, t);
    settled_finish(c, t);
    lemma_instead(
        c,
        finishes,
        finishes,
        begun,
        begun,
        fine,
        |v: (), d: DiskView| job.chosen(d),
        |v: (), d: DiskView| chosen(d),
    );
    lemma_next(
        c,
        finishes,
        cleans,
        |l: Seq<Reply>, n: nat| through_run(c, t, l, n),
        begun,
        fine,
        chosen,
        end,
    );
}

/// Nothing is in the way of taking up a transaction.
pub proof fn lemma_unblocked(
    c: Config,
    t: TransactionView,
    begun: spec_fn(DiskView) -> bool,
    fine: spec_fn(DiskView) -> bool,
)
    requires
        forall|d: DiskView| #[trigger] begun(d) ==> fine(d),
    ensures
        works(
            c,
            |l: Seq<Reply>, n: nat| blocked_run(t, l, n),
            begun,
            fine,
            |blocked: bool, d: DiskView| !blocked && begun(d),
        ),
{
    let no = |answer: bool, d: DiskView| !answer && begun(d);
    let staging = |l: Seq<Reply>, n: nat| staging_busy_run(t, l, n);
    let place = match t.recovery_source {
        Some(source) => parts_of(source).parent(),
        None => None,
    };
    match place {
        Some(directory) => {
            let request = RequestView::LockHeld(joined(directory.text(), STAGING_WRITER_LOCK@));
            let asks = |l: Seq<Reply>, n: nat| flag_run(l, n, request);
            lemma_flag(c, request, begun, fine, no);
            lemma_instead(c, asks, staging, begun, begun, fine, no, no);
            lemma_same_steady(asks, staging);
        },
        None => {
            lemma_at_once(c, false, staging, begun, fine, no);
        },
    }
    let rest = |busy: bool| |l: Seq<Reply>, n: nat|
        if busy {
            Run::Done(true, n)
        } else if t.hold_active {
            flag_run(l, n, RequestView::WritersRunning)
        } else {
            Run::Done(false, n)
        };
    assert forall|busy: bool| works(
        c,
        #[trigger] rest(busy),
        |d: DiskView| no(busy, d),
        fine,
        no,
    ) by {
        let start = |d: DiskView| no(busy, d);
        if busy {
            lemma_never(c, rest(busy), start, fine, no);
        } else if t.hold_active {
            lemma_flag(c, RequestView::WritersRunning, begun, fine, no);
            lemma_instead(
                c,
                |l: Seq<Reply>, n: nat| flag_run(l, n, RequestView::WritersRunning),
                rest(busy),
                begun,
                start,
                fine,
                no,
                no,
            );
        } else {
            lemma_at_once(c, false, rest(busy), start, fine, no);
        }
    }
    lemma_bind(
        c,
        staging,
        rest,
        |l: Seq<Reply>, n: nat| blocked_run(t, l, n),
        begun,
        fine,
        no,
        no,
    );
}

/// Taking up a recorded commit is going through with it, if nothing is in the way.
pub(crate) proof fn lemma_take_up_shape(job: Job, log: Seq<Reply>, at: nat)
    requires
        job.record.mode == TransactionMode::Commit,
    ensures
        resume_run(job.config, job.record, log, at) == blocked_run(job.record, log, at).bind(
            |blocked: bool, n: nat|
                if blocked {
                    Run::Fail(ErrorView::RecoveryDeferred, n)
                } else {
                    through_run(job.config, job.record, log, n)
                },
        ),
{
}

pub(crate) proof fn lemma_take_up(job: Job)
    requires
        job.valid(),
        !job.leaves,
    ensures
        works(
            job.config,
            |l: Seq<Reply>, n: nat| resume_part(job.config, job.record, l, n),
            |d: DiskView| job.begun(d),
            |d: DiskView| job.fine(d),
            |v: (), d: DiskView| job.complete(d) && job.kept(d),
        ),
{
    let c = job.config;
    let t = job.record;
    let begun = |d: DiskView| job.begun(d);
    let fine = |d: DiskView| job.fine(d);
    let no = |answer: bool, d: DiskView| !answer && begun(d);
    let end = |v: (), d: DiskView| job.complete(d) && job.kept(d);
    lemma_unblocked(c, t, begun, fine);
    lemma_through(job);
    settled_blocked(t);
    let goes = |l: Seq<Reply>, n: nat| through_run(c, t, l, n);
    let rest = |blocked: bool| |l: Seq<Reply>, n: nat|
        if blocked {
            Run::Fail(ErrorView::RecoveryDeferred, n)
        } else {
            through_run(c, t, l, n)
        };
    assert forall|blocked: bool| works(
        c,
        #[trigger] rest(blocked),
        |d: DiskView| no(blocked, d),
        fine,
        end,
    ) by {
        let start = |d: DiskView| no(blocked, d);
        if blocked {
            lemma_never(c, rest(blocked), start, fine, end);
        } else {
            lemma_instead(c, goes, rest(blocked), begun, start, fine, end, end);
        }
    }
    let asks = |l: Seq<Reply>, n: nat| blocked_run(t, l, n);
    let whole = |l: Seq<Reply>, n: nat| resume_part(c, t, l, n);
    assert forall|l: Seq<Reply>, n: nat| #[trigger]
        whole(l, n) == asks(l, n).bind(|v: bool, k: nat| rest(v)(l, k)) by {
        lemma_resume_part(c, t, l, n);
        lemma_take_up_shape(job, l, n);
    }
    lemma_bind(c, asks, rest, whole, begun, fine, no, end);
}

pub(crate) proof fn lemma_recovers(job: Job)
    requires
        job.valid(),
        !job.leaves,
    ensures
        works(
            job.config,
            |l: Seq<Reply>, n: nat| recover_part(job.config, l, n),
            |d: DiskView| job.fine(d),
            |d: DiskView| job.fine(d),
            |v: (), d: DiskView| job.complete(d) && job.kept(d),
        ),
{
    reveal(recover_part);
    let c = job.config;
    let path = c.transaction_path();
    let begun = |d: DiskView| job.begun(d);
    let fine = |d: DiskView| job.fine(d);
    let end = |v: (), d: DiskView| job.complete(d) && job.kept(d);
    let found = |there: bool, d: DiskView| if there {
        job.begun(d)
    } else {
        job.complete(d) && job.kept(d)
    };
    lemma_flag(c, RequestView::Exists(path), fine, fine, found);
    lemma_take_up(job);
    let read = |reply: Reply, n: nat| match reply {
        Reply::State(state) => Run::Done(state, n),
        Reply::Failed(error) => Run::Fail(error@, n),
        _ => Run::Fail(mismatch(), n),
    };
    let reads = |l: Seq<Reply>, n: nat| state_run(l, n, path);
    let known = |t: TransactionState, d: DiskView| t@ == job.record && job.begun(d);
    lemma_request(c, RequestView::ReadState(path), read, reads, begun, fine, known);
    assert(steady(reads)) by {
        reveal(steady);
    }
    let takes_up = |t: TransactionState| |l: Seq<Reply>, n: nat| resume_part(c, t@, l, n);
    assert forall|t: TransactionState| works(
        c,
        #[trigger] takes_up(t),
        |d: DiskView| known(t, d),
        fine,
        end,
    ) by {
        let start = |d: DiskView| known(t, d);
        if t@ == job.record {
            lemma_instead(
                c,
                |l: Seq<Reply>, n: nat| resume_part(c, job.record, l, n),
                takes_up(t),
                begun,
                start,
                fine,
                end,
                end,
            );
        } else {
            lemma_never(c, takes_up(t), start, fine, end);
        }
    }
    let resumes = |l: Seq<Reply>, n: nat|
        state_run(l, n, path).bind(|t: TransactionState, m: nat| resume_part(c, t@, l, m));
    lemma_bind(c, reads, takes_up, resumes, begun, fine, known, end);
    let rest = |there: bool| |l: Seq<Reply>, n: nat|
        if there {
            state_run(l, n, path).bind(|t: TransactionState, m: nat| resume_part(c, t@, l, m))
        } else {
            Run::Done((), n)
        };
    assert forall|there: bool| works(
        c,
        #[trigger] rest(there),
        |d: DiskView| found(there, d),
        fine,
        end,
    ) by {
        let start = |d: DiskView| found(there, d);
        if there {
            lemma_instead(c, resumes, rest(there), begun, start, fine, end, end);
        } else {
            lemma_at_once(c, (), rest(there), start, fine, end);
        }
    }
    lemma_bind(
        c,
        |l: Seq<Reply>, n: nat| flag_run(l, n, RequestView::Exists(path)),
        rest,
        |l: Seq<Reply>, n: nat| recover_part(c, l, n),
        fine,
        fine,
        found,
        end,
    );
}

/// A commit which stopped at any point after it was recorded is brought to its end by recovery: the
/// account has the new credentials, they become the active ones and the account is selected where
/// that was asked for, held ones are put back otherwise, and nothing of the transaction is left.
/// Recovery does not fail, it may
/// itself stop at any point and be taken up again, and it changes no other credentials.
///
/// This holds of every commit that makes its credentials the active ones, leaves those alone or
/// gives held ones of another account back, with or without staged credentials. One that links the
/// session finds it linked already, without credentials, or with credentials that are saved.
pub proof fn law_interrupted_commit_is_finished(job: Job, log: Seq<Reply>, disks: Seq<DiskView>)
    requires
        job.valid(),
        !job.leaves,
        played(job.config, |l: Seq<Reply>| recover_run(job.config, l, 0), log, disks, 0),
        disks[0] == job.first,
        job.under_way(disks[0]) || job.complete(disks[0]),
    ensures
        forall|i: int| 0 <= i < disks.len() ==> job.fine(#[trigger] disks[i]),
        !(recover_run(job.config, log, 0) is Fail),
        recover_run(job.config, log, 0) is Done ==> job.complete(disks.last()),
{
    let c = job.config;
    let whole = |l: Seq<Reply>| recover_run(c, l, 0);
    let p = |l: Seq<Reply>, n: nat| recover_part(c, l, n);
    let fine = |d: DiskView| job.fine(d);
    let end = |v: (), d: DiskView| job.complete(d) && job.kept(d);
    lemma_recovers(job);
    settled_recover(c);
    assert forall|i: int| 0 <= i < log.len() implies (p(#[trigger] log.take(i), 0) matches Run::Ask(
        request,
    ) && fits(c, disks[i], request, log[i], disks[i + 1])) by {
        lemma_recover_part(c, log.take(i), 0);
        assert(whole(log.take(i)) is Ask);
    }
    lemma_recover_part(c, log, 0);
    lemma_comes_to(c, p, fine, fine, end, log, disks);
}

pub(crate) proof fn lemma_switch(job: Job)
    requires
        job.valid(),
        !job.leaves,
    ensures
        works(
            job.config,
            |l: Seq<Reply>, n: nat| commit_switch_run(job.config, job.record, l, n),
            |d: DiskView| job.ready(d),
            |d: DiskView| d == job.first || job.fine(d),
            |v: (), d: DiskView| job.complete(d) && job.kept(d),
        ),
        steady(|l: Seq<Reply>, n: nat| commit_switch_run(job.config, job.record, l, n)),
{
    let c = job.config;
    let t = job.record;
    let ready = |d: DiskView| job.ready(d);
    let begun = |d: DiskView| job.begun(d);
    let fine = |d: DiskView| d == job.first || job.fine(d);
    let end = |v: (), d: DiskView| job.complete(d) && job.kept(d);
    let goes = |l: Seq<Reply>, n: nat| through_run(c, t, l, n);
    lemma_through(job);
    settled_through(c, t);
    lemma_wider(c, goes, begun, |d: DiskView| job.fine(d), fine, end);
    let request = RequestView::WriteState { path: c.transaction_path(), state: t };
    let records = |l: Seq<Reply>, n: nat| done_run(l, n, request);
    lemma_done(c, request, ready, fine, begun);
    let rest = |l: Seq<Reply>, n: nat|
        done_run(l, n, request).next(|m: nat| through_run(c, t, l, m));
    lemma_next(c, records, goes, rest, ready, fine, begun, end);
    lemma_steady_next(records, goes, rest);
    let asks = |l: Seq<Reply>, n: nat| flag_run(l, n, RequestView::WritersRunning);
    let no = |answer: bool, d: DiskView| !answer && job.ready(d);
    lemma_flag(c, RequestView::WritersRunning, ready, fine, no);
    let after = |running: bool| |l: Seq<Reply>, n: nat|
        if running {
            Run::Fail(ErrorView::RecoveryDeferred, n)
        } else {
            done_run(l, n, request).next(|m: nat| through_run(c, t, l, m))
        };
    assert forall|running: bool| works(
        c,
        #[trigger] after(running),
        |d: DiskView| no(running, d),
        fine,
        end,
    ) && steady(after(running)) by {
        let start = |d: DiskView| no(running, d);
        if running {
            lemma_never(c, after(running), start, fine, end);
            reveal(steady);
        } else {
            lemma_instead(c, rest, after(running), ready, start, fine, end, end);
            lemma_same_steady(rest, after(running));
        }
    }
    let whole = |l: Seq<Reply>, n: nat| commit_switch_run(c, t, l, n);
    assert forall|l: Seq<Reply>, n: nat| #[trigger]
        whole(l, n) == asks(l, n).bind(|v: bool, k: nat| after(v)(l, k)) by {
        lemma_switch_shape(c, t, l, n);
    }
    lemma_bind(c, asks, after, whole, ready, fine, no, end);
    lemma_steady_bind(asks, after, whole);
}

pub(crate) proof fn lemma_switch_shape(c: Config, t: TransactionView, log: Seq<Reply>, at: nat)
    ensures
        commit_switch_run(c, t, log, at) == flag_run(log, at, RequestView::WritersRunning).bind(
            |running: bool, n: nat|
                if running {
                    Run::Fail(ErrorView::RecoveryDeferred, n)
                } else {
                    done_run(
                        log,
                        n,
                        RequestView::WriteState { path: c.transaction_path(), state: t },
                    ).next(|m: nat| through_run(c, t, log, m))
                },
        ),
{
}

/// A switch can be interrupted: until it is recorded nothing has changed, and from then on the disk
/// is at every point one that recovery brings to the end of the switch. Where no one interrupts it,
/// it does not fail, and in the end it is complete.
pub proof fn law_switch_can_be_interrupted(job: Job, log: Seq<Reply>, disks: Seq<DiskView>)
    requires
        job.valid(),
        !job.leaves,
        played(
            job.config,
            |l: Seq<Reply>| commit_switch_run(job.config, job.record, l, 0),
            log,
            disks,
            0,
        ),
        job.ready(disks[0]),
    ensures
        forall|i: int|
            0 <= i < disks.len() ==> #[trigger] disks[i] == job.first || job.fine(disks[i]),
        !(commit_switch_run(job.config, job.record, log, 0) is Fail),
        commit_switch_run(job.config, job.record, log, 0) is Done ==> job.complete(disks.last()),
{
    let c = job.config;
    let whole = |l: Seq<Reply>| commit_switch_run(c, job.record, l, 0);
    let p = |l: Seq<Reply>, n: nat| commit_switch_run(c, job.record, l, n);
    let fine = |d: DiskView| d == job.first || job.fine(d);
    lemma_switch(job);
    assert forall|i: int| 0 <= i < log.len() implies (p(#[trigger] log.take(i), 0) matches Run::Ask(
        request,
    ) && fits(c, disks[i], request, log[i], disks[i + 1])) by {
        assert(whole(log.take(i)) is Ask);
    }
    lemma_comes_to(
        c,
        p,
        |d: DiskView| job.ready(d),
        fine,
        |v: (), d: DiskView| job.complete(d) && job.kept(d),
        log,
        disks,
    );
    assert forall|i: int| 0 <= i < disks.len() implies #[trigger] disks[i] == job.first
        || job.fine(disks[i]) by {
        assert(fine(disks[i]));
    }
}

}
