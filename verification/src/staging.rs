//! A change of an account's saved credentials can be interrupted while they are staged, too.
use crate::account_store::TransactionView;
use crate::auth::AuthDocument;
use crate::barrier::{changed_text, commit_profile_run, overlap_text, overlaps_run, stage_run};
use crate::config::Config;
use crate::course::{
    lemma_at_once, lemma_bind, lemma_comes_to, lemma_done, lemma_flag, lemma_instead, lemma_never,
    lemma_next, lemma_request, lemma_steady_bind, lemma_steady_next, lemma_wider, steady, works,
};
use crate::effects::{auth_if_valid_run, done_run, flag_run, Reply, RequestView, Run};
use crate::error::ErrorView;
use crate::finishing::lemma_through;
use crate::job::Job;
use crate::json::{alike, JsonView};
use crate::recovery::{fits, played, DiskView};
use crate::settled::{lemma_same_steady, settled_through, through_run};
use vstd::prelude::*;

verus! {

pub(crate) proof fn lemma_overlaps(job: Job, source: Seq<char>)
    requires
        source != job.staged_path(),
        source != job.backup_path(),
    ensures
        works(
            job.config,
            |l: Seq<Reply>, n: nat| overlaps_run(job.config, job.slot, source, l, n),
            |d: DiskView| job.staging(source, d),
            |d: DiskView| job.staged_or_fine(d),
            |overlaps: bool, d: DiskView| !overlaps && job.staging(source, d),
        ),
        steady(|l: Seq<Reply>, n: nat| overlaps_run(job.config, job.slot, source, l, n)),
{
    let c = job.config;
    let begin = |d: DiskView| job.staging(source, d);
    let fine = |d: DiskView| job.staged_or_fine(d);
    let no = |overlaps: bool, d: DiskView| !overlaps && job.staging(source, d);
    let pending = RequestView::SameEntry { a: source, b: job.staged_path() };
    let backup = RequestView::SameEntry { a: source, b: job.backup_path() };
    let file = RequestView::SameFile { a: source, b: job.staged_path() };
    let first = |l: Seq<Reply>, n: nat| flag_run(l, n, pending);
    let second = |l: Seq<Reply>, n: nat| flag_run(l, n, backup);
    let third = |l: Seq<Reply>, n: nat| flag_run(l, n, file);
    lemma_flag(c, pending, begin, fine, no);
    lemma_flag(c, backup, begin, fine, no);
    lemma_flag(c, file, begin, fine, no);
    let last = |same: bool| |l: Seq<Reply>, n: nat|
        if same {
            Run::Done(true, n)
        } else {
            flag_run(l, n, file)
        };
    assert forall|same: bool| works(
        c,
        #[trigger] last(same),
        |d: DiskView| no(same, d),
        fine,
        no,
    ) && steady(last(same)) by {
        let start = |d: DiskView| no(same, d);
        if same {
            lemma_never(c, last(same), start, fine, no);
            reveal(steady);
        } else {
            lemma_instead(c, third, last(same), begin, start, fine, no, no);
            lemma_same_steady(third, last(same));
        }
    }
    let two = |l: Seq<Reply>, n: nat|
        flag_run(l, n, backup).bind(|v: bool, k: nat| last(v)(l, k));
    lemma_bind(c, second, last, two, begin, fine, no, no);
    lemma_steady_bind(second, last, two);
    let rest = |same: bool| |l: Seq<Reply>, n: nat|
        if same {
            Run::Done(true, n)
        } else {
            two(l, n)
        };
    assert forall|same: bool| works(
        c,
        #[trigger] rest(same),
        |d: DiskView| no(same, d),
        fine,
        no,
    ) && steady(rest(same)) by {
        let start = |d: DiskView| no(same, d);
        if same {
            lemma_never(c, rest(same), start, fine, no);
            reveal(steady);
        } else {
            lemma_instead(c, two, rest(same), begin, start, fine, no, no);
            lemma_same_steady(two, rest(same));
        }
    }
    let whole = |l: Seq<Reply>, n: nat| overlaps_run(c, job.slot, source, l, n);
    lemma_bind(c, first, rest, whole, begin, fine, no, no);
    lemma_steady_bind(first, rest, whole);
}

/// Checking staged credentials and recording the commit.
pub open spec fn check_staged_run(
    c: Config,
    t: TransactionView,
    slot: u32,
    source: Seq<char>,
    expected: JsonView,
    log: Seq<Reply>,
    at: nat,
) -> Run<()> {
    auth_if_valid_run(log, at, c.profile_pending_path(slot)).bind(
        |staged: Option<AuthDocument>, j: nat|
            if staged is Some && alike(staged->0@.raw, expected) {
                done_run(
                    log,
                    j,
                    RequestView::WriteState { path: c.transaction_path(), state: t },
                )
            } else {
                done_run(log, j, RequestView::Remove(c.profile_pending_path(slot))).next(
                    |i: nat| Run::Fail(ErrorView::Message(changed_text(source)), i),
                )
            },
    )
}

pub(crate) proof fn lemma_check_staged(job: Job, source: Seq<char>, expected: JsonView)
    requires
        job.valid(),
        job.stages(source, expected),
    ensures
        works(
            job.config,
            |l: Seq<Reply>, n: nat|
                check_staged_run(job.config, job.record, job.slot, source, expected, l, n),
            |d: DiskView| job.prepared(source, d),
            |d: DiskView| job.staged_or_fine(d),
            |v: (), d: DiskView| job.begun(d),
        ),
        steady(
            |l: Seq<Reply>, n: nat|
                check_staged_run(job.config, job.record, job.slot, source, expected, l, n),
        ),
{
    let c = job.config;
    let path = job.staged_path();
    let begin = |d: DiskView| job.prepared(source, d);
    let fine = |d: DiskView| job.staged_or_fine(d);
    let begun = |d: DiskView| job.begun(d);
    let end = |v: (), d: DiskView| job.begun(d);
    let reads = |l: Seq<Reply>, n: nat| auth_if_valid_run(l, n, path);
    let read = |reply: Reply, n: nat| match reply {
        Reply::Auth(document) => Run::Done(Some(document), n),
        _ => Run::Done(None, n),
    };
    let known = |staged: Option<AuthDocument>, d: DiskView|
        staged is Some && staged->0@ == job.target && job.prepared(source, d);
    lemma_request(c, RequestView::ReadAuth(path), read, reads, begin, fine, known);
    let request = RequestView::WriteState { path: c.transaction_path(), state: job.record };
    let records = |l: Seq<Reply>, n: nat| done_run(l, n, request);
    lemma_done(c, request, begin, fine, begun);
    let after = |staged: Option<AuthDocument>| |l: Seq<Reply>, n: nat|
        if staged is Some && alike(staged->0@.raw, expected) {
            done_run(l, n, request)
        } else {
            done_run(l, n, RequestView::Remove(path)).next(
                |i: nat| Run::<()>::Fail(ErrorView::Message(changed_text(source)), i),
            )
        };
    assert forall|staged: Option<AuthDocument>| works(
        c,
        #[trigger] after(staged),
        |d: DiskView| known(staged, d),
        fine,
        end,
    ) by {
        let start = |d: DiskView| known(staged, d);
        if staged is Some && staged->0@ == job.target {
            lemma_instead(
                c,
                records,
                after(staged),
                begin,
                start,
                fine,
                |v: (), d: DiskView| begun(d),
                end,
            );
        } else {
            lemma_never(c, after(staged), start, fine, end);
        }
    }
    let whole = |l: Seq<Reply>, n: nat|
        check_staged_run(c, job.record, job.slot, source, expected, l, n);
    assert(steady(reads) && steady(whole)) by {
        reveal(steady);
    }
    lemma_bind(c, reads, after, whole, begin, fine, known, end);
}

pub(crate) proof fn lemma_stage(job: Job, source: Seq<char>, expected: JsonView)
    requires
        job.valid(),
        job.stages(source, expected),
    ensures
        works(
            job.config,
            |l: Seq<Reply>, n: nat|
                stage_run(job.config, job.record, job.slot, source, expected, l, n),
            |d: DiskView| job.staging(source, d),
            |d: DiskView| job.staged_or_fine(d),
            |v: (), d: DiskView| job.begun(d),
        ),
        steady(
            |l: Seq<Reply>, n: nat|
                stage_run(job.config, job.record, job.slot, source, expected, l, n),
        ),
{
    let c = job.config;
    let t = job.record;
    let staging = |d: DiskView| job.staging(source, d);
    let prepared = |d: DiskView| job.prepared(source, d);
    let fine = |d: DiskView| job.staged_or_fine(d);
    let end = |v: (), d: DiskView| job.begun(d);
    let no = |overlaps: bool, d: DiskView| !overlaps && job.staging(source, d);
    let removal = RequestView::Remove(job.backup_path());
    let copy = RequestView::Copy { from: source, to: job.staged_path() };
    let removes = |l: Seq<Reply>, n: nat| done_run(l, n, removal);
    let copies = |l: Seq<Reply>, n: nat| done_run(l, n, copy);
    let checks = |l: Seq<Reply>, n: nat| check_staged_run(c, t, job.slot, source, expected, l, n);
    lemma_overlaps(job, source);
    lemma_check_staged(job, source, expected);
    lemma_done(c, removal, staging, fine, staging);
    lemma_done(c, copy, staging, fine, prepared);
    let last = |l: Seq<Reply>, n: nat| copies(l, n).next(|k: nat| checks(l, k));
    lemma_next(c, copies, checks, last, staging, fine, prepared, end);
    lemma_steady_next(copies, checks, last);
    let rest = |l: Seq<Reply>, n: nat| removes(l, n).next(|k: nat| last(l, k));
    lemma_next(c, removes, last, rest, staging, fine, staging, end);
    lemma_steady_next(removes, last, rest);
    let after = |overlaps: bool| |l: Seq<Reply>, n: nat|
        if overlaps {
            Run::Fail(ErrorView::Message(overlap_text(source)), n)
        } else {
            rest(l, n)
        };
    assert forall|overlaps: bool| works(
        c,
        #[trigger] after(overlaps),
        |d: DiskView| no(overlaps, d),
        fine,
        end,
    ) && steady(after(overlaps)) by {
        let start = |d: DiskView| no(overlaps, d);
        if overlaps {
            lemma_never(c, after(overlaps), start, fine, end);
            reveal(steady);
        } else {
            lemma_instead(c, rest, after(overlaps), staging, start, fine, end, end);
            lemma_same_steady(rest, after(overlaps));
        }
    }
    let asks = |l: Seq<Reply>, n: nat| overlaps_run(c, job.slot, source, l, n);
    let whole = |l: Seq<Reply>, n: nat| stage_run(c, t, job.slot, source, expected, l, n);
    lemma_bind(c, asks, after, whole, staging, fine, no, end);
    lemma_steady_bind(asks, after, whole);
}

pub(crate) proof fn lemma_profile_shape(
    c: Config,
    t: TransactionView,
    slot: u32,
    source: Seq<char>,
    expected: JsonView,
    log: Seq<Reply>,
    at: nat,
)
    ensures
        commit_profile_run(c, t, slot, source, expected, log, at) == stage_run(
            c,
            t,
            slot,
            source,
            expected,
            log,
            at,
        ).next(
            |n: nat|
                (if t.hold_active {
                    flag_run(log, n, RequestView::WritersRunning)
                } else {
                    Run::Done(false, n)
                }).bind(
                    |running: bool, m: nat|
                        if running {
                            Run::Fail(ErrorView::RecoveryDeferred, m)
                        } else {
                            through_run(c, t, log, m)
                        },
                ),
        ),
{
}

pub(crate) proof fn lemma_commit_profile(job: Job, source: Seq<char>, expected: JsonView)
    requires
        job.valid(),
        !job.leaves,
        job.stages(source, expected),
    ensures
        works(
            job.config,
            |l: Seq<Reply>, n: nat|
                commit_profile_run(job.config, job.record, job.slot, source, expected, l, n),
            |d: DiskView| job.staging(source, d),
            |d: DiskView| job.staged_or_fine(d),
            |v: (), d: DiskView| job.complete(d) && job.kept(d),
        ),
        steady(
            |l: Seq<Reply>, n: nat|
                commit_profile_run(job.config, job.record, job.slot, source, expected, l, n),
        ),
{
    let c = job.config;
    let t = job.record;
    let staging = |d: DiskView| job.staging(source, d);
    let begun = |d: DiskView| job.begun(d);
    let fine = |d: DiskView| job.staged_or_fine(d);
    let end = |v: (), d: DiskView| job.complete(d) && job.kept(d);
    let no = |running: bool, d: DiskView| !running && job.begun(d);
    let goes = |l: Seq<Reply>, n: nat| through_run(c, t, l, n);
    lemma_through(job);
    settled_through(c, t);
    lemma_wider(c, goes, begun, |d: DiskView| job.fine(d), fine, end);
    let asks = |l: Seq<Reply>, n: nat|
        if t.hold_active {
            flag_run(l, n, RequestView::WritersRunning)
        } else {
            Run::Done(false, n)
        };
    if t.hold_active {
        let writers = |l: Seq<Reply>, n: nat| flag_run(l, n, RequestView::WritersRunning);
        lemma_flag(c, RequestView::WritersRunning, begun, fine, no);
        lemma_instead(c, writers, asks, begun, begun, fine, no, no);
        lemma_same_steady(writers, asks);
    } else {
        lemma_at_once(c, false, asks, begun, fine, no);
    }
    let after = |running: bool| |l: Seq<Reply>, n: nat|
        if running {
            Run::Fail(ErrorView::RecoveryDeferred, n)
        } else {
            through_run(c, t, l, n)
        };
    assert forall|running: bool| works(
        c,
        #[trigger] after(running),
        |d: DiskView| no(running, d),
        fine,
        end,
    ) && steady(after(running)) by {
        let start = |d: DiskView| no(running, d);
        if running {
            lemma_never(c, after(running), start, fine, end);
            reveal(steady);
        } else {
            lemma_instead(c, goes, after(running), begun, start, fine, end, end);
            lemma_same_steady(goes, after(running));
        }
    }
    let rest = |l: Seq<Reply>, n: nat| asks(l, n).bind(|v: bool, k: nat| after(v)(l, k));
    lemma_bind(c, asks, after, rest, begun, fine, no, end);
    lemma_steady_bind(asks, after, rest);
    let stages = |l: Seq<Reply>, n: nat| stage_run(c, t, job.slot, source, expected, l, n);
    lemma_stage(job, source, expected);
    lemma_instead(
        c,
        stages,
        stages,
        staging,
        staging,
        fine,
        |v: (), d: DiskView| job.begun(d),
        |v: (), d: DiskView| begun(d),
    );
    let whole = |l: Seq<Reply>, n: nat|
        commit_profile_run(c, t, job.slot, source, expected, l, n);
    assert forall|l: Seq<Reply>, n: nat| #[trigger]
        whole(l, n) == stages(l, n).next(|k: nat| rest(l, k)) by {
        lemma_profile_shape(c, t, job.slot, source, expected, l, n);
    }
    lemma_next(c, stages, rest, whole, staging, fine, begun, end);
    lemma_steady_next(stages, rest, whole);
}

/// A change of an account's saved credentials can be interrupted: until it is recorded nothing but
/// staging files has changed, and from then on the disk is at every point one that recovery brings
/// to the end of the change. Where no one interrupts it, it does not fail, and in the end it is
/// complete.
pub proof fn law_profile_commit_can_be_interrupted(
    job: Job,
    source: Seq<char>,
    expected: JsonView,
    log: Seq<Reply>,
    disks: Seq<DiskView>,
)
    requires
        job.valid(),
        !job.leaves,
        job.stages(source, expected),
        played(
            job.config,
            |l: Seq<Reply>|
                commit_profile_run(job.config, job.record, job.slot, source, expected, l, 0),
            log,
            disks,
            0,
        ),
        disks[0] == job.first,
        job.staging(source, disks[0]),
    ensures
        forall|i: int| 0 <= i < disks.len() ==> job.staged_or_fine(#[trigger] disks[i]),
        !(commit_profile_run(job.config, job.record, job.slot, source, expected, log, 0) is Fail),
        commit_profile_run(job.config, job.record, job.slot, source, expected, log, 0) is Done
            ==> job.complete(disks.last()),
{
    let c = job.config;
    let whole = |l: Seq<Reply>|
        commit_profile_run(c, job.record, job.slot, source, expected, l, 0);
    let p = |l: Seq<Reply>, n: nat|
        commit_profile_run(c, job.record, job.slot, source, expected, l, n);
    let fine = |d: DiskView| job.staged_or_fine(d);
    lemma_commit_profile(job, source, expected);
    assert forall|i: int| 0 <= i < log.len() implies (p(#[trigger] log.take(i), 0) matches Run::Ask(
        request,
    ) && fits(c, disks[i], request, log[i], disks[i + 1])) by {
        assert(whole(log.take(i)) is Ask);
    }
    lemma_comes_to(
        c,
        p,
        |d: DiskView| job.staging(source, d),
        fine,
        |v: (), d: DiskView| job.complete(d) && job.kept(d),
        log,
        disks,
    );
    assert forall|i: int| 0 <= i < disks.len() implies job.staged_or_fine(#[trigger] disks[i]) by {
        assert(fine(disks[i]));
    }
}

}
