//! Credentials that a program had announced as refreshed before it stopped are saved by recovery.
use crate::account_store::{remove_run, TransactionMode, TransactionState, TransactionView};
use crate::auth::{AuthDocument, AuthView};
use crate::barrier::{
    blocked_run, leave_run, recover_refresh_run, recover_run, refresh_commit, refreshing_record,
    resume_run, save_refreshed_run, staged_enrollment,
};
use crate::config::Config;
use crate::course::{
    lemma_at_once, lemma_auth, lemma_bind, lemma_comes_to, lemma_done, lemma_expected,
    lemma_instead, lemma_never, lemma_next, lemma_request, lemma_wider, steady, works,
};
use crate::effects::{
    auth_if_valid_run, auth_run, done_run, mismatch, state_run, Reply, RequestView, Run,
};
use crate::error::ErrorView;
use crate::finishing::{lemma_clean_up, lemma_finish, lemma_unblocked};
use crate::job::Job;
use crate::recovery::{fits, played, DiskView};
use crate::settled::{settled_blocked, settled_finish, settled_recover};
use crate::steady::{
    agree, lemma_recover_part, lemma_recover_refresh, lemma_resume_part, recover_part, resume_part,
    steady_recover_refresh_part,
};
use crate::transaction::{cleanup_run, finish_commit_run};
use vstd::prelude::*;

verus! {

impl Job {
    /// The record of credentials that may have been refreshed, which the commit follows.
    pub open spec fn announced(self, source: Seq<char>) -> TransactionView {
        refreshing_record(
            Some(self.slot),
            source,
            self.record.activate,
            self.record.select,
            self.record.link_session,
            self.record.hold_active,
        )
    }

    /// Whether the commit is the one that saves refreshed credentials of an account from there.
    pub open spec fn refreshes(self, source: Seq<char>, stored: AuthView) -> bool {
        &&& self.leaves
        &&& self.record == refresh_commit(self.config, self.announced(source), self.slot)
        &&& self.first.record == Some(self.announced(source))
        &&& source != self.staged_path()
        &&& source != self.backup_path()
        &&& self.target.identity.same_account(stored.identity)
        &&& !self.target.same_credentials(stored)
    }

    /// Whether the refreshed credentials are at their source, and the account has the earlier ones.
    pub open spec fn refreshed(self, source: Seq<char>, stored: AuthView, d: DiskView) -> bool {
        &&& self.staging(source, d)
        &&& d.has(self.saved_path())
        &&& d.auths[self.saved_path()] == stored
    }

    /// Whether refreshed credentials are yet to be saved, or the commit that saves them is under
    /// way or complete.
    pub open spec fn refreshed_or_fine(
        self,
        source: Seq<char>,
        stored: AuthView,
        d: DiskView,
    ) -> bool {
        self.refreshed(source, stored, d) || self.fine(d)
    }
}

proof fn lemma_save_refreshed(job: Job, source: Seq<char>, stored: AuthView)
    requires
        job.valid(),
        job.refreshes(source, stored),
    ensures
        works(
            job.config,
            |l: Seq<Reply>, n: nat|
                save_refreshed_run(job.config, job.announced(source), source, job.slot, l, n),
            |d: DiskView| job.refreshed(source, stored, d),
            |d: DiskView| job.refreshed_or_fine(source, stored, d),
            |cleanup: bool, d: DiskView| cleanup && job.chosen(d),
        ),
{
    let c = job.config;
    let t = job.announced(source);
    let begin = |d: DiskView| job.refreshed(source, stored, d);
    let staged = |d: DiskView|
        job.refreshed(source, stored, d) && d.has(job.staged_path())
            && d.auths[job.staged_path()] == job.target;
    let begun = |d: DiskView| job.begun(d);
    let chosen = |d: DiskView| job.chosen(d);
    let fine = |d: DiskView| job.refreshed_or_fine(source, stored, d);
    let end = |cleanup: bool, d: DiskView| cleanup && job.chosen(d);
    let copy = RequestView::Copy { from: source, to: job.staged_path() };
    let request = RequestView::WriteState { path: c.transaction_path(), state: job.record };
    let copies = |l: Seq<Reply>, n: nat| done_run(l, n, copy);
    let records = |l: Seq<Reply>, n: nat| done_run(l, n, request);
    lemma_done(c, copy, begin, fine, staged);
    lemma_done(c, request, staged, fine, begun);
    let finishes = |l: Seq<Reply>, n: nat| finish_commit_run(c, job.record, l, n);
    lemma_finish(job);
    settled_finish(c, job.record);
    lemma_wider(
        c,
        finishes,
        begun,
        |d: DiskView| job.fine(d),
        fine,
        |v: (), d: DiskView| job.chosen(d),
    );
    lemma_instead(
        c,
        finishes,
        finishes,
        begun,
        begun,
        fine,
        |v: (), d: DiskView| job.chosen(d),
        |v: (), d: DiskView| chosen(d),
    );
    let says = |l: Seq<Reply>, n: nat| Run::Done(true, n);
    lemma_at_once(c, true, says, chosen, fine, end);
    let last = |l: Seq<Reply>, n: nat| finishes(l, n).next(|k: nat| says(l, k));
    lemma_next(c, finishes, says, last, begun, fine, chosen, end);
    let rest = |l: Seq<Reply>, n: nat| records(l, n).next(|k: nat| last(l, k));
    lemma_next(c, records, last, rest, staged, fine, begun, end);
    lemma_next(
        c,
        copies,
        rest,
        |l: Seq<Reply>, n: nat| save_refreshed_run(c, t, source, job.slot, l, n),
        begin,
        fine,
        staged,
        end,
    );
}

proof fn lemma_refresh(job: Job, source: Seq<char>, stored: AuthView)
    requires
        job.valid(),
        job.refreshes(source, stored),
    ensures
        works(
            job.config,
            |l: Seq<Reply>, n: nat|
                recover_refresh_run(job.config, job.announced(source), l, n),
            |d: DiskView| job.refreshed(source, stored, d),
            |d: DiskView| job.refreshed_or_fine(source, stored, d),
            |cleanup: bool, d: DiskView| cleanup && job.chosen(d),
        ),
{
    let c = job.config;
    let t = job.announced(source);
    let begin = |d: DiskView| job.refreshed(source, stored, d);
    let fine = |d: DiskView| job.refreshed_or_fine(source, stored, d);
    let end = |cleanup: bool, d: DiskView| cleanup && job.chosen(d);
    let path = job.saved_path();
    let read = |reply: Reply, n: nat| match reply {
        Reply::Auth(document) => Run::Done(Some(document), n),
        _ => Run::Done(None, n),
    };
    let reads = |l: Seq<Reply>, n: nat| auth_if_valid_run(l, n, source);
    let known = |found: Option<AuthDocument>, d: DiskView|
        found is Some && found->0@ == job.target && begin(d);
    lemma_request(c, RequestView::ReadAuth(source), read, reads, begin, fine, known);
    assert(steady(reads)) by {
        reveal(steady);
    }
    lemma_save_refreshed(job, source, stored);
    let saves = |l: Seq<Reply>, n: nat| save_refreshed_run(c, t, source, job.slot, l, n);
    let compares = |fresh: AuthDocument| |earlier: AuthDocument| |l: Seq<Reply>, n: nat|
        if !fresh@.identity.same_account(earlier@.identity) {
            leave_run(c, t, !staged_enrollment(source), l, n)
        } else if fresh@.same_credentials(earlier@) {
            leave_run(c, t, true, l, n)
        } else {
            save_refreshed_run(c, t, source, job.slot, l, n)
        };
    let auths = |l: Seq<Reply>, n: nat| auth_run(l, n, path);
    let after = |found: Option<AuthDocument>| |l: Seq<Reply>, n: nat|
        match found {
            None => leave_run(c, t, true, l, n),
            Some(fresh) => auth_run(l, n, path).bind(
                |earlier: AuthDocument, m: nat|
                    if !fresh@.identity.same_account(earlier@.identity) {
                        leave_run(c, t, !staged_enrollment(source), l, m)
                    } else if fresh@.same_credentials(earlier@) {
                        leave_run(c, t, true, l, m)
                    } else {
                        save_refreshed_run(c, t, source, job.slot, l, m)
                    },
            ),
        };
    assert forall|found: Option<AuthDocument>| works(
        c,
        #[trigger] after(found),
        |d: DiskView| known(found, d),
        fine,
        end,
    ) by {
        let start = |d: DiskView| known(found, d);
        if found is Some && found->0@ == job.target {
            let rest = compares(found->0);
            let same = |earlier: AuthDocument, d: DiskView| earlier@ == stored && start(d);
            lemma_auth(c, path, stored, start, fine);
            assert forall|earlier: AuthDocument| works(
                c,
                #[trigger] rest(earlier),
                |d: DiskView| same(earlier, d),
                fine,
                end,
            ) by {
                let here = |d: DiskView| same(earlier, d);
                if earlier@ == stored {
                    lemma_instead(c, saves, rest(earlier), begin, here, fine, end, end);
                } else {
                    lemma_never(c, rest(earlier), here, fine, end);
                }
            }
            lemma_bind(c, auths, rest, after(found), start, fine, same, end);
        } else {
            lemma_never(c, after(found), start, fine, end);
        }
    }
    lemma_bind(
        c,
        reads,
        after,
        |l: Seq<Reply>, n: nat| recover_refresh_run(c, t, l, n),
        begin,
        fine,
        known,
        end,
    );
}

proof fn lemma_refresh_shape(c: Config, t: TransactionView, log: Seq<Reply>, at: nat)
    requires
        t.mode == TransactionMode::Refreshing,
    ensures
        resume_run(c, t, log, at) == blocked_run(t, log, at).bind(
            |blocked: bool, n: nat|
                if blocked {
                    Run::Fail(ErrorView::RecoveryDeferred, n)
                } else {
                    recover_refresh_run(c, t, log, n).bind(
                        |cleanup: bool, m: nat|
                            if cleanup {
                                cleanup_run(c, t, log, m)
                            } else {
                                remove_run(log, m, c.transaction_path())
                            },
                    )
                },
        ),
{
}

proof fn settled_refresh(c: Config, t: TransactionView)
    ensures
        steady(|l: Seq<Reply>, n: nat| recover_refresh_run(c, t, l, n)),
{
    reveal(steady);
    assert forall|log: Seq<Reply>, at: nat, k: nat|
        at <= log.len() && k <= log.len() implies agree(
        #[trigger] recover_refresh_run(c, t, log, at),
        #[trigger] recover_refresh_run(c, t, log.take(k as int), at),
        at,
        k,
        log.len(),
    ) by {
        lemma_recover_refresh(c, t, log, at);
        lemma_recover_refresh(c, t, log.take(k as int), at);
        steady_recover_refresh_part(c, t, log, at, k);
    }
}

proof fn lemma_take_up_refresh(job: Job, source: Seq<char>, stored: AuthView)
    requires
        job.valid(),
        job.refreshes(source, stored),
    ensures
        works(
            job.config,
            |l: Seq<Reply>, n: nat| resume_part(job.config, job.announced(source), l, n),
            |d: DiskView| job.refreshed(source, stored, d),
            |d: DiskView| job.refreshed_or_fine(source, stored, d),
            |v: (), d: DiskView| job.complete(d) && job.kept(d),
        ),
{
    let c = job.config;
    let t = job.announced(source);
    let begin = |d: DiskView| job.refreshed(source, stored, d);
    let chosen = |d: DiskView| job.chosen(d);
    let fine = |d: DiskView| job.refreshed_or_fine(source, stored, d);
    let end = |v: (), d: DiskView| job.complete(d) && job.kept(d);
    let known = |cleanup: bool, d: DiskView| cleanup && job.chosen(d);
    let no = |blocked: bool, d: DiskView| !blocked && begin(d);
    lemma_unblocked(c, t, begin, fine);
    settled_blocked(t);
    lemma_refresh(job, source, stored);
    settled_refresh(c, t);
    let cleans = |l: Seq<Reply>, n: nat| cleanup_run(c, t, l, n);
    lemma_clean_up(job, t);
    lemma_wider(c, cleans, chosen, |d: DiskView| job.fine(d), fine, end);
    let refreshes = |l: Seq<Reply>, n: nat| recover_refresh_run(c, t, l, n);
    let after = |cleanup: bool| |l: Seq<Reply>, n: nat|
        if cleanup {
            cleanup_run(c, t, l, n)
        } else {
            remove_run(l, n, c.transaction_path())
        };
    assert forall|cleanup: bool| works(
        c,
        #[trigger] after(cleanup),
        |d: DiskView| known(cleanup, d),
        fine,
        end,
    ) by {
        let start = |d: DiskView| known(cleanup, d);
        if cleanup {
            lemma_instead(c, cleans, after(cleanup), chosen, start, fine, end, end);
        } else {
            lemma_never(c, after(cleanup), start, fine, end);
        }
    }
    let goes = |l: Seq<Reply>, n: nat| refreshes(l, n).bind(|v: bool, k: nat| after(v)(l, k));
    lemma_bind(c, refreshes, after, goes, begin, fine, known, end);
    let rest = |blocked: bool| |l: Seq<Reply>, n: nat|
        if blocked {
            Run::Fail(ErrorView::RecoveryDeferred, n)
        } else {
            goes(l, n)
        };
    assert forall|blocked: bool| works(
        c,
        #[trigger] rest(blocked),
        |d: DiskView| no(blocked, d),
        fine,
        end,
    ) by {
        let start = |d: DiskView| no(blocked, d);
        if blocked {
            lemma_never(c, rest(blocked), start, fine, end);
        } else {
            lemma_instead(c, goes, rest(blocked), begin, start, fine, end, end);
        }
    }
    let asks = |l: Seq<Reply>, n: nat| blocked_run(t, l, n);
    let whole = |l: Seq<Reply>, n: nat| resume_part(c, t, l, n);
    assert forall|l: Seq<Reply>, n: nat| #[trigger]
        whole(l, n) == asks(l, n).bind(|v: bool, k: nat| rest(v)(l, k)) by {
        lemma_resume_part(c, t, l, n);
        lemma_refresh_shape(c, t, l, n);
    }
    lemma_bind(c, asks, rest, whole, begin, fine, no, end);
}

proof fn lemma_recovers_refresh(job: Job, source: Seq<char>, stored: AuthView)
    requires
        job.valid(),
        job.refreshes(source, stored),
    ensures
        works(
            job.config,
            |l: Seq<Reply>, n: nat| recover_part(job.config, l, n),
            |d: DiskView| job.refreshed(source, stored, d),
            |d: DiskView| job.refreshed_or_fine(source, stored, d),
            |v: (), d: DiskView| job.complete(d) && job.kept(d),
        ),
{
    reveal(recover_part);
    let c = job.config;
    let path = c.transaction_path();
    let begin = |d: DiskView| job.refreshed(source, stored, d);
    let fine = |d: DiskView| job.refreshed_or_fine(source, stored, d);
    let end = |v: (), d: DiskView| job.complete(d) && job.kept(d);
    lemma_take_up_refresh(job, source, stored);
    let read = |reply: Reply, n: nat| match reply {
        Reply::State(state) => Run::Done(state, n),
        Reply::Failed(error) => Run::Fail(error@, n),
        _ => Run::Fail(mismatch(), n),
    };
    let reads = |l: Seq<Reply>, n: nat| state_run(l, n, path);
    let known = |t: TransactionState, d: DiskView| t@ == job.announced(source) && begin(d);
    lemma_request(c, RequestView::ReadState(path), read, reads, begin, fine, known);
    assert(steady(reads)) by {
        reveal(steady);
    }
    let takes_up = |t: TransactionState| |l: Seq<Reply>, n: nat| resume_part(c, t@, l, n);
    assert forall|t: TransactionState| works(
        c,
        #[trigger] takes_up(t),
        |d: DiskView| known(t, d),
        fine,
        end,
    ) by {
        let start = |d: DiskView| known(t, d);
        if t@ == job.announced(source) {
            lemma_instead(
                c,
                |l: Seq<Reply>, n: nat| resume_part(c, job.announced(source), l, n),
                takes_up(t),
                begin,
                start,
                fine,
                end,
                end,
            );
        } else {
            lemma_never(c, takes_up(t), start, fine, end);
        }
    }
    let resumes = |l: Seq<Reply>, n: nat|
        state_run(l, n, path).bind(|t: TransactionState, m: nat| resume_part(c, t@, l, m));
    lemma_bind(c, reads, takes_up, resumes, begin, fine, known, end);
    let rest = |there: bool| |l: Seq<Reply>, n: nat|
        if there {
            state_run(l, n, path).bind(|t: TransactionState, m: nat| resume_part(c, t@, l, m))
        } else {
            Run::Done((), n)
        };
    lemma_expected(
        c,
        RequestView::Exists(path),
        true,
        resumes,
        rest,
        |l: Seq<Reply>, n: nat| recover_part(c, l, n),
        begin,
        fine,
        begin,
        end,
    );
}

/// Refreshed credentials of an account, which a program that stopped had announced and left at
/// their source, are saved by recovery: in the end the account has them, they are active and the
/// account is selected where that was asked for, held ones are put back otherwise, and no record is
/// left. Recovery does not fail, and at every point the disk is one that it can be taken up again
/// from; no other credentials change.
pub proof fn law_refreshed_credentials_are_saved(
    job: Job,
    source: Seq<char>,
    stored: AuthView,
    log: Seq<Reply>,
    disks: Seq<DiskView>,
)
    requires
        job.valid(),
        job.refreshes(source, stored),
        played(job.config, |l: Seq<Reply>| recover_run(job.config, l, 0), log, disks, 0),
        disks[0] == job.first,
        job.refreshed(source, stored, disks[0]),
    ensures
        forall|i: int|
            0 <= i < disks.len() ==> job.refreshed_or_fine(source, stored, #[trigger] disks[i]),
        !(recover_run(job.config, log, 0) is Fail),
        recover_run(job.config, log, 0) is Done ==> job.complete(disks.last()),
{
    let c = job.config;
    let whole = |l: Seq<Reply>| recover_run(c, l, 0);
    let p = |l: Seq<Reply>, n: nat| recover_part(c, l, n);
    let fine = |d: DiskView| job.refreshed_or_fine(source, stored, d);
    lemma_recovers_refresh(job, source, stored);
    settled_recover(c);
    assert forall|i: int| 0 <= i < log.len() implies (p(#[trigger] log.take(i), 0) matches Run::Ask(
        request,
    ) && fits(c, disks[i], request, log[i], disks[i + 1])) by {
        lemma_recover_part(c, log.take(i), 0);
        assert(whole(log.take(i)) is Ask);
    }
    lemma_recover_part(c, log, 0);
    lemma_comes_to(
        c,
        p,
        |d: DiskView| job.refreshed(source, stored, d),
        fine,
        |v: (), d: DiskView| job.complete(d) && job.kept(d),
        log,
        disks,
    );
    assert forall|i: int| 0 <= i < disks.len() implies job.refreshed_or_fine(
        source,
        stored,
        #[trigger] disks[i],
    ) by {
        assert(fine(disks[i]));
    }
}

}
