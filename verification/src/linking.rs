//! The session during a commit: it is looked at first and linked in the end.
use crate::account_store::{reconcile_run, selected_run, slot_for_run, TransactionView};
use crate::auth::AuthDocument;
use crate::config::Config;
use crate::course::{
    lemma_at_once, lemma_auth, lemma_bind, lemma_done, lemma_expected, lemma_flag, lemma_instead,
    lemma_never, lemma_next, lemma_request, lemma_steady_bind, steady, works,
};
use crate::effects::{
    auth_run, done_run, entry_run, flag_run, mismatch, text_run, EntryKind, Reply, RequestView,
    Run,
};
use crate::error::ErrorView;
use crate::giving::lemma_slot_for;
use crate::job::Job;
use crate::recovery::{lemma_alike, DiskView};
use crate::session::{
    discard_session_run, enrolled_run, ensure_link_run, hold_session_run, install_link_run,
    not_enrolled, not_relinking, preserve_session_run, promote_session_run, save_session_run,
    validate_detached_run, validate_link_run,
};
use crate::settled::{
    lemma_same_steady, settled_enrolled, settled_hold_session, settled_preserve_session,
    settled_selected, settled_slot_for, settled_validate_detached,
};
use crate::text::{parsed, trimmed};
use crate::transaction::{check_session_run, relink_run};
use vstd::prelude::*;

verus! {

/// The account of a session's credentials is found.
pub(crate) proof fn lemma_enrolled(job: Job, begin: spec_fn(DiskView) -> bool, fine: spec_fn(DiskView) -> bool)
    requires
        forall|d: DiskView| #[trigger] begin(d) ==> fine(d) && job.known(d),
    ensures
        works(
            job.config,
            |l: Seq<Reply>, n: nat| enrolled_run(job.session, l, n),
            begin,
            fine,
            |slot: u32, d: DiskView| slot == job.guest && begin(d),
        ),
{
    let c = job.config;
    let end = |slot: u32, d: DiskView| slot == job.guest && begin(d);
    let found = |known: Option<u32>, d: DiskView| known == Some(job.guest) && begin(d);
    lemma_slot_for(c, job.session, job.guest, begin, fine);
    settled_slot_for(job.session.identity);
    let after = |known: Option<u32>| |l: Seq<Reply>, n: nat|
        match known {
            Some(slot) => Run::Done(slot, n),
            None => Run::Fail(not_enrolled(job.session.identity.label()), n),
        };
    assert forall|known: Option<u32>| works(
        c,
        #[trigger] after(known),
        |d: DiskView| found(known, d),
        fine,
        end,
    ) by {
        let start = |d: DiskView| found(known, d);
        if known == Some(job.guest) {
            lemma_at_once(c, job.guest, after(known), start, fine, end);
        } else {
            lemma_never(c, after(known), start, fine, end);
        }
    }
    lemma_bind(
        c,
        |l: Seq<Reply>, n: nat| slot_for_run(job.session.identity, l, n),
        after,
        |l: Seq<Reply>, n: nat| enrolled_run(job.session, l, n),
        begin,
        fine,
        found,
        end,
    );
}

/// Reading a session's credentials and looking up their account, with what follows.
pub(crate) proof fn lemma_detached<T>(
    job: Job,
    path: Seq<char>,
    rest: spec_fn(AuthDocument) -> spec_fn(u32) -> spec_fn(Seq<Reply>, nat) -> Run<T>,
    p: spec_fn(Seq<Reply>, nat) -> Run<T>,
    begin: spec_fn(DiskView) -> bool,
    fine: spec_fn(DiskView) -> bool,
    end: spec_fn(T, DiskView) -> bool,
)
    requires
        forall|d: DiskView| #[trigger]
            begin(d) ==> fine(d) && job.known(d) && d.has(path) && d.auths[path] == job.session,
        forall|detached: AuthDocument|
            detached@ == job.session ==> works(
                job.config,
                #[trigger] rest(detached)(job.guest),
                begin,
                fine,
                end,
            ),
        forall|l: Seq<Reply>, n: nat| #[trigger]
            p(l, n) == auth_run(l, n, path).bind(
                |detached: AuthDocument, m: nat|
                    enrolled_run(detached@, l, m).bind(
                        |slot: u32, k: nat| rest(detached)(slot)(l, k),
                    ),
            ),
    ensures
        works(job.config, p, begin, fine, end),
{
    let c = job.config;
    lemma_auth(c, path, job.session, begin, fine);
    settled_enrolled(job.session);
    let read = |detached: AuthDocument, d: DiskView| detached@ == job.session && begin(d);
    let after = |detached: AuthDocument| |l: Seq<Reply>, n: nat|
        enrolled_run(detached@, l, n).bind(|slot: u32, k: nat| rest(detached)(slot)(l, k));
    assert forall|detached: AuthDocument| works(
        c,
        #[trigger] after(detached),
        |d: DiskView| read(detached, d),
        fine,
        end,
    ) by {
        let start = |d: DiskView| read(detached, d);
        if detached@ == job.session {
            lemma_enrolled(job, start, fine);
            let found = |slot: u32, d: DiskView| slot == job.guest && start(d);
            let goes = rest(detached);
            assert forall|slot: u32| works(
                c,
                #[trigger] goes(slot),
                |d: DiskView| found(slot, d),
                fine,
                end,
            ) by {
                let here = |d: DiskView| found(slot, d);
                if slot == job.guest {
                    assert(works(c, rest(detached)(job.guest), begin, fine, end));
                    lemma_instead(c, goes(slot), goes(slot), begin, here, fine, end, end);
                } else {
                    lemma_never(c, goes(slot), here, fine, end);
                }
            }
            lemma_bind(
                c,
                |l: Seq<Reply>, n: nat| enrolled_run(job.session, l, n),
                goes,
                after(detached),
                start,
                fine,
                found,
                end,
            );
        } else {
            lemma_never(c, after(detached), start, fine, end);
        }
    }
    lemma_bind(
        c,
        |l: Seq<Reply>, n: nat| auth_run(l, n, path),
        after,
        p,
        begin,
        fine,
        read,
        end,
    );
}

/// A session's credentials pass the check.
pub(crate) proof fn lemma_validated(
    job: Job,
    path: Seq<char>,
    begin: spec_fn(DiskView) -> bool,
    fine: spec_fn(DiskView) -> bool,
)
    requires
        forall|d: DiskView| #[trigger]
            begin(d) ==> fine(d) && job.known(d) && d.has(path) && d.auths[path] == job.session,
    ensures
        works(
            job.config,
            |l: Seq<Reply>, n: nat| validate_detached_run(job.config, path, l, n),
            begin,
            fine,
            |v: (), d: DiskView| begin(d),
        ),
{
    let c = job.config;
    let end = |v: (), d: DiskView| begin(d);
    if let Some(tokens) = job.session.raw.get("tokens"@) {
        lemma_alike(tokens);
    }
    let saved = c.profile_auth_path(job.guest);
    let rest = |detached: AuthDocument| |slot: u32| |l: Seq<Reply>, n: nat|
        auth_run(l, n, c.profile_auth_path(slot)).bind(
            |stored: AuthDocument, j: nat|
                if detached@.refresh_ns == stored@.refresh_ns && !detached@.same_credentials(
                    stored@,
                ) {
                    Run::Fail(not_relinking(), j)
                } else {
                    Run::Done((), j)
                },
        );
    assert forall|detached: AuthDocument| detached@ == job.session implies works(
        c,
        #[trigger] rest(detached)(job.guest),
        begin,
        fine,
        end,
    ) by {
        lemma_auth(c, saved, job.session, begin, fine);
        let read = |stored: AuthDocument, d: DiskView| stored@ == job.session && begin(d);
        let after = |stored: AuthDocument| |l: Seq<Reply>, n: nat|
            if detached@.refresh_ns == stored@.refresh_ns && !detached@.same_credentials(stored@) {
                Run::Fail(not_relinking(), n)
            } else {
                Run::Done((), n)
            };
        assert forall|stored: AuthDocument| works(
            c,
            #[trigger] after(stored),
            |d: DiskView| read(stored, d),
            fine,
            end,
        ) by {
            let start = |d: DiskView| read(stored, d);
            if stored@ == job.session {
                lemma_at_once(c, (), after(stored), start, fine, end);
            } else {
                lemma_never(c, after(stored), start, fine, end);
            }
        }
        lemma_bind(
            c,
            |l: Seq<Reply>, n: nat| auth_run(l, n, saved),
            after,
            rest(detached)(job.guest),
            begin,
            fine,
            read,
            end,
        );
    }
    let looks = |l: Seq<Reply>, n: nat|
        auth_run(l, n, path).bind(
            |detached: AuthDocument, m: nat|
                enrolled_run(detached@, l, m).bind(
                    |slot: u32, k: nat| rest(detached)(slot)(l, k),
                ),
        );
    lemma_detached(job, path, rest, looks, begin, fine, end);
    let other = |running: bool| |l: Seq<Reply>, n: nat|
        if running {
            Run::Fail(ErrorView::RecoveryDeferred, n)
        } else {
            looks(l, n)
        };
    lemma_expected(
        c,
        RequestView::WritersRunning,
        false,
        looks,
        other,
        |l: Seq<Reply>, n: nat| validate_detached_run(c, path, l, n),
        begin,
        fine,
        begin,
        end,
    );
}

pub(crate) proof fn lemma_validate_link(job: Job)
    requires
        job.valid(),
        job.record.link_session,
    ensures
        works(
            job.config,
            |l: Seq<Reply>, n: nat| validate_link_run(job.config, l, n),
            |d: DiskView| job.begun(d),
            |d: DiskView| job.fine(d),
            |v: (), d: DiskView| job.begun(d),
        ),
{
    let c = job.config;
    let begun = |d: DiskView| job.begun(d);
    let fine = |d: DiskView| job.fine(d);
    let end = |v: (), d: DiskView| job.begun(d);
    let still = |v: (), d: DiskView| begun(d);
    let hold = c.session_hold_path();
    let own = c.session_auth@;
    let found = |held: bool, d: DiskView| job.begun(d) && held == d.has(hold);
    lemma_flag(c, RequestView::Exists(hold), begun, fine, found);
    let checks = |held: bool| |l: Seq<Reply>, n: nat|
        if held {
            validate_detached_run(c, hold, l, n)
        } else {
            Run::Done((), n)
        };
    assert forall|held: bool| works(
        c,
        #[trigger] checks(held),
        |d: DiskView| found(held, d),
        fine,
        still,
    ) && steady(checks(held)) by {
        let start = |d: DiskView| found(held, d);
        if held {
            let validates = |l: Seq<Reply>, n: nat| validate_detached_run(c, hold, l, n);
            lemma_validated(job, hold, start, fine);
            lemma_instead(
                c,
                validates,
                checks(held),
                start,
                start,
                fine,
                |v: (), d: DiskView| start(d),
                still,
            );
            settled_validate_detached(c, hold);
            lemma_same_steady(validates, checks(held));
        } else {
            lemma_at_once(c, (), checks(held), start, fine, still);
        }
    }
    let first = |l: Seq<Reply>, n: nat|
        flag_run(l, n, RequestView::Exists(hold)).bind(|v: bool, k: nat| checks(v)(l, k));
    let asks = |l: Seq<Reply>, n: nat| flag_run(l, n, RequestView::Exists(hold));
    lemma_bind(c, asks, checks, first, begun, fine, found, still);
    lemma_steady_bind(asks, checks, first);
    let read = |reply: Reply, n: nat| match reply {
        Reply::Entry(kind) => Run::Done(kind, n),
        Reply::Failed(error) => Run::Fail(error@, n),
        _ => Run::Fail(mismatch(), n),
    };
    let looks = |l: Seq<Reply>, n: nat| entry_run(l, n, own);
    let alone = |d: DiskView| job.begun(d) && !d.linked;
    let seen = |kind: EntryKind, d: DiskView|
        job.begun(d) && (kind == EntryKind::Missing || d.has(own));
    lemma_request(c, RequestView::Entry(own), read, looks, alone, fine, seen);
    assert(steady(looks)) by {
        reveal(steady);
    }
    let after = |kind: EntryKind| |l: Seq<Reply>, n: nat|
        if kind == EntryKind::Missing {
            Run::Done((), n)
        } else {
            validate_detached_run(c, own, l, n)
        };
    assert forall|kind: EntryKind| works(
        c,
        #[trigger] after(kind),
        |d: DiskView| seen(kind, d),
        fine,
        end,
    ) by {
        let start = |d: DiskView| seen(kind, d);
        if kind == EntryKind::Missing {
            lemma_at_once(c, (), after(kind), start, fine, end);
        } else {
            lemma_validated(job, own, start, fine);
            lemma_instead(
                c,
                |l: Seq<Reply>, n: nat| validate_detached_run(c, own, l, n),
                after(kind),
                start,
                start,
                fine,
                |v: (), d: DiskView| start(d),
                end,
            );
        }
    }
    let detached = |l: Seq<Reply>, n: nat|
        looks(l, n).bind(|kind: EntryKind, k: nat| after(kind)(l, k));
    lemma_bind(c, looks, after, detached, alone, fine, seen, end);
    let told = |linked: bool, d: DiskView| job.begun(d) && linked == d.linked;
    lemma_flag(c, RequestView::SessionLinked, begun, fine, told);
    let rest = |linked: bool| |l: Seq<Reply>, n: nat|
        if linked {
            Run::Done((), n)
        } else {
            detached(l, n)
        };
    assert forall|linked: bool| works(
        c,
        #[trigger] rest(linked),
        |d: DiskView| told(linked, d),
        fine,
        end,
    ) by {
        let start = |d: DiskView| told(linked, d);
        if linked {
            lemma_at_once(c, (), rest(linked), start, fine, end);
        } else {
            lemma_instead(c, detached, rest(linked), alone, start, fine, end, end);
        }
    }
    let second = |l: Seq<Reply>, n: nat|
        flag_run(l, n, RequestView::SessionLinked).bind(|v: bool, k: nat| rest(v)(l, k));
    lemma_bind(
        c,
        |l: Seq<Reply>, n: nat| flag_run(l, n, RequestView::SessionLinked),
        rest,
        second,
        begun,
        fine,
        told,
        end,
    );
    lemma_next(
        c,
        first,
        second,
        |l: Seq<Reply>, n: nat| validate_link_run(c, l, n),
        begun,
        fine,
        begun,
        end,
    );
}

pub(crate) proof fn lemma_check_session(job: Job)
    requires
        job.valid(),
    ensures
        works(
            job.config,
            |l: Seq<Reply>, n: nat| check_session_run(job.config, job.record, l, n),
            |d: DiskView| job.begun(d),
            |d: DiskView| job.fine(d),
            |v: (), d: DiskView| job.begun(d),
        ),
{
    let c = job.config;
    let begin = |d: DiskView| job.begun(d);
    let fine = |d: DiskView| job.fine(d);
    let end = |v: (), d: DiskView| job.begun(d);
    let whole = |l: Seq<Reply>, n: nat| check_session_run(c, job.record, l, n);
    if !job.record.link_session {
        lemma_at_once(c, (), whole, begin, fine, end);
    } else {
        let short = |l: Seq<Reply>, n: nat| validate_link_run(c, l, n);
        lemma_validate_link(job);
        assert forall|l: Seq<Reply>, n: nat| (#[trigger] whole(l, n)) == short(l, n) || short(
            l,
            n,
        ) is Fail by {
            lemma_checked(c, job.record, l, n);
        }
        lemma_instead(c, short, whole, begin, begin, fine, end, end);
    }
}

/// Checking a session comes to looking whether it can be linked, unless that fails.
pub(crate) proof fn lemma_checked(c: Config, t: TransactionView, log: Seq<Reply>, at: nat)
    requires
        t.link_session,
    ensures
        check_session_run(c, t, log, at) == validate_link_run(c, log, at) || validate_link_run(
            c,
            log,
            at,
        ) is Fail,
{
}

pub(crate) proof fn lemma_looks_up(job: Job)
    requires
        job.valid(),
    ensures
        works(
            job.config,
            |l: Seq<Reply>, n: nat| selected_run(job.config, l, n),
            |d: DiskView| job.active(d),
            |d: DiskView| job.fine(d),
            |v: Option<u32>, d: DiskView| job.active(d),
        ),
{
    let c = job.config;
    let begin = |d: DiskView| job.active(d);
    let fine = |d: DiskView| job.fine(d);
    let end = |v: Option<u32>, d: DiskView| job.active(d);
    let read = |reply: Reply, n: nat| match reply {
        Reply::Text(text) => Run::Done(Some(text), n),
        Reply::Missing => Run::Done(None, n),
        Reply::Failed(_) => Run::Done(None, n),
        _ => Run::Fail(mismatch(), n),
    };
    let reads = |l: Seq<Reply>, n: nat| text_run(l, n, c.active_profile@);
    let still = |v: Option<String>, d: DiskView| job.active(d);
    lemma_request(c, RequestView::ReadText(c.active_profile@), read, reads, begin, fine, still);
    assert(steady(reads)) by {
        reveal(steady);
    }
    let after = |recorded: Option<String>| |l: Seq<Reply>, n: nat|
        match recorded {
            Some(value) => match parsed(trimmed(value@), u32::MAX as nat) {
                Some(slot) => flag_run(
                    l,
                    n,
                    RequestView::IsDir(c.profile_dir_path(slot as u32)),
                ).bind(
                    |there: bool, m: nat|
                        Run::Done(
                            if there {
                                Some(slot as u32)
                            } else {
                                None
                            },
                            m,
                        ),
                ),
                None => Run::Done(None, n),
            },
            None => Run::Done(None, n),
        };
    assert forall|recorded: Option<String>| works(
        c,
        #[trigger] after(recorded),
        |d: DiskView| still(recorded, d),
        fine,
        end,
    ) by {
        let start = |d: DiskView| still(recorded, d);
        let named = match recorded {
            Some(value) => parsed(trimmed(value@), u32::MAX as nat),
            None => None,
        };
        match named {
            Some(slot) => {
                let request = RequestView::IsDir(c.profile_dir_path(slot as u32));
                let same = |there: bool, d: DiskView| job.active(d);
                lemma_flag(c, request, start, fine, same);
                let says = |there: bool| |l: Seq<Reply>, n: nat|
                    Run::Done(
                        if there {
                            Some(slot as u32)
                        } else {
                            None
                        },
                        n,
                    );
                assert forall|there: bool| works(
                    c,
                    #[trigger] says(there),
                    |d: DiskView| same(there, d),
                    fine,
                    end,
                ) by {
                    let value = if there {
                        Some(slot as u32)
                    } else {
                        None
                    };
                    lemma_at_once(
                        c,
                        value,
                        says(there),
                        |d: DiskView| same(there, d),
                        fine,
                        end,
                    );
                }
                lemma_bind(
                    c,
                    |l: Seq<Reply>, n: nat| flag_run(l, n, request),
                    says,
                    after(recorded),
                    start,
                    fine,
                    same,
                    end,
                );
            },
            None => {
                lemma_at_once(c, None, after(recorded), start, fine, end);
            },
        }
    }
    lemma_bind(
        c,
        reads,
        after,
        |l: Seq<Reply>, n: nat| selected_run(c, l, n),
        begin,
        fine,
        still,
        end,
    );
}

/// Saving a session's held credentials, which are saved already.
pub(crate) proof fn lemma_kept_session(
    job: Job,
    selected: Option<u32>,
    begin: spec_fn(DiskView) -> bool,
    fine: spec_fn(DiskView) -> bool,
)
    requires
        job.valid(),
        job.record.link_session,
        forall|d: DiskView| #[trigger] begin(d) ==> fine(d) && job.linkable(d),
    ensures
        works(
            job.config,
            |l: Seq<Reply>, n: nat| preserve_session_run(job.config, selected, l, n),
            begin,
            fine,
            |v: (), d: DiskView| begin(d),
        ),
{
    let c = job.config;
    let end = |v: (), d: DiskView| begin(d);
    let hold = c.session_hold_path();
    let found = |held: bool, d: DiskView| begin(d) && held == d.has(hold);
    lemma_flag(c, RequestView::Exists(hold), begin, fine, found);
    let held = |d: DiskView| begin(d) && d.has(hold);
    let rest = |detached: AuthDocument| |slot: u32| |l: Seq<Reply>, n: nat|
        save_session_run(c, detached@, slot, selected == Some(slot), l, n);
    assert forall|detached: AuthDocument| detached@ == job.session implies works(
        c,
        #[trigger] rest(detached)(job.guest),
        held,
        fine,
        end,
    ) by {
        lemma_saved_session(job, selected == Some(job.guest), held, fine);
        lemma_instead(
            c,
            |l: Seq<Reply>, n: nat|
                save_session_run(
                    c,
                    job.session,
                    job.guest,
                    selected == Some(job.guest),
                    l,
                    n,
                ),
            rest(detached)(job.guest),
            held,
            held,
            fine,
            |v: (), d: DiskView| held(d),
            end,
        );
    }
    let looks = |l: Seq<Reply>, n: nat|
        auth_run(l, n, hold).bind(
            |detached: AuthDocument, m: nat|
                enrolled_run(detached@, l, m).bind(
                    |slot: u32, k: nat| rest(detached)(slot)(l, k),
                ),
        );
    lemma_detached(job, hold, rest, looks, held, fine, end);
    let other = |running: bool| |l: Seq<Reply>, n: nat|
        if running {
            Run::Fail(ErrorView::RecoveryDeferred, n)
        } else {
            looks(l, n)
        };
    let asks = |l: Seq<Reply>, n: nat|
        flag_run(l, n, RequestView::WritersRunning).bind(|v: bool, k: nat| other(v)(l, k));
    lemma_expected(
        c,
        RequestView::WritersRunning,
        false,
        looks,
        other,
        asks,
        held,
        fine,
        held,
        end,
    );
    let after = |there: bool| |l: Seq<Reply>, n: nat|
        if !there {
            Run::Done((), n)
        } else {
            asks(l, n)
        };
    assert forall|there: bool| works(
        c,
        #[trigger] after(there),
        |d: DiskView| found(there, d),
        fine,
        end,
    ) by {
        let start = |d: DiskView| found(there, d);
        if !there {
            lemma_at_once(c, (), after(there), start, fine, end);
        } else {
            lemma_instead(c, asks, after(there), held, start, fine, end, end);
        }
    }
    lemma_bind(
        c,
        |l: Seq<Reply>, n: nat| flag_run(l, n, RequestView::Exists(hold)),
        after,
        |l: Seq<Reply>, n: nat| preserve_session_run(c, selected, l, n),
        begin,
        fine,
        found,
        end,
    );
}

pub(crate) proof fn lemma_saved_session(
    job: Job,
    is_selected: bool,
    begin: spec_fn(DiskView) -> bool,
    fine: spec_fn(DiskView) -> bool,
)
    requires
        forall|d: DiskView| #[trigger] begin(d) ==> fine(d) && job.known(d),
    ensures
        works(
            job.config,
            |l: Seq<Reply>, n: nat|
                save_session_run(job.config, job.session, job.guest, is_selected, l, n),
            begin,
            fine,
            |v: (), d: DiskView| begin(d),
        ),
{
    let c = job.config;
    let end = |v: (), d: DiskView| begin(d);
    let saved = c.profile_auth_path(job.guest);
    let hold = c.session_hold_path();
    if let Some(tokens) = job.session.raw.get("tokens"@) {
        lemma_alike(tokens);
    }
    lemma_auth(c, saved, job.session, begin, fine);
    let read = |stored: AuthDocument, d: DiskView| stored@ == job.session && begin(d);
    let after = |stored: AuthDocument| |l: Seq<Reply>, n: nat|
        reconcile_run(l, n, hold, job.session, saved, stored@).rescue(
            |error: ErrorView, m: nat|
                Run::Fail(
                    if error is Message {
                        not_relinking()
                    } else {
                        error
                    },
                    m,
                ),
        ).next(
            |m: nat|
                if job.session.newer(stored@) && is_selected {
                    promote_session_run(c, job.session, l, m)
                } else {
                    Run::Done((), m)
                },
        );
    assert forall|stored: AuthDocument| works(
        c,
        #[trigger] after(stored),
        |d: DiskView| read(stored, d),
        fine,
        end,
    ) by {
        let start = |d: DiskView| read(stored, d);
        if stored@ == job.session {
            lemma_at_once(c, (), after(stored), start, fine, end);
        } else {
            lemma_never(c, after(stored), start, fine, end);
        }
    }
    lemma_bind(
        c,
        |l: Seq<Reply>, n: nat| auth_run(l, n, saved),
        after,
        |l: Seq<Reply>, n: nat|
            save_session_run(c, job.session, job.guest, is_selected, l, n),
        begin,
        fine,
        read,
        end,
    );
}

pub(crate) proof fn lemma_hold_session(job: Job)
    requires
        job.valid(),
        job.record.link_session,
    ensures
        works(
            job.config,
            |l: Seq<Reply>, n: nat| hold_session_run(job.config, l, n),
            |d: DiskView| job.active(d) && !d.linked,
            |d: DiskView| job.fine(d),
            |v: (), d: DiskView| job.cleared(d),
        ),
{
    let c = job.config;
    let begin = |d: DiskView| job.active(d) && !d.linked;
    let cleared = |d: DiskView| job.cleared(d);
    let fine = |d: DiskView| job.fine(d);
    let end = |v: (), d: DiskView| job.cleared(d);
    let own = c.session_auth@;
    lemma_session_paths(c);
    let read = |reply: Reply, n: nat| match reply {
        Reply::Entry(kind) => Run::Done(kind, n),
        Reply::Failed(error) => Run::Fail(error@, n),
        _ => Run::Fail(mismatch(), n),
    };
    let looks = |l: Seq<Reply>, n: nat| entry_run(l, n, own);
    let seen = |kind: EntryKind, d: DiskView|
        begin(d) && (kind == EntryKind::Missing) == !d.has(own);
    lemma_request(c, RequestView::Entry(own), read, looks, begin, fine, seen);
    assert(steady(looks)) by {
        reveal(steady);
    }
    let request = RequestView::Rename { from: own, to: c.session_hold_path() };
    let moves = |l: Seq<Reply>, n: nat| done_run(l, n, request);
    let syncs = |l: Seq<Reply>, n: nat| done_run(l, n, RequestView::SyncParent(own));
    lemma_done(c, RequestView::SyncParent(own), cleared, fine, cleared);
    lemma_instead(
        c,
        syncs,
        syncs,
        cleared,
        cleared,
        fine,
        |v: (), d: DiskView| cleared(d),
        end,
    );
    let after = |kind: EntryKind| |l: Seq<Reply>, n: nat|
        if kind == EntryKind::Missing {
            Run::Done((), n)
        } else {
            done_run(l, n, request).next(|m: nat| done_run(l, m, RequestView::SyncParent(own)))
        };
    assert forall|kind: EntryKind| works(
        c,
        #[trigger] after(kind),
        |d: DiskView| seen(kind, d),
        fine,
        end,
    ) by {
        let start = |d: DiskView| seen(kind, d);
        if kind == EntryKind::Missing {
            lemma_at_once(c, (), after(kind), start, fine, end);
        } else {
            lemma_done(c, request, start, fine, cleared);
            lemma_next(c, moves, syncs, after(kind), start, fine, cleared, end);
        }
    }
    lemma_bind(
        c,
        looks,
        after,
        |l: Seq<Reply>, n: nat| hold_session_run(c, l, n),
        begin,
        fine,
        seen,
        end,
    );
}

/// The files of a session are all different ones.
pub(crate) proof fn lemma_session_paths(c: Config)
    ensures
        c.session_hold_path() != c.session_auth@,
        c.session_link_pending_path() != c.session_auth@,
{
    reveal_strlit(".cxa-hold");
    reveal_strlit(".cxa-link");
    assert(c.session_hold_path().len() == c.session_auth@.len() + 9);
    assert(c.session_link_pending_path().len() == c.session_auth@.len() + 9);
}

pub(crate) proof fn lemma_discard(job: Job)
    requires
        job.valid(),
        job.record.link_session,
    ensures
        works(
            job.config,
            |l: Seq<Reply>, n: nat| discard_session_run(job.config, l, n),
            |d: DiskView| job.attached(d),
            |d: DiskView| job.fine(d),
            |v: (), d: DiskView| job.bound(d),
        ),
{
    let c = job.config;
    let attached = |d: DiskView| job.attached(d);
    let bound = |d: DiskView| job.bound(d);
    let fine = |d: DiskView| job.fine(d);
    let end = |v: (), d: DiskView| job.bound(d);
    let hold = c.session_hold_path();
    let removes = |l: Seq<Reply>, n: nat| done_run(l, n, RequestView::Remove(hold));
    let syncs = |l: Seq<Reply>, n: nat| done_run(l, n, RequestView::SyncParent(hold));
    lemma_session_paths(c);
    lemma_done(c, RequestView::Remove(hold), attached, fine, bound);
    lemma_done(c, RequestView::SyncParent(hold), bound, fine, bound);
    lemma_instead(c, syncs, syncs, bound, bound, fine, |v: (), d: DiskView| bound(d), end);
    lemma_next(
        c,
        removes,
        syncs,
        |l: Seq<Reply>, n: nat| discard_session_run(c, l, n),
        attached,
        fine,
        bound,
        end,
    );
}

/// Installing the link of a session where nothing is in its place.
pub open spec fn short_install_run(c: Config, log: Seq<Reply>, at: nat) -> Run<()> {
    let temporary = c.session_link_pending_path();
    done_run(log, at, RequestView::Remove(temporary)).next(
        |n: nat|
            done_run(log, n, RequestView::Symlink { target: c.active_auth@, link: temporary }).next(
                |m: nat|
                    flag_run(
                        log,
                        m,
                        RequestView::LinkIfAbsent { from: temporary, to: c.session_auth@ },
                    ).bind(
                        |installed: bool, k: nat|
                            if !installed {
                                Run::Fail(ErrorView::RecoveryDeferred, k)
                            } else {
                                done_run(log, k, RequestView::Remove(temporary)).next(
                                    |j: nat|
                                        flag_run(log, j, RequestView::WritersRunning).bind(
                                            |running: bool, i: nat|
                                                if running {
                                                    Run::Fail(ErrorView::RecoveryDeferred, i)
                                                } else {
                                                    discard_session_run(c, log, i)
                                                },
                                        ),
                                )
                            },
                    ),
            ),
    )
}

pub(crate) proof fn lemma_short_install(c: Config, log: Seq<Reply>, at: nat)
    ensures
        install_link_run(c, log, at) == short_install_run(c, log, at) || short_install_run(
            c,
            log,
            at,
        ) is Fail,
{
}

pub(crate) proof fn lemma_install(job: Job)
    requires
        job.valid(),
        job.record.link_session,
    ensures
        works(
            job.config,
            |l: Seq<Reply>, n: nat| install_link_run(job.config, l, n),
            |d: DiskView| job.cleared(d),
            |d: DiskView| job.fine(d),
            |v: (), d: DiskView| job.bound(d),
        ),
{
    let c = job.config;
    let cleared = |d: DiskView| job.cleared(d);
    let attached = |d: DiskView| job.attached(d);
    let fine = |d: DiskView| job.fine(d);
    let end = |v: (), d: DiskView| job.bound(d);
    let temporary = c.session_link_pending_path();
    let removal = RequestView::Remove(temporary);
    let link = RequestView::Symlink { target: c.active_auth@, link: temporary };
    let place = RequestView::LinkIfAbsent { from: temporary, to: c.session_auth@ };
    lemma_session_paths(c);
    let discards = |l: Seq<Reply>, n: nat| discard_session_run(c, l, n);
    lemma_discard(job);
    let settled = |running: bool| |l: Seq<Reply>, n: nat|
        if running {
            Run::Fail(ErrorView::RecoveryDeferred, n)
        } else {
            discard_session_run(c, l, n)
        };
    let settles = |l: Seq<Reply>, n: nat|
        flag_run(l, n, RequestView::WritersRunning).bind(|v: bool, k: nat| settled(v)(l, k));
    lemma_expected(
        c,
        RequestView::WritersRunning,
        false,
        discards,
        settled,
        settles,
        attached,
        fine,
        attached,
        end,
    );
    let removes = |l: Seq<Reply>, n: nat| done_run(l, n, removal);
    lemma_done(c, removal, attached, fine, attached);
    let clears = |l: Seq<Reply>, n: nat| removes(l, n).next(|k: nat| settles(l, k));
    lemma_next(c, removes, settles, clears, attached, fine, attached, end);
    let placed = |installed: bool| |l: Seq<Reply>, n: nat|
        if !installed {
            Run::Fail(ErrorView::RecoveryDeferred, n)
        } else {
            clears(l, n)
        };
    let places = |l: Seq<Reply>, n: nat|
        flag_run(l, n, place).bind(|v: bool, k: nat| placed(v)(l, k));
    lemma_expected(c, place, true, clears, placed, places, cleared, fine, attached, end);
    let links = |l: Seq<Reply>, n: nat| done_run(l, n, link);
    lemma_done(c, link, cleared, fine, cleared);
    let rest = |l: Seq<Reply>, n: nat| links(l, n).next(|k: nat| places(l, k));
    lemma_next(c, links, places, rest, cleared, fine, cleared, end);
    lemma_done(c, removal, cleared, fine, cleared);
    let short = |l: Seq<Reply>, n: nat| short_install_run(c, l, n);
    lemma_next(c, removes, rest, short, cleared, fine, cleared, end);
    let whole = |l: Seq<Reply>, n: nat| install_link_run(c, l, n);
    assert forall|l: Seq<Reply>, n: nat| (#[trigger] whole(l, n)) == short(l, n) || short(
        l,
        n,
    ) is Fail by {
        lemma_short_install(c, l, n);
    }
    lemma_instead(c, short, whole, cleared, cleared, fine, end, end);
}

pub(crate) proof fn lemma_ensured(job: Job, selected: Option<u32>)
    requires
        job.valid(),
        job.record.link_session,
    ensures
        works(
            job.config,
            |l: Seq<Reply>, n: nat| ensure_link_run(job.config, selected, l, n),
            |d: DiskView| job.active(d),
            |d: DiskView| job.fine(d),
            |v: (), d: DiskView| job.bound(d),
        ),
{
    let c = job.config;
    let active = |d: DiskView| job.active(d);
    let alone = |d: DiskView| job.active(d) && !d.linked;
    let attached = |d: DiskView| job.attached(d);
    let cleared = |d: DiskView| job.cleared(d);
    let fine = |d: DiskView| job.fine(d);
    let end = |v: (), d: DiskView| job.bound(d);
    let preserves = |l: Seq<Reply>, n: nat| preserve_session_run(c, selected, l, n);
    let installs = |l: Seq<Reply>, n: nat| install_link_run(c, l, n);
    let holds = |l: Seq<Reply>, n: nat| hold_session_run(c, l, n);
    settled_preserve_session(c, selected);
    settled_hold_session(c);
    lemma_kept_session(job, selected, active, fine);
    lemma_kept_session(job, selected, cleared, fine);
    lemma_install(job);
    lemma_discard(job);
    lemma_hold_session(job);
    lemma_instead(
        c,
        holds,
        holds,
        alone,
        alone,
        fine,
        |v: (), d: DiskView| job.cleared(d),
        |v: (), d: DiskView| cleared(d),
    );
    let last = |l: Seq<Reply>, n: nat| preserves(l, n).next(|k: nat| installs(l, k));
    lemma_next(c, preserves, installs, last, cleared, fine, cleared, end);
    let detaches = |l: Seq<Reply>, n: nat| holds(l, n).next(|k: nat| last(l, k));
    lemma_next(c, holds, last, detaches, alone, fine, cleared, end);
    let discards = |l: Seq<Reply>, n: nat| discard_session_run(c, l, n);
    let told = |linked: bool, d: DiskView| job.active(d) && linked == d.linked;
    lemma_flag(c, RequestView::SessionLinked, active, fine, told);
    let rest = |linked: bool| |l: Seq<Reply>, n: nat|
        if linked {
            discard_session_run(c, l, n)
        } else {
            detaches(l, n)
        };
    assert forall|linked: bool| works(
        c,
        #[trigger] rest(linked),
        |d: DiskView| told(linked, d),
        fine,
        end,
    ) by {
        let start = |d: DiskView| told(linked, d);
        if linked {
            lemma_instead(c, discards, rest(linked), attached, start, fine, end, end);
        } else {
            lemma_instead(c, detaches, rest(linked), alone, start, fine, end, end);
        }
    }
    let asks = |l: Seq<Reply>, n: nat|
        flag_run(l, n, RequestView::SessionLinked).bind(|v: bool, k: nat| rest(v)(l, k));
    lemma_bind(
        c,
        |l: Seq<Reply>, n: nat| flag_run(l, n, RequestView::SessionLinked),
        rest,
        asks,
        active,
        fine,
        told,
        end,
    );
    let goes = |l: Seq<Reply>, n: nat| preserves(l, n).next(|k: nat| asks(l, k));
    lemma_next(c, preserves, asks, goes, active, fine, active, end);
    let makes = |l: Seq<Reply>, n: nat| done_run(l, n, RequestView::PrivateDir(c.codex_home@));
    lemma_done(c, RequestView::PrivateDir(c.codex_home@), active, fine, active);
    let short = |l: Seq<Reply>, n: nat| makes(l, n).next(|k: nat| goes(l, k));
    lemma_next(c, makes, goes, short, active, fine, active, end);
    let whole = |l: Seq<Reply>, n: nat| ensure_link_run(c, selected, l, n);
    assert forall|l: Seq<Reply>, n: nat| (#[trigger] whole(l, n)) == short(l, n) || short(
        l,
        n,
    ) is Fail by {
        lemma_ensure_link(c, selected, l, n);
    }
    lemma_instead(c, short, whole, active, active, fine, end, end);
}

/// Linking a session where nothing fails.
pub(crate) proof fn lemma_ensure_link(c: Config, selected: Option<u32>, log: Seq<Reply>, at: nat)
    ensures
        ({
            let short = done_run(log, at, RequestView::PrivateDir(c.codex_home@)).next(
                |n: nat|
                    preserve_session_run(c, selected, log, n).next(
                        |m: nat|
                            flag_run(log, m, RequestView::SessionLinked).bind(
                                |linked: bool, k: nat|
                                    if linked {
                                        discard_session_run(c, log, k)
                                    } else {
                                        hold_session_run(c, log, k).next(
                                            |j: nat|
                                                preserve_session_run(c, selected, log, j).next(
                                                    |i: nat| install_link_run(c, log, i),
                                                ),
                                        )
                                    },
                            ),
                    ),
            );
            ensure_link_run(c, selected, log, at) == short || short is Fail
        }),
{
}

pub(crate) proof fn lemma_relink(job: Job)
    requires
        job.valid(),
    ensures
        works(
            job.config,
            |l: Seq<Reply>, n: nat| relink_run(job.config, job.record, job.slot, l, n),
            |d: DiskView| job.active(d),
            |d: DiskView| job.fine(d),
            |v: (), d: DiskView| job.bound(d),
        ),
{
    let c = job.config;
    let t = job.record;
    let active = |d: DiskView| job.active(d);
    let fine = |d: DiskView| job.fine(d);
    let end = |v: (), d: DiskView| job.bound(d);
    let whole = |l: Seq<Reply>, n: nat| relink_run(c, t, job.slot, l, n);
    if !t.link_session {
        lemma_at_once(c, (), whole, active, fine, end);
    } else if t.select {
        let links = |l: Seq<Reply>, n: nat| ensure_link_run(c, Some(job.slot), l, n);
        lemma_ensured(job, Some(job.slot));
        assert forall|l: Seq<Reply>, n: nat| (#[trigger] whole(l, n)) == links(l, n) || links(
            l,
            n,
        ) is Fail by {
            lemma_relinked(c, t, job.slot, Some(job.slot), l, n);
        }
        lemma_instead(c, links, whole, active, active, fine, end, end);
    } else {
        let looks = |l: Seq<Reply>, n: nat| selected_run(c, l, n);
        let same = |v: Option<u32>, d: DiskView| job.active(d);
        lemma_looks_up(job);
        settled_selected(c);
        let after = |selected: Option<u32>| |l: Seq<Reply>, n: nat|
            ensure_link_run(c, selected, l, n);
        assert forall|selected: Option<u32>| works(
            c,
            #[trigger] after(selected),
            |d: DiskView| same(selected, d),
            fine,
            end,
        ) by {
            lemma_ensured(job, selected);
            lemma_instead(
                c,
                |l: Seq<Reply>, n: nat| ensure_link_run(c, selected, l, n),
                after(selected),
                active,
                |d: DiskView| same(selected, d),
                fine,
                end,
                end,
            );
        }
        let both = |l: Seq<Reply>, n: nat|
            looks(l, n).bind(|v: Option<u32>, k: nat| after(v)(l, k));
        lemma_bind(c, looks, after, both, active, fine, same, end);
        assert forall|l: Seq<Reply>, n: nat| (#[trigger] whole(l, n)) == both(l, n) || both(
            l,
            n,
        ) is Fail by {
            if let Run::Done(selected, m) = selected_run(c, l, n) {
                lemma_relinked(c, t, job.slot, selected, l, n);
            }
        }
        lemma_instead(c, both, whole, active, active, fine, end, end);
    }
}

/// Relinking comes to linking the session, unless that fails.
pub(crate) proof fn lemma_relinked(
    c: Config,
    t: TransactionView,
    slot: u32,
    selected: Option<u32>,
    log: Seq<Reply>,
    at: nat,
)
    requires
        t.link_session,
        t.select ==> selected == Some(slot),
        !t.select ==> (selected_run(c, log, at) matches Run::Done(found, _) && found == selected),
    ensures
        ({
            let from = if t.select {
                at
            } else {
                selected_run(c, log, at)->Done_1
            };
            relink_run(c, t, slot, log, at) == ensure_link_run(c, selected, log, from)
                || ensure_link_run(c, selected, log, from) is Fail
        }),
{
}

}
