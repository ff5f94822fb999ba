//! What a transaction on the active credentials holds once it has begun, and that ending it without
//! a change gives it back.
use crate::account_store::{selected_run, slot_for_run, slot_with, Profile};
use crate::auth::{law_same_account, AuthDocument, AuthView};
use crate::barrier::{
    abandon_run, active_conflict, begin_barrier_run, hold_record, hold_run, level_run, new_barrier,
    reconcile_active_run, recover_first_run, replace_invalid_run, reselect_run, rollback_run,
    stand_in_run, take_hold_run, unknown_active, AuthBarrier,
};
use crate::config::Config;
use crate::course::{followed, lemma_steady_bind, lemma_steady_next, steady};
use crate::effects::{auth_run, done_run, flag_run, mismatch, Reply, RequestView, Run};
use crate::ending::{
    ends, lemma_ends_as, lemma_ends_at_once, lemma_ends_auth, lemma_ends_bind, lemma_ends_done,
    lemma_ends_expected, lemma_ends_flag, lemma_ends_kept, lemma_ends_never, lemma_ends_next,
    lemma_ends_request,
};
use crate::error::ErrorView;
use crate::recovery::{fits, lemma_side_paths, played, well_apart, DiskView};
use crate::settled::{lemma_same_steady, settled_recover, settled_selected, settled_slot_for};
use crate::settling::{holds, law_rollback_gives_the_hold_back, newer_saved};
use crate::steady::{agree, lemma_recover_part, recover_part, steady_selected};
use vstd::prelude::*;

verus! {

/// Whether credentials are these, or of the same account and refreshed later.
pub open spec fn stems(auth: AuthView, from: AuthView) -> bool {
    auth == from || (auth.identity.same_account(from.identity) && auth.newer(from))
}

/// The active credentials that a transaction begins with, if there are any and no earlier
/// transaction is to be taken up.
pub struct Start {
    pub config: Config,
    pub active: Option<AuthView>,
}

impl Start {
    /// Whether the active credentials are in their place.
    pub open spec fn here(self, d: DiskView) -> bool {
        self.active matches Some(auth) ==> d.has(self.config.active_auth@)
            && d.auths[self.config.active_auth@] == auth
    }

    /// In their place, and the hold is recorded.
    pub open spec fn noted(self, d: DiskView) -> bool {
        self.here(d) && d.record == Some(hold_record())
    }

    /// Whether the hold is recorded, nothing is in the place of the active credentials, and they, or
    /// newer ones of the same account, are on hold.
    pub open spec fn taken(self, d: DiskView) -> bool {
        &&& d.record == Some(hold_record())
        &&& !d.has(self.config.active_auth@)
        &&& self.active matches Some(auth) ==> d.has(self.config.active_hold_path()) && stems(
            d.auths[self.config.active_hold_path()],
            auth,
        )
    }
}

// ---------------------------------------------------------------- settled procedures

proof fn settled_replace_invalid(c: Config, selected: Option<u32>)
    ensures
        steady(|l: Seq<Reply>, n: nat| replace_invalid_run(c, selected, l, n)),
{
    reveal(steady);
}

proof fn settled_take_hold(c: Config, selected: Option<u32>, replace: bool)
    ensures
        steady(|l: Seq<Reply>, n: nat| take_hold_run(c, selected, replace, l, n)),
{
    reveal(steady);
}

proof fn steady_level(
    c: Config,
    path: Seq<char>,
    active: AuthView,
    slot: u32,
    log: Seq<Reply>,
    at: nat,
    k: nat,
)
    requires
        at <= log.len(),
        k <= log.len(),
    ensures
        agree(
            level_run(c, path, active, slot, log, at),
            level_run(c, path, active, slot, log.take(k as int), at),
            at,
            k,
            log.len(),
        ),
{
}

proof fn steady_reselect(c: Config, slot: u32, log: Seq<Reply>, at: nat, k: nat)
    requires
        at <= log.len(),
        k <= log.len(),
    ensures
        agree(
            reselect_run(c, slot, log, at),
            reselect_run(c, slot, log.take(k as int), at),
            at,
            k,
            log.len(),
        ),
{
    steady_selected(c, log, at, k);
}

proof fn settled_level(c: Config, path: Seq<char>, active: AuthView, slot: u32)
    ensures
        steady(|l: Seq<Reply>, n: nat| level_run(c, path, active, slot, l, n)),
{
    reveal(steady);
    assert forall|log: Seq<Reply>, at: nat, k: nat|
        at <= log.len() && k <= log.len() implies agree(
        #[trigger] level_run(c, path, active, slot, log, at),
        #[trigger] level_run(c, path, active, slot, log.take(k as int), at),
        at,
        k,
        log.len(),
    ) by {
        steady_level(c, path, active, slot, log, at, k);
    }
}

proof fn settled_reselect(c: Config, slot: u32)
    ensures
        steady(|l: Seq<Reply>, n: nat| reselect_run(c, slot, l, n)),
{
    reveal(steady);
    assert forall|log: Seq<Reply>, at: nat, k: nat|
        at <= log.len() && k <= log.len() implies agree(
        #[trigger] reselect_run(c, slot, log, at),
        #[trigger] reselect_run(c, slot, log.take(k as int), at),
        at,
        k,
        log.len(),
    ) by {
        steady_reselect(c, slot, log, at, k);
    }
}

// ---------------------------------------------------------------- taking the hold

/// An earlier transaction is taken up first, if there is one.
proof fn lemma_recovered(s: Start, first: DiskView)
    requires
        s.active is Some ==> first.record is None,
        s.here(first),
    ensures
        ends(
            s.config,
            |l: Seq<Reply>, n: nat| recover_first_run(s.config, l, n),
            |d: DiskView| d == first,
            |v: (), d: DiskView| s.here(d),
        ),
        steady(|l: Seq<Reply>, n: nat| recover_first_run(s.config, l, n)),
{
    let c = s.config;
    let begin = |d: DiskView| d == first;
    let end = |v: (), d: DiskView| s.here(d);
    let request = RequestView::Exists(c.transaction_path());
    let asks = |l: Seq<Reply>, n: nat| flag_run(l, n, request);
    let known = |there: bool, d: DiskView| d == first && there == (first.record is Some);
    lemma_ends_flag(c, request, begin, known);
    let recovers = |l: Seq<Reply>, n: nat| recover_part(c, l, n);
    settled_recover(c);
    let kept = |d: DiskView| s.active is None;
    lemma_ends_kept(c, recovers, |request: RequestView| true, kept);
    let after = |there: bool| |l: Seq<Reply>, n: nat|
        if there {
            recover_part(c, l, n)
        } else {
            Run::Done((), n)
        };
    assert forall|there: bool| ends(c, #[trigger] after(there), |d: DiskView| known(there, d), end)
        && steady(after(there)) by {
        let start = |d: DiskView| known(there, d);
        if there {
            lemma_ends_as(
                c,
                recovers,
                after(there),
                kept,
                start,
                |v: (), d: DiskView| kept(d),
                end,
            );
            lemma_same_steady(recovers, after(there));
        } else {
            lemma_ends_at_once(c, (), after(there), start, end);
        }
    }
    let whole = |l: Seq<Reply>, n: nat| recover_first_run(c, l, n);
    assert forall|l: Seq<Reply>, n: nat| #[trigger]
        whole(l, n) == asks(l, n).bind(|v: bool, k: nat| after(v)(l, k)) by {
        lemma_recover_part(c, l, n + 1);
    }
    lemma_ends_bind(c, asks, after, whole, begin, known, end);
    lemma_steady_bind(asks, after, whole);
}

/// Valid active credentials are not replaced.
proof fn lemma_not_replaced(s: Start, selected: Option<u32>)
    ensures
        ends(
            s.config,
            |l: Seq<Reply>, n: nat| replace_invalid_run(s.config, selected, l, n),
            |d: DiskView| s.here(d),
            |replace: bool, d: DiskView|
                s.here(d) && (replace ==> !d.has(s.config.active_auth@)),
        ),
{
    let c = s.config;
    let here = |d: DiskView| s.here(d);
    let end = |replace: bool, d: DiskView| s.here(d) && (replace ==> !d.has(c.active_auth@));
    let request = RequestView::IsFile(c.active_auth@);
    let same = |there: bool, d: DiskView| s.here(d);
    lemma_ends_flag(c, request, here, same);
    let judge = |run: Run<AuthDocument>|
        run.next(|m: nat| Run::Done(false, m)).rescue(
            |error: ErrorView, m: nat|
                if (error is Json || error is InvalidAuth) && selected is Some {
                    Run::Done(true, m)
                } else {
                    Run::Fail(error, m)
                },
        );
    let read = |reply: Reply, n: nat|
        judge(
            match reply {
                Reply::Auth(document) => Run::Done(document, n),
                Reply::Failed(error) => Run::Fail(error@, n),
                _ => Run::Fail(mismatch(), n),
            },
        );
    let reads = |l: Seq<Reply>, n: nat| judge(auth_run(l, n, c.active_auth@));
    lemma_ends_request(c, RequestView::ReadAuth(c.active_auth@), read, reads, here, end);
    let after = |there: bool| |l: Seq<Reply>, n: nat|
        if !there {
            Run::Done(false, n)
        } else {
            judge(auth_run(l, n, c.active_auth@))
        };
    assert forall|there: bool| ends(c, #[trigger] after(there), |d: DiskView| same(there, d), end) by {
        let start = |d: DiskView| same(there, d);
        if !there {
            lemma_ends_at_once(c, false, after(there), start, end);
        } else {
            lemma_ends_as(c, reads, after(there), here, start, end, end);
        }
    }
    lemma_ends_bind(
        c,
        |l: Seq<Reply>, n: nat| flag_run(l, n, request),
        after,
        |l: Seq<Reply>, n: nat| replace_invalid_run(c, selected, l, n),
        here,
        same,
        end,
    );
}

/// The active credentials go out of reach.
proof fn lemma_taken(s: Start, selected: Option<u32>, replace: bool)
    requires
        well_apart(s.config),
    ensures
        ends(
            s.config,
            |l: Seq<Reply>, n: nat| take_hold_run(s.config, selected, replace, l, n),
            |d: DiskView| s.noted(d) && (replace ==> !d.has(s.config.active_auth@)),
            |v: (), d: DiskView| s.taken(d),
        ),
{
    let c = s.config;
    let begin = |d: DiskView| s.noted(d) && (replace ==> !d.has(c.active_auth@));
    let taken = |d: DiskView| s.taken(d);
    let end = |v: (), d: DiskView| s.taken(d);
    let whole = |l: Seq<Reply>, n: nat| take_hold_run(c, selected, replace, l, n);
    let bare = |d: DiskView| s.noted(d) && !d.has(c.active_auth@);
    let stands_in = |l: Seq<Reply>, n: nat| stand_in_run(c, selected, l, n);
    lemma_side_paths(c);
    match selected {
        Some(slot) => {
            let copy = RequestView::Copy {
                from: c.profile_auth_path(slot),
                to: c.active_hold_path(),
            };
            lemma_ends_done(c, copy, bare, taken);
            lemma_ends_as(
                c,
                |l: Seq<Reply>, n: nat| done_run(l, n, copy),
                stands_in,
                bare,
                bare,
                |v: (), d: DiskView| taken(d),
                end,
            );
        },
        None => {
            lemma_ends_at_once(c, (), stands_in, bare, end);
        },
    }
    if replace {
        let rename = RequestView::Rename { from: c.active_auth@, to: c.active_pending_path() };
        let moves = |l: Seq<Reply>, n: nat| done_run(l, n, rename);
        lemma_ends_done(c, rename, begin, bare);
        lemma_ends_next(c, moves, stands_in, whole, begin, bare, end);
    } else {
        let rename = RequestView::Rename { from: c.active_auth@, to: c.active_hold_path() };
        let moves = |l: Seq<Reply>, n: nat| done_run(l, n, rename);
        let there = |d: DiskView| s.noted(d) && d.has(c.active_auth@);
        lemma_ends_done(c, rename, there, taken);
        let known = |found: bool, d: DiskView| s.noted(d) && found == d.has(c.active_auth@);
        lemma_ends_flag(c, RequestView::Exists(c.active_auth@), begin, known);
        let after = |found: bool| |l: Seq<Reply>, n: nat|
            if found {
                done_run(l, n, rename)
            } else {
                stand_in_run(c, selected, l, n)
            };
        assert forall|found: bool| ends(c, #[trigger] after(found), |d: DiskView| known(found, d), end) by {
            let start = |d: DiskView| known(found, d);
            if found {
                lemma_ends_as(
                    c,
                    moves,
                    after(found),
                    there,
                    start,
                    |v: (), d: DiskView| taken(d),
                    end,
                );
            } else {
                lemma_ends_as(c, stands_in, after(found), bare, start, end, end);
            }
        }
        lemma_ends_bind(
            c,
            |l: Seq<Reply>, n: nat| flag_run(l, n, RequestView::Exists(c.active_auth@)),
            after,
            whole,
            begin,
            known,
            end,
        );
    }
}

/// Whoever may be writing is looked for last.
proof fn lemma_watched(s: Start, p: spec_fn(Seq<Reply>, nat) -> Run<()>)
    requires
        forall|l: Seq<Reply>, n: nat| #[trigger]
            p(l, n) == flag_run(l, n, RequestView::WritersRunning).bind(
                |running: bool, h: nat|
                    if running {
                        Run::Fail(ErrorView::RecoveryDeferred, h)
                    } else {
                        Run::Done((), h)
                    },
            ),
    ensures
        ends(s.config, p, |d: DiskView| s.taken(d), |v: (), d: DiskView| s.taken(d)),
        steady(p),
{
    let c = s.config;
    let taken = |d: DiskView| s.taken(d);
    let end = |v: (), d: DiskView| s.taken(d);
    let nothing = |l: Seq<Reply>, n: nat| Run::Done((), n);
    let other = |running: bool| |l: Seq<Reply>, n: nat|
        if running {
            Run::Fail(ErrorView::RecoveryDeferred, n)
        } else {
            Run::Done((), n)
        };
    lemma_ends_at_once(c, (), nothing, taken, end);
    lemma_ends_expected(
        c,
        RequestView::WritersRunning,
        false,
        nothing,
        other,
        p,
        taken,
        taken,
        end,
    );
    reveal(steady);
}

proof fn lemma_held(s: Start)
    requires
        well_apart(s.config),
    ensures
        ends(
            s.config,
            |l: Seq<Reply>, n: nat| hold_run(s.config, l, n),
            |d: DiskView| s.here(d),
            |v: (), d: DiskView| s.taken(d),
        ),
        steady(|l: Seq<Reply>, n: nat| hold_run(s.config, l, n)),
{
    let c = s.config;
    let here = |d: DiskView| s.here(d);
    let taken = |d: DiskView| s.taken(d);
    let end = |v: (), d: DiskView| s.taken(d);
    let removal = RequestView::Remove(c.active_hold_path());
    let note = RequestView::WriteState { path: c.transaction_path(), state: hold_record() };
    let removes = |l: Seq<Reply>, n: nat| done_run(l, n, removal);
    let notes = |l: Seq<Reply>, n: nat| done_run(l, n, note);
    let watches = |l: Seq<Reply>, n: nat|
        flag_run(l, n, RequestView::WritersRunning).bind(
            |running: bool, h: nat|
                if running {
                    Run::Fail(ErrorView::RecoveryDeferred, h)
                } else {
                    Run::Done((), h)
                },
        );
    lemma_side_paths(c);
    lemma_watched(s, watches);
    lemma_ends_as(c, watches, watches, taken, taken, end, end);
    let after = |selected: Option<u32>| |replace: bool| |l: Seq<Reply>, n: nat|
        removes(l, n).next(
            |k: nat|
                notes(l, k).next(
                    |j: nat|
                        take_hold_run(c, selected, replace, l, j).next(|i: nat| watches(l, i)),
                ),
        );
    let judged = |replace: bool, d: DiskView| s.here(d) && (replace ==> !d.has(c.active_auth@));
    let selects = |l: Seq<Reply>, n: nat| selected_run(c, l, n);
    settled_selected(c);
    lemma_ends_kept(
        c,
        selects,
        |request: RequestView| request is ReadText || request is IsDir,
        here,
    );
    let known = |selected: Option<u32>, d: DiskView| here(d);
    let rest = |selected: Option<u32>| |l: Seq<Reply>, n: nat|
        replace_invalid_run(c, selected, l, n).bind(|v: bool, k: nat| after(selected)(v)(l, k));
    assert forall|selected: Option<u32>| ends(
        c,
        #[trigger] rest(selected),
        |d: DiskView| known(selected, d),
        end,
    ) && steady(rest(selected)) by {
        let replaces = |l: Seq<Reply>, n: nat| replace_invalid_run(c, selected, l, n);
        lemma_not_replaced(s, selected);
        settled_replace_invalid(c, selected);
        let takes = after(selected);
        assert forall|replace: bool| ends(c, #[trigger] takes(replace), |d: DiskView| judged(replace, d), end)
            && steady(takes(replace)) by {
            let start = |d: DiskView| judged(replace, d);
            let noted = |d: DiskView| s.noted(d) && (replace ==> !d.has(c.active_auth@));
            let takes_hold = |l: Seq<Reply>, n: nat| take_hold_run(c, selected, replace, l, n);
            lemma_ends_done(c, removal, start, start);
            lemma_ends_done(c, note, start, noted);
            lemma_taken(s, selected, replace);
            settled_take_hold(c, selected, replace);
            lemma_ends_as(
                c,
                takes_hold,
                takes_hold,
                noted,
                noted,
                end,
                |v: (), d: DiskView| taken(d),
            );
            let last = |l: Seq<Reply>, n: nat| takes_hold(l, n).next(|i: nat| watches(l, i));
            lemma_ends_next(c, takes_hold, watches, last, noted, taken, end);
            lemma_steady_next(takes_hold, watches, last);
            let records = |l: Seq<Reply>, n: nat| notes(l, n).next(|j: nat| last(l, j));
            lemma_ends_next(c, notes, last, records, start, noted, end);
            lemma_steady_next(notes, last, records);
            lemma_ends_next(c, removes, records, takes(replace), start, start, end);
            lemma_steady_next(removes, records, takes(replace));
        }
        lemma_ends_as(c, replaces, replaces, here, |d: DiskView| known(selected, d), judged, judged);
        lemma_ends_bind(
            c,
            replaces,
            takes,
            rest(selected),
            |d: DiskView| known(selected, d),
            judged,
            end,
        );
        lemma_steady_bind(replaces, takes, rest(selected));
    }
    let whole = |l: Seq<Reply>, n: nat| hold_run(c, l, n);
    lemma_ends_bind(c, selects, rest, whole, here, known, end);
    lemma_steady_bind(selects, rest, whole);
}

// ---------------------------------------------------------------- levelling

/// An account that is found by an identity has saved credentials of that account.
proof fn lemma_slot_with(
    c: Config,
    auth: AuthView,
    d: DiskView,
    accounts: Seq<Profile>,
    slot: u32,
)
    requires
        forall|i: int|
            0 <= i < accounts.len() ==> {
                let path = c.profile_auth_path((#[trigger] accounts[i]).slot);
                d.has(path) && d.auths[path] == accounts[i].auth@
            },
        slot_with(accounts, auth.identity) == Some(slot),
    ensures
        d.has(c.profile_auth_path(slot)),
        d.auths[c.profile_auth_path(slot)].identity.same_account(auth.identity),
    decreases accounts.len(),
{
    if accounts.len() > 0 && !accounts[0].auth@.identity.same_account(auth.identity) {
        let rest = accounts.skip(1);
        assert forall|i: int| 0 <= i < rest.len() implies {
            let path = c.profile_auth_path((#[trigger] rest[i]).slot);
            d.has(path) && d.auths[path] == rest[i].auth@
        } by {
            assert(rest[i] == accounts[i + 1]);
        }
        lemma_slot_with(c, auth, d, rest, slot);
    } else {
        assert(accounts.len() > 0);
        assert(d.has(c.profile_auth_path(accounts[0].slot)));
    }
}

/// Credentials on hold and their saved copy are brought to the same state.
proof fn lemma_levelled(s: Start, held: AuthView, slot: u32)
    requires
        well_apart(s.config),
    ensures
        ends(
            s.config,
            |l: Seq<Reply>, n: nat|
                level_run(s.config, s.config.active_hold_path(), held, slot, l, n),
            |d: DiskView|
                s.taken(d) && holds(s.config, held, d) && d.has(s.config.profile_auth_path(slot))
                    && d.auths[s.config.profile_auth_path(slot)].identity.same_account(
                    held.identity,
                ),
            |v: (), d: DiskView| s.taken(d),
        ),
{
    let c = s.config;
    let hold = c.active_hold_path();
    let path = c.profile_auth_path(slot);
    let begin = |d: DiskView|
        s.taken(d) && holds(c, held, d) && d.has(path) && d.auths[path].identity.same_account(
            held.identity,
        );
    let taken = |d: DiskView| s.taken(d);
    let end = |v: (), d: DiskView| s.taken(d);
    lemma_side_paths(c);
    lemma_ends_auth(c, path, begin);
    let read = |stored: AuthDocument, d: DiskView|
        begin(d) && d.has(path) && d.auths[path] == stored@;
    let after = |stored: AuthDocument| |l: Seq<Reply>, n: nat|
        if held.newer(stored@) {
            done_run(l, n, RequestView::Copy { from: hold, to: path })
        } else if stored@.newer(held) {
            done_run(l, n, RequestView::Copy { from: path, to: hold })
        } else if !held.same_credentials(stored@) {
            Run::Fail(active_conflict(), n)
        } else {
            Run::Done((), n)
        };
    assert forall|stored: AuthDocument| ends(c, #[trigger] after(stored), |d: DiskView| read(stored, d), end) by {
        let start = |d: DiskView| read(stored, d);
        if held.newer(stored@) {
            let copy = RequestView::Copy { from: hold, to: path };
            lemma_ends_done(c, copy, start, taken);
            lemma_ends_as(
                c,
                |l: Seq<Reply>, n: nat| done_run(l, n, copy),
                after(stored),
                start,
                start,
                |v: (), d: DiskView| taken(d),
                end,
            );
        } else if stored@.newer(held) {
            let copy = RequestView::Copy { from: path, to: hold };
            assert forall|d: DiskView, e: DiskView|
                start(d) && #[trigger] fits(c, d, copy, Reply::Done, e) implies taken(e) by {
                if let Some(auth) = s.active {
                    law_same_account(stored@.identity, held.identity, auth.identity);
                }
            }
            lemma_ends_done(c, copy, start, taken);
            lemma_ends_as(
                c,
                |l: Seq<Reply>, n: nat| done_run(l, n, copy),
                after(stored),
                start,
                start,
                |v: (), d: DiskView| taken(d),
                end,
            );
        } else if !held.same_credentials(stored@) {
            lemma_ends_never(c, after(stored), start, end);
        } else {
            lemma_ends_at_once(c, (), after(stored), start, end);
        }
    }
    lemma_ends_bind(
        c,
        |l: Seq<Reply>, n: nat| auth_run(l, n, path),
        after,
        |l: Seq<Reply>, n: nat| level_run(c, hold, held, slot, l, n),
        begin,
        read,
        end,
    );
}

/// The account of the held credentials is selected.
proof fn lemma_reselected(s: Start, slot: u32)
    ensures
        ends(
            s.config,
            |l: Seq<Reply>, n: nat| reselect_run(s.config, slot, l, n),
            |d: DiskView| s.taken(d),
            |v: (), d: DiskView| s.taken(d),
        ),
{
    let c = s.config;
    let p = |l: Seq<Reply>, n: nat| reselect_run(c, slot, l, n);
    let taken = |d: DiskView| s.taken(d);
    let allowed = |request: RequestView|
        request is ReadText || request is IsDir || (request matches RequestView::Write { path, .. }
            && path == c.active_profile@);
    settled_reselect(c, slot);
    lemma_ends_kept(c, p, allowed, taken);
    lemma_ends_as(
        c,
        p,
        p,
        taken,
        taken,
        |v: (), d: DiskView| taken(d),
        |v: (), d: DiskView| s.taken(d),
    );
}

proof fn lemma_reconciled(s: Start)
    requires
        well_apart(s.config),
    ensures
        ends(
            s.config,
            |l: Seq<Reply>, n: nat|
                reconcile_active_run(s.config, s.config.active_hold_path(), l, n),
            |d: DiskView| s.taken(d),
            |v: (), d: DiskView| s.taken(d),
        ),
        steady(
            |l: Seq<Reply>, n: nat|
                reconcile_active_run(s.config, s.config.active_hold_path(), l, n),
        ),
{
    let c = s.config;
    let hold = c.active_hold_path();
    let taken = |d: DiskView| s.taken(d);
    let end = |v: (), d: DiskView| s.taken(d);
    let read = |held: AuthDocument, d: DiskView|
        taken(d) && d.has(hold) && d.auths[hold] == held@;
    lemma_ends_auth(c, hold, taken);
    let after = |held: AuthDocument| |known: Option<u32>| |l: Seq<Reply>, n: nat|
        match known {
            Some(slot) => level_run(c, hold, held@, slot, l, n).next(
                |j: nat| reselect_run(c, slot, l, j),
            ),
            None => Run::Fail(unknown_active(held@.identity.label()), n),
        };
    let looks = |held: AuthDocument| |l: Seq<Reply>, n: nat|
        slot_for_run(held@.identity, l, n).bind(|v: Option<u32>, k: nat| after(held)(v)(l, k));
    assert forall|held: AuthDocument| ends(c, #[trigger] looks(held), |d: DiskView| read(held, d), end)
        && steady(looks(held)) by {
        let start = |d: DiskView| read(held, d);
        let finds = |l: Seq<Reply>, n: nat| slot_for_run(held@.identity, l, n);
        let found = |known: Option<u32>, d: DiskView|
            start(d) && (known matches Some(slot) ==> d.has(c.profile_auth_path(slot))
                && d.auths[c.profile_auth_path(slot)].identity.same_account(held@.identity));
        settled_slot_for(held@.identity);
        lemma_finds(c, held@, start);
        let goes = after(held);
        assert forall|known: Option<u32>| ends(c, #[trigger] goes(known), |d: DiskView| found(known, d), end)
            && steady(goes(known)) by {
            let here = |d: DiskView| found(known, d);
            match known {
                Some(slot) => {
                    let levels = |l: Seq<Reply>, n: nat| level_run(c, hold, held@, slot, l, n);
                    let reselects = |l: Seq<Reply>, n: nat| reselect_run(c, slot, l, n);
                    lemma_levelled(s, held@, slot);
                    settled_level(c, hold, held@, slot);
                    lemma_reselected(s, slot);
                    settled_reselect(c, slot);
                    lemma_ends_as(
                        c,
                        levels,
                        levels,
                        |d: DiskView|
                            s.taken(d) && holds(c, held@, d) && d.has(c.profile_auth_path(slot))
                                && d.auths[c.profile_auth_path(slot)].identity.same_account(
                                held@.identity,
                            ),
                        here,
                        end,
                        |v: (), d: DiskView| taken(d),
                    );
                    lemma_ends_next(c, levels, reselects, goes(known), here, taken, end);
                    lemma_steady_next(levels, reselects, goes(known));
                },
                None => {
                    lemma_ends_never(c, goes(known), here, end);
                    reveal(steady);
                },
            }
        }
        lemma_ends_bind(c, finds, goes, looks(held), start, found, end);
        lemma_steady_bind(finds, goes, looks(held));
    }
    let auths = |l: Seq<Reply>, n: nat| auth_run(l, n, hold);
    let reads = |l: Seq<Reply>, n: nat|
        auths(l, n).bind(|held: AuthDocument, k: nat| looks(held)(l, k));
    lemma_ends_bind(c, auths, looks, reads, taken, read, end);
    lemma_steady_bind(auths, looks, reads);
    let same = |there: bool, d: DiskView| taken(d);
    let asks = |l: Seq<Reply>, n: nat| flag_run(l, n, RequestView::IsFile(hold));
    lemma_ends_flag(c, RequestView::IsFile(hold), taken, same);
    let rest = |there: bool| |l: Seq<Reply>, n: nat|
        if !there {
            Run::Done((), n)
        } else {
            reads(l, n)
        };
    assert forall|there: bool| ends(c, #[trigger] rest(there), |d: DiskView| same(there, d), end)
        && steady(rest(there)) by {
        let start = |d: DiskView| same(there, d);
        if !there {
            lemma_ends_at_once(c, (), rest(there), start, end);
        } else {
            lemma_ends_as(c, reads, rest(there), taken, start, end, end);
            lemma_same_steady(reads, rest(there));
        }
    }
    let whole = |l: Seq<Reply>, n: nat| reconcile_active_run(c, hold, l, n);
    lemma_ends_bind(c, asks, rest, whole, taken, same, end);
    lemma_steady_bind(asks, rest, whole);
}

/// Looking up the account of credentials.
proof fn lemma_finds(c: Config, auth: AuthView, begin: spec_fn(DiskView) -> bool)
    ensures
        ends(
            c,
            |l: Seq<Reply>, n: nat| slot_for_run(auth.identity, l, n),
            begin,
            |known: Option<u32>, d: DiskView|
                begin(d) && (known matches Some(slot) ==> d.has(c.profile_auth_path(slot))
                    && d.auths[c.profile_auth_path(slot)].identity.same_account(auth.identity)),
        ),
{
    let end = |known: Option<u32>, d: DiskView|
        begin(d) && (known matches Some(slot) ==> d.has(c.profile_auth_path(slot))
            && d.auths[c.profile_auth_path(slot)].identity.same_account(auth.identity));
    let after = |reply: Reply, n: nat| match reply {
        Reply::Profiles(accounts) => Run::Done(slot_with(accounts@, auth.identity), n),
        Reply::Failed(error) => Run::Fail(error@, n),
        _ => Run::Fail(mismatch(), n),
    };
    assert forall|d: DiskView, reply: Reply, e: DiskView, n: nat|
        begin(d) && #[trigger] fits(c, d, RequestView::Profiles, reply, e) implies (
    #[trigger] after(reply, n) matches Run::Done(known, m) ==> end(known, e)) by {
        if let Reply::Profiles(accounts) = reply {
            if let Some(slot) = slot_with(accounts@, auth.identity) {
                lemma_slot_with(c, auth, d, accounts@, slot);
            }
        }
    }
    lemma_ends_request(
        c,
        RequestView::Profiles,
        after,
        |l: Seq<Reply>, n: nat| slot_for_run(auth.identity, l, n),
        begin,
        end,
    );
}

// ---------------------------------------------------------------- the whole

proof fn lemma_begin_shape(c: Config, log: Seq<Reply>, at: nat)
    ensures
        begin_barrier_run(c, log, at) == recover_first_run(c, log, at).next(
            |n: nat|
                flag_run(log, n, RequestView::WritersRunning).bind(
                    |running: bool, m: nat|
                        if running {
                            Run::Fail(ErrorView::WriterRunning, m)
                        } else {
                            hold_run(c, log, m).next(
                                |k: nat|
                                    reconcile_active_run(c, c.active_hold_path(), log, k).rescue(
                                        |error: ErrorView, j: nat|
                                            abandon_run(c, true, log, j).next(
                                                |i: nat| Run::Fail(error, i),
                                            ),
                                    ).next(|j: nat| Run::Done(new_barrier(c, true), j)),
                            )
                        },
                ),
        ),
{
}

proof fn lemma_begun(s: Start, first: DiskView)
    requires
        well_apart(s.config),
        s.active is Some ==> first.record is None,
        s.here(first),
    ensures
        ends(
            s.config,
            |l: Seq<Reply>, n: nat| begin_barrier_run(s.config, l, n),
            |d: DiskView| d == first,
            |barrier: AuthBarrier, d: DiskView| s.taken(d),
        ),
{
    let c = s.config;
    let begin = |d: DiskView| d == first;
    let here = |d: DiskView| s.here(d);
    let taken = |d: DiskView| s.taken(d);
    let end = |barrier: AuthBarrier, d: DiskView| s.taken(d);
    let levels = |l: Seq<Reply>, n: nat| reconcile_active_run(c, c.active_hold_path(), l, n);
    let says = |l: Seq<Reply>, n: nat| Run::Done(new_barrier(c, true), n);
    lemma_reconciled(s);
    lemma_ends_as(
        c,
        levels,
        levels,
        taken,
        taken,
        |v: (), d: DiskView| s.taken(d),
        |v: (), d: DiskView| taken(d),
    );
    lemma_ends_at_once(c, new_barrier(c, true), says, taken, end);
    let short = |l: Seq<Reply>, n: nat| levels(l, n).next(|j: nat| says(l, j));
    lemma_ends_next(c, levels, says, short, taken, taken, end);
    let last = |l: Seq<Reply>, n: nat|
        levels(l, n).rescue(
            |error: ErrorView, j: nat|
                abandon_run(c, true, l, j).next(|i: nat| Run::Fail(error, i)),
        ).next(|j: nat| says(l, j));
    lemma_ends_as(c, short, last, taken, taken, end, end);
    let holds_it = |l: Seq<Reply>, n: nat| hold_run(c, l, n);
    lemma_held(s);
    lemma_ends_as(
        c,
        holds_it,
        holds_it,
        here,
        here,
        |v: (), d: DiskView| s.taken(d),
        |v: (), d: DiskView| taken(d),
    );
    let goes = |l: Seq<Reply>, n: nat| holds_it(l, n).next(|k: nat| last(l, k));
    lemma_ends_next(c, holds_it, last, goes, here, taken, end);
    let other = |running: bool| |l: Seq<Reply>, n: nat|
        if running {
            Run::Fail(ErrorView::WriterRunning, n)
        } else {
            goes(l, n)
        };
    let asks = |l: Seq<Reply>, n: nat|
        flag_run(l, n, RequestView::WritersRunning).bind(|v: bool, k: nat| other(v)(l, k));
    lemma_ends_expected(
        c,
        RequestView::WritersRunning,
        false,
        goes,
        other,
        asks,
        here,
        here,
        end,
    );
    let recovers = |l: Seq<Reply>, n: nat| recover_first_run(c, l, n);
    lemma_recovered(s, first);
    lemma_ends_as(
        c,
        recovers,
        recovers,
        begin,
        begin,
        |v: (), d: DiskView| s.here(d),
        |v: (), d: DiskView| here(d),
    );
    let whole = |l: Seq<Reply>, n: nat| begin_barrier_run(c, l, n);
    assert forall|l: Seq<Reply>, n: nat| #[trigger]
        whole(l, n) == recovers(l, n).next(|k: nat| asks(l, k)) by {
        lemma_begin_shape(c, l, n);
    }
    lemma_ends_next(c, recovers, asks, whole, begin, here, end);
}

// ---------------------------------------------------------------- laws

/// Once a transaction on the active credentials has begun, its hold is recorded, nothing is in
/// their place and its barrier is that of a hold. Where credentials were active before, and no
/// earlier transaction had to be taken up, those are on hold, or newer ones that were saved for the
/// same account.
pub proof fn law_barrier_holds_the_credentials(
    c: Config,
    barrier: AuthBarrier,
    log: Seq<Reply>,
    disks: Seq<DiskView>,
)
    requires
        well_apart(c),
        followed(c, |l: Seq<Reply>, n: nat| begin_barrier_run(c, l, n), log, disks, 0),
        begin_barrier_run(c, log, 0) == Run::Done(barrier, log.len()),
    ensures
        barrier == new_barrier(c, true),
        disks.last().record == Some(hold_record()),
        !disks.last().has(c.active_auth@),
        disks[0].record is None && disks[0].has(c.active_auth@) ==> {
            &&& disks.last().has(c.active_hold_path())
            &&& stems(
                disks.last().auths[c.active_hold_path()],
                disks[0].auths[c.active_auth@],
            )
        },
{
    let first = disks[0];
    let s = Start {
        config: c,
        active: if first.record is None && first.has(c.active_auth@) {
            Some(first.auths[c.active_auth@])
        } else {
            None
        },
    };
    lemma_begun(s, first);
    reveal(ends);
}

/// A transaction on the active credentials that is ended as it has begun, without a change, leaves
/// the credentials that were active before in place, or newer ones that were saved for the same
/// account, and nothing of itself.
pub proof fn law_unused_barrier_gives_the_credentials_back(
    c: Config,
    barrier: AuthBarrier,
    begun: Seq<Reply>,
    taking: Seq<DiskView>,
    ended: Seq<Reply>,
    giving: Seq<DiskView>,
)
    requires
        well_apart(c),
        followed(c, |l: Seq<Reply>, n: nat| begin_barrier_run(c, l, n), begun, taking, 0),
        begin_barrier_run(c, begun, 0) == Run::Done(barrier, begun.len()),
        taking[0].record is None,
        taking[0].has(c.active_auth@),
        giving[0] == taking.last(),
        played(
            c,
            |l: Seq<Reply>| rollback_run(barrier.config, barrier.hold_active, l, 0),
            ended,
            giving,
            0,
        ),
        rollback_run(barrier.config, barrier.hold_active, ended, 0) is Done,
    ensures
        giving.last().has(c.active_auth@),
        stems(giving.last().auths[c.active_auth@], taking[0].auths[c.active_auth@]),
        !giving.last().has(c.active_hold_path()),
        !giving.last().has(c.active_pending_path()),
        !giving.last().has(c.active_reappeared_path()),
        giving.last().record is None,
{
    law_barrier_holds_the_credentials(c, barrier, begun, taking);
    let before = taking[0].auths[c.active_auth@];
    let held = giving[0].auths[c.active_hold_path()];
    assert((|l: Seq<Reply>| rollback_run(barrier.config, barrier.hold_active, l, 0)) =~= (|
        l: Seq<Reply>,
    | rollback_run(c, true, l, 0)));
    law_rollback_gives_the_hold_back(c, held, ended, giving);
    let now = giving.last().auths[c.active_auth@];
    if now != held {
        let slot = choose|slot: u32| #[trigger]
            newer_saved(c, held, giving.last(), slot, now);
        law_same_account(now.identity, held.identity, before.identity);
    }
}

}
