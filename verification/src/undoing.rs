//! A transaction that stopped before its change was recorded is undone: at whatever point it
//! stopped, the active credentials are put back.
use crate::account_store::selected_run;
use crate::auth::{AuthDocument, AuthView};
use crate::barrier::{hold_record, recover_run};
use crate::config::Config;
use crate::effects::{auth_run, Reply, RequestView, Run};
use crate::recovery::{
    claimed_disk, claimed_replies, fits, lemma_alike, lemma_claimed_replies, lemma_keep_claimed,
    lemma_side_paths, others_kept, played, saved, well_apart, DiskView,
};
use crate::text::{parsed, trimmed};
use crate::transaction::{
    cleanup_run, give_back_run, keep_claimed_run, put_back_run, return_hold_run,
    settle_pending_run,
};
use vstd::prelude::*;

verus! {

/// Whether the active credentials are being held or put back. They are on hold, in their place or
/// moved aside again, and nothing else is in their place.
pub open spec fn interrupted(c: Config, slot: u32, held: AuthView, disk: DiskView) -> bool {
    &&& saved(c, slot, held, disk)
    &&& disk.record == Some(hold_record())
    &&& !disk.has(c.active_pending_path())
    &&& disk.has(c.active_hold_path()) ==> disk.auths[c.active_hold_path()] == held
    &&& disk.has(c.active_auth@) ==> disk.auths[c.active_auth@] == held
    &&& disk.has(c.active_reappeared_path()) ==> disk.auths[c.active_reappeared_path()] == held
        && !disk.has(c.active_auth@) && disk.has(c.active_hold_path())
    &&& !disk.has(c.active_hold_path()) ==> disk.has(c.active_auth@)
}

/// Whether the active credentials are in their place, and nothing of the transaction is left.
pub open spec fn undone(c: Config, slot: u32, held: AuthView, disk: DiskView) -> bool {
    &&& saved(c, slot, held, disk)
    &&& disk.record is None
    &&& disk.has(c.active_auth@) && disk.auths[c.active_auth@] == held
    &&& !disk.has(c.active_reappeared_path())
    &&& !disk.has(c.active_hold_path())
    &&& !disk.has(c.active_pending_path())
}

/// Whether a transaction is interrupted or undone, and neither other credentials nor the
/// selection changed.
pub open spec fn reversible(c: Config, slot: u32, held: AuthView, before: DiskView, disk: DiskView) -> bool {
    &&& interrupted(c, slot, held, disk) || undone(c, slot, held, disk)
    &&& others_kept(c, before, disk)
    &&& disk.choice == before.choice
}

/// Whether every disk from `from` on is one from which the transaction can be undone, the
/// procedure does not fail, and where it ends the transaction is undone.
pub open spec fn goes_back(
    c: Config,
    slot: u32,
    held: AuthView,
    run: Run<()>,
    disks: Seq<DiskView>,
    from: nat,
) -> bool {
    &&& forall|i: int|
        from <= i < disks.len() ==> reversible(
            c,
            slot,
            held,
            disks[from as int],
            #[trigger] disks[i],
        )
    &&& !(run is Fail)
    &&& run is Done ==> undone(c, slot, held, disks.last())
}

/// What goes back from a later disk goes back from an earlier one.
proof fn lemma_from_there(
    c: Config,
    slot: u32,
    held: AuthView,
    run: Run<()>,
    disks: Seq<DiskView>,
    from: nat,
    there: nat,
)
    requires
        from <= there < disks.len(),
        goes_back(c, slot, held, run, disks, there),
        forall|i: int|
            from <= i <= there ==> reversible(
                c,
                slot,
                held,
                disks[from as int],
                #[trigger] disks[i],
            ),
    ensures
        goes_back(c, slot, held, run, disks, from),
{
    let first = disks[from as int];
    let middle = disks[there as int];
    assert(reversible(c, slot, held, first, middle));
    assert forall|i: int| from <= i < disks.len() implies reversible(
        c,
        slot,
        held,
        first,
        #[trigger] disks[i],
    ) by {
        if i > there {
            let last = disks[i];
            assert(reversible(c, slot, held, middle, last));
            assert forall|path: Seq<char>|
                path != c.active_auth@ && path != c.active_hold_path() && path
                    != c.active_pending_path() && path
                    != c.active_reappeared_path() implies last.has(path) == #[trigger] first.has(
                path,
            ) && (first.has(path) ==> last.auths[path] == first.auths[path]) by {
                assert(middle.has(path) == first.has(path));
            }
        }
    }
}

// ---------------------------------------------------------------- the ending

/// The end of an undoing: the credentials are in their place.
pub open spec fn ending(c: Config, log: Seq<Reply>, at: nat) -> Run<()> {
    settle_pending_run(c, log, at).next(|n: nat| cleanup_run(c, hold_record(), log, n))
}

/// Whether the first replies to the ending are those that a sound disk gives.
pub open spec fn ending_replies(log: Seq<Reply>, at: nat, count: nat) -> bool {
    &&& log.len() >= at + count
    &&& count >= 1 ==> log[at as int] == Reply::Flag(false)
    &&& forall|i: int| at < i < at + count ==> #[trigger] log[i] == Reply::Done
}

/// What the ending asks for after so many replies.
pub open spec fn ending_request(c: Config, count: nat) -> RequestView {
    if count == 0 {
        RequestView::Exists(c.active_pending_path())
    } else if count <= 2 {
        RequestView::Remove(c.active_pending_path())
    } else if count == 3 {
        RequestView::Remove(c.active_hold_path())
    } else if count == 4 {
        RequestView::Remove(c.transaction_path())
    } else {
        RequestView::SyncParent(c.transaction_path())
    }
}

/// The disk after so many replies to the ending.
pub open spec fn ending_disk(c: Config, disk: DiskView, count: nat) -> DiskView
    decreases count,
{
    if count == 0 {
        disk
    } else {
        let before = ending_disk(c, disk, (count - 1) as nat);
        if count == 2 || count == 3 {
            before.without(c.active_pending_path())
        } else if count == 4 {
            before.without(c.active_hold_path())
        } else if count == 5 {
            DiskView { record: None, ..before }
        } else {
            before
        }
    }
}

proof fn lemma_ending(c: Config, log: Seq<Reply>, at: nat, count: nat)
    requires
        count <= 6,
        ending_replies(log, at, count),
        count < 6 ==> log.len() == at + count,
    ensures
        ending(c, log, at) == if count < 6 {
            Run::<()>::Ask(ending_request(c, count))
        } else {
            Run::Done((), at + 6)
        },
{
    let a = at as int;
    assert(count >= 2 ==> log[a + 1] == Reply::Done);
    assert(count >= 3 ==> log[a + 2] == Reply::Done);
    assert(count >= 4 ==> log[a + 3] == Reply::Done);
    assert(count >= 5 ==> log[a + 4] == Reply::Done);
    assert(count >= 6 ==> log[a + 5] == Reply::Done);
}

/// Whether the credentials are back in their place and no longer on hold.
pub open spec fn in_place(c: Config, disk: DiskView) -> bool {
    disk.has(c.active_auth@) && !disk.has(c.active_hold_path())
}

proof fn lemma_ending_disk(c: Config, slot: u32, held: AuthView, disk: DiskView, count: nat)
    requires
        well_apart(c),
        count <= 6,
        interrupted(c, slot, held, disk),
        in_place(c, disk),
    ensures
        reversible(c, slot, held, disk, ending_disk(c, disk, count)),
        count >= 5 ==> undone(c, slot, held, ending_disk(c, disk, count)),
        !ending_disk(c, disk, count).has(c.active_pending_path()),
{
    lemma_side_paths(c);
    reveal_with_fuel(ending_disk, 7);
}

proof fn lemma_ending_replies(
    c: Config,
    slot: u32,
    held: AuthView,
    log: Seq<Reply>,
    disks: Seq<DiskView>,
    at: nat,
    count: nat,
)
    requires
        well_apart(c),
        count <= 6,
        at + count <= log.len(),
        played(c, |l: Seq<Reply>| ending(c, l, at), log, disks, at),
        interrupted(c, slot, held, disks[at as int]),
        in_place(c, disks[at as int]),
    ensures
        ending_replies(log, at, count),
        disks[at as int + count] == ending_disk(c, disks[at as int], count),
    decreases count,
{
    if count > 0 {
        let before = (count - 1) as nat;
        let i = at + before;
        let procedure = |l: Seq<Reply>| ending(c, l, at);
        lemma_ending_replies(c, slot, held, log, disks, at, before);
        lemma_ending_disk(c, slot, held, disks[at as int], before);
        let prefix = log.take(i as int);
        assert(ending_replies(prefix, at, before));
        lemma_ending(c, prefix, at, before);
        assert(procedure(prefix) is Ask);
    }
}

proof fn lemma_ends(
    c: Config,
    slot: u32,
    held: AuthView,
    log: Seq<Reply>,
    disks: Seq<DiskView>,
    at: nat,
)
    requires
        well_apart(c),
        at <= log.len(),
        played(c, |l: Seq<Reply>| ending(c, l, at), log, disks, at),
        interrupted(c, slot, held, disks[at as int]),
        in_place(c, disks[at as int]),
    ensures
        goes_back(c, slot, held, ending(c, log, at), disks, at),
{
    let procedure = |l: Seq<Reply>| ending(c, l, at);
    let first = disks[at as int];
    if log.len() > at + 6 {
        let prefix = log.take(at as int + 6);
        lemma_ending_replies(c, slot, held, log, disks, at, 6);
        assert(ending_replies(prefix, at, 6));
        lemma_ending(c, prefix, at, 6);
        assert(procedure(prefix) is Done);
    }
    let count = (log.len() - at) as nat;
    assert forall|i: int| at <= i < disks.len() implies reversible(
        c,
        slot,
        held,
        first,
        #[trigger] disks[i],
    ) by {
        lemma_ending_replies(c, slot, held, log, disks, at, (i - at) as nat);
        lemma_ending_disk(c, slot, held, first, (i - at) as nat);
    }
    lemma_ending_replies(c, slot, held, log, disks, at, count);
    lemma_ending_disk(c, slot, held, first, count);
    lemma_ending(c, log, at, count);
}

// ---------------------------------------------------------------- putting back

/// What follows once it is known whether everything is done.
pub open spec fn after_return(c: Config, returned: Run<bool>, log: Seq<Reply>) -> Run<()> {
    returned.bind(
        |finished: bool, n: nat|
            if finished {
                Run::Done((), n)
            } else {
                settle_pending_run(c, log, n)
            },
    ).next(|n: nat| cleanup_run(c, hold_record(), log, n))
}

/// An undoing from the point on at which the held credentials are put back.
pub open spec fn putting(c: Config, log: Seq<Reply>, at: nat) -> Run<()> {
    after_return(c, put_back_run(c, log, at), log)
}

proof fn lemma_putting(c: Config, log: Seq<Reply>, at: nat)
    ensures
        log.len() == at ==> putting(c, log, at) == Run::<()>::Ask(
            RequestView::CopyIfAbsent { from: c.active_hold_path(), to: c.active_auth@ },
        ),
        log.len() > at && log[at as int] == Reply::Flag(true) ==> {
            &&& log.len() == at + 1 ==> putting(c, log, at) == Run::<()>::Ask(
                RequestView::Remove(c.active_hold_path()),
            )
            &&& log.len() > at + 1 && log[at as int + 1] == Reply::Done ==> {
                &&& log.len() == at + 2 ==> putting(c, log, at) == Run::<()>::Ask(
                    RequestView::SyncParent(c.active_hold_path()),
                )
                &&& log.len() > at + 2 && log[at as int + 2] == Reply::Done ==> putting(c, log, at)
                    == ending(c, log, at + 3)
            }
        },
{
}

/// Whether the credentials are on hold, and none are in their place.
pub open spec fn only_on_hold(c: Config, disk: DiskView) -> bool {
    &&& disk.has(c.active_hold_path())
    &&& !disk.has(c.active_auth@)
    &&& !disk.has(c.active_reappeared_path())
}

proof fn lemma_put_disks(c: Config, slot: u32, held: AuthView, disk: DiskView)
    requires
        well_apart(c),
        interrupted(c, slot, held, disk),
        only_on_hold(c, disk),
    ensures
        ({
            let copied = disk.with(c.active_auth@, held);
            let released = copied.without(c.active_hold_path());
            &&& interrupted(c, slot, held, copied)
            &&& reversible(c, slot, held, disk, copied)
            &&& interrupted(c, slot, held, released)
            &&& reversible(c, slot, held, disk, released)
            &&& in_place(c, released)
        }),
{
    lemma_side_paths(c);
}

/// Whether the first replies to putting back are those that a sound disk gives.
pub open spec fn put_replies(log: Seq<Reply>, at: nat, count: nat) -> bool {
    &&& log.len() >= at + count
    &&& count >= 1 ==> log[at as int] == Reply::Flag(true)
    &&& count >= 2 ==> log[at as int + 1] == Reply::Done
    &&& count >= 3 ==> log[at as int + 2] == Reply::Done
}

/// The disk after so many replies to putting back.
pub open spec fn put_disk(c: Config, held: AuthView, disk: DiskView, count: nat) -> DiskView {
    if count == 0 {
        disk
    } else if count == 1 {
        disk.with(c.active_auth@, held)
    } else {
        disk.with(c.active_auth@, held).without(c.active_hold_path())
    }
}

proof fn lemma_put_replies(
    c: Config,
    slot: u32,
    held: AuthView,
    log: Seq<Reply>,
    disks: Seq<DiskView>,
    at: nat,
    count: nat,
)
    requires
        well_apart(c),
        count <= 3,
        at + count <= log.len(),
        played(c, |l: Seq<Reply>| putting(c, l, at), log, disks, at),
        interrupted(c, slot, held, disks[at as int]),
        only_on_hold(c, disks[at as int]),
    ensures
        put_replies(log, at, count),
        disks[at as int + count] == put_disk(c, held, disks[at as int], count),
    decreases count,
{
    if count > 0 {
        let before = (count - 1) as nat;
        let i = at + before;
        let procedure = |l: Seq<Reply>| putting(c, l, at);
        lemma_put_replies(c, slot, held, log, disks, at, before);
        lemma_side_paths(c);
        let prefix = log.take(i as int);
        lemma_putting(c, prefix, at);
        assert(procedure(prefix) is Ask);
    }
}

proof fn lemma_puts(
    c: Config,
    slot: u32,
    held: AuthView,
    log: Seq<Reply>,
    disks: Seq<DiskView>,
    at: nat,
)
    requires
        well_apart(c),
        at <= log.len(),
        played(c, |l: Seq<Reply>| putting(c, l, at), log, disks, at),
        interrupted(c, slot, held, disks[at as int]),
        only_on_hold(c, disks[at as int]),
    ensures
        goes_back(c, slot, held, putting(c, log, at), disks, at),
{
    let procedure = |l: Seq<Reply>| putting(c, l, at);
    let first = disks[at as int];
    let n: nat = if log.len() - at <= 3 {
        (log.len() - at) as nat
    } else {
        3
    };
    lemma_put_disks(c, slot, held, first);
    assert forall|i: int| at <= i <= at + n implies reversible(
        c,
        slot,
        held,
        first,
        #[trigger] disks[i],
    ) by {
        lemma_put_replies(c, slot, held, log, disks, at, (i - at) as nat);
    }
    lemma_put_replies(c, slot, held, log, disks, at, n);
    lemma_putting(c, log, at);
    if n == 3 {
        let rest = |l: Seq<Reply>| ending(c, l, at + 3);
        assert forall|i: int| at + 3 <= i < log.len() implies (rest(#[trigger] log.take(i)) matches Run::Ask(
            request,
        ) && fits(c, disks[i], request, log[i], disks[i + 1])) by {
            lemma_putting(c, log.take(i), at);
            assert(procedure(log.take(i)) == rest(log.take(i)));
        }
        lemma_ends(c, slot, held, log, disks, at + 3);
        lemma_from_there(c, slot, held, putting(c, log, at), disks, at, at + 3);
    }
}

/// A procedure that comes to putting back without having changed anything goes back.
proof fn lemma_comes_to_putting(
    c: Config,
    slot: u32,
    held: AuthView,
    procedure: spec_fn(Seq<Reply>) -> Run<()>,
    log: Seq<Reply>,
    disks: Seq<DiskView>,
    at: nat,
    there: nat,
)
    requires
        well_apart(c),
        at <= there <= log.len(),
        played(c, procedure, log, disks, at),
        interrupted(c, slot, held, disks[at as int]),
        only_on_hold(c, disks[at as int]),
        forall|i: int| at <= i <= there ==> #[trigger] disks[i] == disks[at as int],
        forall|i: int|
            there <= i < log.len() ==> procedure(#[trigger] log.take(i)) == putting(
                c,
                log.take(i),
                there,
            ),
    ensures
        goes_back(c, slot, held, putting(c, log, there), disks, at),
{
    let rest = |l: Seq<Reply>| putting(c, l, there);
    assert forall|i: int| there <= i < log.len() implies (rest(#[trigger] log.take(i)) matches Run::Ask(
        request,
    ) && fits(c, disks[i], request, log[i], disks[i + 1])) by {
        assert(procedure(log.take(i)) == rest(log.take(i)));
    }
    assert(disks[there as int] == disks[at as int]);
    lemma_puts(c, slot, held, log, disks, there);
    lemma_from_there(c, slot, held, putting(c, log, there), disks, at, there);
}

// ---------------------------------------------------------------- what is given back

/// An undoing from the point on at which the held credentials are read.
pub open spec fn giving(c: Config, log: Seq<Reply>, at: nat) -> Run<()> {
    after_return(
        c,
        auth_run(log, at, c.active_hold_path()).bind(
            |hold: AuthDocument, n: nat|
                selected_run(c, log, n).bind(
                    |selected: Option<u32>, m: nat| give_back_run(c, hold@, selected, log, m),
                ),
        ),
        log,
    )
}

/// The account that a reply names.
pub open spec fn named_account(reply: Reply) -> Option<nat> {
    match reply {
        Reply::Text(text) => parsed(trimmed(text@), u32::MAX as nat),
        _ => None,
    }
}

/// Whether a reply about saved credentials lets the held ones be put back as they are.
pub open spec fn no_better(held: AuthView, reply: Reply) -> bool {
    match reply {
        Reply::Auth(stored) => stored@ == held || !stored@.identity.same_account(held.identity),
        Reply::Failed(_) => true,
        _ => false,
    }
}

/// What is asked for to find out what to give back, until it comes to putting back.
proof fn lemma_giving(c: Config, held: AuthView, log: Seq<Reply>, at: nat)
    ensures
        log.len() == at ==> giving(c, log, at) == Run::<()>::Ask(
            RequestView::ReadAuth(c.active_hold_path()),
        ),
        log.len() > at && (log[at as int] matches Reply::Auth(hold) && hold@ == held) ==> {
            &&& log.len() == at + 1 ==> giving(c, log, at) == Run::<()>::Ask(
                RequestView::ReadText(c.active_profile@),
            )
            &&& log.len() > at + 1 && (log[at as int + 1] is Text || log[at as int + 1] is Missing
                || log[at as int + 1] is Failed) ==> match named_account(log[at as int + 1]) {
                None => giving(c, log, at) == putting(c, log, at + 2),
                Some(slot) => {
                    &&& log.len() == at + 2 ==> giving(c, log, at) == Run::<()>::Ask(
                        RequestView::IsDir(c.profile_dir_path(slot as u32)),
                    )
                    &&& log.len() > at + 2 && log[at as int + 2] == Reply::Flag(false) ==> giving(
                        c,
                        log,
                        at,
                    ) == putting(c, log, at + 3)
                    &&& log.len() > at + 2 && log[at as int + 2] == Reply::Flag(true) ==> {
                        &&& log.len() == at + 3 ==> giving(c, log, at) == Run::<()>::Ask(
                            RequestView::ReadAuth(c.profile_auth_path(slot as u32)),
                        )
                        &&& log.len() > at + 3 && no_better(held, log[at as int + 3]) ==> giving(
                            c,
                            log,
                            at,
                        ) == putting(c, log, at + 4)
                    }
                },
            }
        },
{
    assert(held.same_credentials(held)) by {
        if let Some(tokens) = held.raw.get("tokens"@) {
            lemma_alike(tokens);
        }
    }
}

/// Whether the first replies about what to give back are those that a sound disk gives.
pub open spec fn giving_replies(held: AuthView, log: Seq<Reply>, at: nat, count: nat) -> bool {
    let a = at as int;
    &&& log.len() >= at + count
    &&& count >= 1 ==> (log[a] matches Reply::Auth(hold) && hold@ == held)
    &&& count >= 2 ==> log[a + 1] is Text || log[a + 1] is Missing || log[a + 1] is Failed
    &&& count >= 3 ==> named_account(log[a + 1]) is Some && log[a + 2] is Flag
    &&& count >= 4 ==> log[a + 2] == Reply::Flag(true) && no_better(held, log[a + 3])
}

/// Whether so many replies are all that is needed to come to putting back.
pub open spec fn giving_known(log: Seq<Reply>, at: nat, count: nat) -> bool {
    let a = at as int;
    ||| count == 2 && named_account(log[a + 1]) is None
    ||| count == 3 && log[a + 2] == Reply::Flag(false)
    ||| count == 4
}

proof fn lemma_giving_reply(
    c: Config,
    slot: u32,
    held: AuthView,
    log: Seq<Reply>,
    disks: Seq<DiskView>,
    at: nat,
    count: nat,
)
    requires
        well_apart(c),
        count < 4,
        at + count < log.len(),
        played(c, |l: Seq<Reply>| giving(c, l, at), log, disks, at),
        interrupted(c, slot, held, disks[at as int]),
        only_on_hold(c, disks[at as int]),
        giving_replies(held, log, at, count),
        !giving_known(log, at, count),
        disks[at as int + count] == disks[at as int],
    ensures
        giving_replies(held, log, at, count + 1),
        disks[at as int + count + 1] == disks[at as int],
{
    let procedure = |l: Seq<Reply>| giving(c, l, at);
    let prefix = log.take(at as int + count);
    lemma_giving(c, held, prefix, at);
    assert(procedure(prefix) is Ask);
}

/// The case in which it is known what to give back.
proof fn lemma_gives_known(
    c: Config,
    slot: u32,
    held: AuthView,
    log: Seq<Reply>,
    disks: Seq<DiskView>,
    at: nat,
    count: nat,
)
    requires
        well_apart(c),
        count <= 4,
        at + count <= log.len(),
        played(c, |l: Seq<Reply>| giving(c, l, at), log, disks, at),
        interrupted(c, slot, held, disks[at as int]),
        only_on_hold(c, disks[at as int]),
        giving_replies(held, log, at, count),
        giving_known(log, at, count),
        forall|i: int| at <= i <= at + count ==> #[trigger] disks[i] == disks[at as int],
    ensures
        goes_back(c, slot, held, giving(c, log, at), disks, at),
{
    let procedure = |l: Seq<Reply>| giving(c, l, at);
    lemma_giving(c, held, log, at);
    assert(giving(c, log, at) == putting(c, log, at + count));
    assert forall|i: int| at + count <= i < log.len() implies procedure(#[trigger] log.take(i))
        == putting(c, log.take(i), at + count) by {
        lemma_giving(c, held, log.take(i), at);
    }
    lemma_comes_to_putting(c, slot, held, procedure, log, disks, at, at + count);
}

/// The case in which the replies end before it is known what to give back.
proof fn lemma_gives_waiting(
    c: Config,
    slot: u32,
    held: AuthView,
    log: Seq<Reply>,
    disks: Seq<DiskView>,
    at: nat,
    count: nat,
)
    requires
        count < 4,
        log.len() == at + count,
        disks.len() == log.len() + 1,
        interrupted(c, slot, held, disks[at as int]),
        giving_replies(held, log, at, count),
        !giving_known(log, at, count),
        forall|i: int| at <= i <= at + count ==> #[trigger] disks[i] == disks[at as int],
    ensures
        goes_back(c, slot, held, giving(c, log, at), disks, at),
{
    lemma_giving(c, held, log, at);
    assert(giving(c, log, at) is Ask);
    assert(reversible(c, slot, held, disks[at as int], disks[at as int]));
    assert forall|i: int| at <= i < disks.len() implies reversible(
        c,
        slot,
        held,
        disks[at as int],
        #[trigger] disks[i],
    ) by {
        assert(disks[i] == disks[at as int]);
    }
}

proof fn lemma_gives(
    c: Config,
    slot: u32,
    held: AuthView,
    log: Seq<Reply>,
    disks: Seq<DiskView>,
    at: nat,
    count: nat,
)
    requires
        well_apart(c),
        count <= 4,
        at + count <= log.len(),
        played(c, |l: Seq<Reply>| giving(c, l, at), log, disks, at),
        interrupted(c, slot, held, disks[at as int]),
        only_on_hold(c, disks[at as int]),
        giving_replies(held, log, at, count),
        forall|i: int| at <= i <= at + count ==> #[trigger] disks[i] == disks[at as int],
    ensures
        goes_back(c, slot, held, giving(c, log, at), disks, at),
    decreases 4 - count,
{
    if giving_known(log, at, count) {
        lemma_gives_known(c, slot, held, log, disks, at, count);
    } else if log.len() > at + count {
        lemma_giving_reply(c, slot, held, log, disks, at, count);
        lemma_gives(c, slot, held, log, disks, at, count + 1);
    } else {
        lemma_gives_waiting(c, slot, held, log, disks, at, count);
    }
}

// ---------------------------------------------------------------- credentials moved aside

/// An undoing from the point on at which credentials in the place of the held ones were moved
/// aside.
pub open spec fn keeping(c: Config, log: Seq<Reply>, at: nat) -> Run<()> {
    keep_claimed_run(c, None, log, at).next(|n: nat| giving(c, log, n))
}

proof fn lemma_claimed_disk(c: Config, slot: u32, held: AuthView, disk: DiskView, count: nat)
    requires
        well_apart(c),
        interrupted(c, slot, held, disk),
        disk.has(c.active_reappeared_path()),
    ensures
        interrupted(c, slot, held, claimed_disk(c, disk, count)),
        reversible(c, slot, held, disk, claimed_disk(c, disk, count)),
        count > 5 ==> only_on_hold(c, claimed_disk(c, disk, count)),
{
    lemma_side_paths(c);
}

/// A procedure that comes to giving back after so many replies goes back.
proof fn lemma_comes_to_giving(
    c: Config,
    slot: u32,
    held: AuthView,
    procedure: spec_fn(Seq<Reply>) -> Run<()>,
    log: Seq<Reply>,
    disks: Seq<DiskView>,
    at: nat,
    there: nat,
)
    requires
        well_apart(c),
        at <= there <= log.len(),
        played(c, procedure, log, disks, at),
        interrupted(c, slot, held, disks[there as int]),
        only_on_hold(c, disks[there as int]),
        forall|i: int|
            at <= i <= there ==> reversible(c, slot, held, disks[at as int], #[trigger] disks[i]),
        forall|i: int|
            there <= i < log.len() ==> procedure(#[trigger] log.take(i)) == giving(
                c,
                log.take(i),
                there,
            ),
    ensures
        goes_back(c, slot, held, giving(c, log, there), disks, at),
{
    let rest = |l: Seq<Reply>| giving(c, l, there);
    assert forall|i: int| there <= i < log.len() implies (rest(#[trigger] log.take(i)) matches Run::Ask(
        request,
    ) && fits(c, disks[i], request, log[i], disks[i + 1])) by {
        assert(procedure(log.take(i)) == rest(log.take(i)));
    }
    lemma_gives(c, slot, held, log, disks, there, 0);
    lemma_from_there(c, slot, held, giving(c, log, there), disks, at, there);
}

proof fn lemma_keeps(
    c: Config,
    slot: u32,
    held: AuthView,
    log: Seq<Reply>,
    disks: Seq<DiskView>,
    at: nat,
)
    requires
        well_apart(c),
        at <= log.len(),
        played(c, |l: Seq<Reply>| keeping(c, l, at), log, disks, at),
        interrupted(c, slot, held, disks[at as int]),
        disks[at as int].has(c.active_reappeared_path()),
    ensures
        goes_back(c, slot, held, keeping(c, log, at), disks, at),
{
    let procedure = |l: Seq<Reply>| keeping(c, l, at);
    let first = disks[at as int];
    let n: nat = if log.len() - at <= 7 {
        (log.len() - at) as nat
    } else {
        7
    };
    assert forall|i: int| at <= i <= at + n implies reversible(
        c,
        slot,
        held,
        first,
        #[trigger] disks[i],
    ) by {
        lemma_claimed_replies(c, slot, held, procedure, log, disks, at, (i - at) as nat);
        lemma_claimed_disk(c, slot, held, first, (i - at) as nat);
    }
    lemma_claimed_replies(c, slot, held, procedure, log, disks, at, n);
    lemma_claimed_disk(c, slot, held, first, n);
    lemma_keep_claimed(c, slot, held, log, at);
    if n < 7 {
        assert(keep_claimed_run(c, None, log, at) is Ask);
    } else {
        assert forall|i: int| at + 7 <= i < log.len() implies procedure(#[trigger] log.take(i))
            == giving(c, log.take(i), at + 7) by {
            let prefix = log.take(i);
            assert(claimed_replies(c, slot, held, prefix, at, 7));
            lemma_keep_claimed(c, slot, held, prefix, at);
        }
        lemma_comes_to_giving(c, slot, held, procedure, log, disks, at, at + 7);
    }
}

// ---------------------------------------------------------------- the whole

/// An undoing from the point on at which the hold is looked for.
pub open spec fn returning(c: Config, log: Seq<Reply>, at: nat) -> Run<()> {
    after_return(c, return_hold_run(c, log, at), log)
}

/// What is asked for until it comes to one of the other parts.
proof fn lemma_returning(c: Config, log: Seq<Reply>, at: nat)
    ensures
        log.len() == at ==> returning(c, log, at) == Run::<()>::Ask(
            RequestView::Exists(c.active_hold_path()),
        ),
        log.len() > at && log[at as int] == Reply::Flag(false) ==> returning(c, log, at) == ending(
            c,
            log,
            at + 1,
        ),
        log.len() > at && log[at as int] == Reply::Flag(true) ==> {
            &&& log.len() == at + 1 ==> returning(c, log, at) == Run::<()>::Ask(
                RequestView::Exists(c.active_reappeared_path()),
            )
            &&& log.len() > at + 1 && log[at as int + 1] == Reply::Flag(true) ==> returning(
                c,
                log,
                at,
            ) == keeping(c, log, at + 2)
            &&& log.len() > at + 1 && log[at as int + 1] == Reply::Flag(false) ==> {
                &&& log.len() == at + 2 ==> returning(c, log, at) == Run::<()>::Ask(
                    RequestView::Claim { from: c.active_auth@, to: c.active_reappeared_path() },
                )
                &&& log.len() > at + 2 && log[at as int + 2] == Reply::Flag(false) ==> returning(
                    c,
                    log,
                    at,
                ) == giving(c, log, at + 3)
                &&& log.len() > at + 2 && log[at as int + 2] == Reply::Flag(true) ==> {
                    &&& log.len() == at + 3 ==> returning(c, log, at) == Run::<()>::Ask(
                        RequestView::SyncParent(c.active_reappeared_path()),
                    )
                    &&& log.len() > at + 3 && log[at as int + 3] == Reply::Done ==> returning(
                        c,
                        log,
                        at,
                    ) == keeping(c, log, at + 4)
                }
            }
        },
{
}

/// The disk after active credentials were moved aside.
pub open spec fn moved_aside(c: Config, held: AuthView, disk: DiskView) -> DiskView {
    disk.without(c.active_auth@).with(c.active_reappeared_path(), held)
}

proof fn lemma_moved_aside(c: Config, slot: u32, held: AuthView, disk: DiskView)
    requires
        well_apart(c),
        interrupted(c, slot, held, disk),
        disk.has(c.active_auth@),
        disk.has(c.active_hold_path()),
    ensures
        interrupted(c, slot, held, moved_aside(c, held, disk)),
        reversible(c, slot, held, disk, moved_aside(c, held, disk)),
        moved_aside(c, held, disk).has(c.active_reappeared_path()),
{
    lemma_side_paths(c);
}

/// A procedure that comes to keeping what was moved aside goes back.
proof fn lemma_comes_to_keeping(
    c: Config,
    slot: u32,
    held: AuthView,
    procedure: spec_fn(Seq<Reply>) -> Run<()>,
    log: Seq<Reply>,
    disks: Seq<DiskView>,
    at: nat,
    there: nat,
)
    requires
        well_apart(c),
        at <= there <= log.len(),
        played(c, procedure, log, disks, at),
        interrupted(c, slot, held, disks[there as int]),
        disks[there as int].has(c.active_reappeared_path()),
        forall|i: int|
            at <= i <= there ==> reversible(c, slot, held, disks[at as int], #[trigger] disks[i]),
        forall|i: int|
            there <= i < log.len() ==> procedure(#[trigger] log.take(i)) == keeping(
                c,
                log.take(i),
                there,
            ),
    ensures
        goes_back(c, slot, held, keeping(c, log, there), disks, at),
{
    let rest = |l: Seq<Reply>| keeping(c, l, there);
    assert forall|i: int| there <= i < log.len() implies (rest(#[trigger] log.take(i)) matches Run::Ask(
        request,
    ) && fits(c, disks[i], request, log[i], disks[i + 1])) by {
        assert(procedure(log.take(i)) == rest(log.take(i)));
    }
    lemma_keeps(c, slot, held, log, disks, there);
    lemma_from_there(c, slot, held, keeping(c, log, there), disks, at, there);
}

/// A procedure that comes to the ending goes back.
proof fn lemma_comes_to_ending(
    c: Config,
    slot: u32,
    held: AuthView,
    procedure: spec_fn(Seq<Reply>) -> Run<()>,
    log: Seq<Reply>,
    disks: Seq<DiskView>,
    at: nat,
    there: nat,
)
    requires
        well_apart(c),
        at <= there <= log.len(),
        played(c, procedure, log, disks, at),
        interrupted(c, slot, held, disks[there as int]),
        in_place(c, disks[there as int]),
        forall|i: int|
            at <= i <= there ==> reversible(c, slot, held, disks[at as int], #[trigger] disks[i]),
        forall|i: int|
            there <= i < log.len() ==> procedure(#[trigger] log.take(i)) == ending(
                c,
                log.take(i),
                there,
            ),
    ensures
        goes_back(c, slot, held, ending(c, log, there), disks, at),
{
    let rest = |l: Seq<Reply>| ending(c, l, there);
    assert forall|i: int| there <= i < log.len() implies (rest(#[trigger] log.take(i)) matches Run::Ask(
        request,
    ) && fits(c, disks[i], request, log[i], disks[i + 1])) by {
        assert(procedure(log.take(i)) == rest(log.take(i)));
    }
    lemma_ends(c, slot, held, log, disks, there);
    lemma_from_there(c, slot, held, ending(c, log, there), disks, at, there);
}

/// Whether the first replies about the hold are those that this disk gives.
pub open spec fn returning_replies(c: Config, disk: DiskView, log: Seq<Reply>, at: nat, count: nat) -> bool {
    let a = at as int;
    &&& log.len() >= at + count
    &&& count >= 1 ==> log[a] == Reply::Flag(disk.has(c.active_hold_path()))
    &&& count >= 2 ==> log[a + 1] == Reply::Flag(disk.has(c.active_reappeared_path()))
    &&& count >= 3 ==> log[a + 2] == Reply::Flag(disk.has(c.active_auth@))
    &&& count >= 4 ==> log[a + 3] == Reply::Done
}

/// Whether so many replies are all that is needed to come to one of the other parts.
pub open spec fn returning_known(c: Config, disk: DiskView, count: nat) -> bool {
    ||| count == 1 && !disk.has(c.active_hold_path())
    ||| count == 2 && disk.has(c.active_reappeared_path())
    ||| count == 3 && !disk.has(c.active_auth@)
    ||| count == 4
}

/// The disk after so many replies about the hold.
pub open spec fn returning_disk(c: Config, held: AuthView, disk: DiskView, count: nat) -> DiskView {
    if count >= 3 && disk.has(c.active_auth@) {
        moved_aside(c, held, disk)
    } else {
        disk
    }
}

proof fn lemma_returning_reply(
    c: Config,
    slot: u32,
    held: AuthView,
    log: Seq<Reply>,
    disks: Seq<DiskView>,
    at: nat,
    count: nat,
)
    requires
        well_apart(c),
        count < 4,
        at + count < log.len(),
        played(c, |l: Seq<Reply>| returning(c, l, at), log, disks, at),
        interrupted(c, slot, held, disks[at as int]),
        returning_replies(c, disks[at as int], log, at, count),
        forall|k: nat| k <= count ==> !#[trigger] returning_known(c, disks[at as int], k),
        disks[at as int + count] == returning_disk(c, held, disks[at as int], count),
    ensures
        returning_replies(c, disks[at as int], log, at, count + 1),
        disks[at as int + count + 1] == returning_disk(c, held, disks[at as int], count + 1),
{
    let procedure = |l: Seq<Reply>| returning(c, l, at);
    let prefix = log.take(at as int + count);
    let first = disks[at as int];
    lemma_returning(c, prefix, at);
    assert(!returning_known(c, first, 1) || count < 1);
    assert(!returning_known(c, first, 2) || count < 2);
    assert(!returning_known(c, first, 3) || count < 3);
    assert(procedure(prefix) is Ask);
}

#[verifier::rlimit(80)]
proof fn lemma_dispatch(
    c: Config,
    slot: u32,
    held: AuthView,
    log: Seq<Reply>,
    disks: Seq<DiskView>,
    at: nat,
    count: nat,
)
    requires
        well_apart(c),
        0 < count <= 4,
        at + count <= log.len(),
        played(c, |l: Seq<Reply>| returning(c, l, at), log, disks, at),
        interrupted(c, slot, held, disks[at as int]),
        returning_replies(c, disks[at as int], log, at, count),
        forall|k: nat| k < count ==> !#[trigger] returning_known(c, disks[at as int], k),
        returning_known(c, disks[at as int], count),
        forall|i: int|
            at <= i <= at + count ==> #[trigger] disks[i] == returning_disk(
                c,
                held,
                disks[at as int],
                (i - at) as nat,
            ),
    ensures
        goes_back(c, slot, held, returning(c, log, at), disks, at),
{
    let procedure = |l: Seq<Reply>| returning(c, l, at);
    let first = disks[at as int];
    assert(!returning_known(c, first, 1) || count <= 1);
    assert(!returning_known(c, first, 2) || count <= 2);
    assert(!returning_known(c, first, 3) || count <= 3);
    if count == 4 {
        lemma_moved_aside(c, slot, held, first);
    }
    assert forall|i: int| at <= i <= at + count implies reversible(
        c,
        slot,
        held,
        first,
        #[trigger] disks[i],
    ) by {
        if i < at + 3 {
            assert(disks[i] == first);
        }
    }
    assert(disks[at as int + count] == returning_disk(c, held, first, count));
    lemma_returning(c, log, at);
    if count == 1 {
        assert forall|i: int| at + 1 <= i < log.len() implies procedure(#[trigger] log.take(i))
            == ending(c, log.take(i), at + 1) by {
            lemma_returning(c, log.take(i), at);
        }
        lemma_comes_to_ending(c, slot, held, procedure, log, disks, at, at + 1);
    } else if count == 3 {
        assert forall|i: int| at + 3 <= i < log.len() implies procedure(#[trigger] log.take(i))
            == giving(c, log.take(i), at + 3) by {
            lemma_returning(c, log.take(i), at);
        }
        lemma_comes_to_giving(c, slot, held, procedure, log, disks, at, at + 3);
    } else {
        assert forall|i: int| at + count <= i < log.len() implies procedure(#[trigger] log.take(i))
            == keeping(c, log.take(i), at + count) by {
            lemma_returning(c, log.take(i), at);
        }
        lemma_comes_to_keeping(c, slot, held, procedure, log, disks, at, at + count);
    }
}

proof fn lemma_returns(
    c: Config,
    slot: u32,
    held: AuthView,
    log: Seq<Reply>,
    disks: Seq<DiskView>,
    at: nat,
    count: nat,
)
    requires
        well_apart(c),
        count <= 4,
        at + count <= log.len(),
        played(c, |l: Seq<Reply>| returning(c, l, at), log, disks, at),
        interrupted(c, slot, held, disks[at as int]),
        returning_replies(c, disks[at as int], log, at, count),
        forall|k: nat| k < count ==> !#[trigger] returning_known(c, disks[at as int], k),
        forall|i: int|
            at <= i <= at + count ==> #[trigger] disks[i] == returning_disk(
                c,
                held,
                disks[at as int],
                (i - at) as nat,
            ),
    ensures
        goes_back(c, slot, held, returning(c, log, at), disks, at),
    decreases 4 - count,
{
    let first = disks[at as int];
    if returning_known(c, first, count) {
        lemma_dispatch(c, slot, held, log, disks, at, count);
    } else if log.len() > at + count {
        assert(disks[at as int + count] == returning_disk(c, held, first, count));
        lemma_returning_reply(c, slot, held, log, disks, at, count);
        lemma_returns(c, slot, held, log, disks, at, count + 1);
    } else {
        lemma_waits(c, slot, held, log, disks, at, count);
    }
}

/// The case in which the replies end before it is known what follows.
proof fn lemma_waits(
    c: Config,
    slot: u32,
    held: AuthView,
    log: Seq<Reply>,
    disks: Seq<DiskView>,
    at: nat,
    count: nat,
)
    requires
        well_apart(c),
        count < 4,
        log.len() == at + count,
        disks.len() == log.len() + 1,
        interrupted(c, slot, held, disks[at as int]),
        returning_replies(c, disks[at as int], log, at, count),
        forall|k: nat| k <= count ==> !#[trigger] returning_known(c, disks[at as int], k),
        forall|i: int|
            at <= i <= at + count ==> #[trigger] disks[i] == returning_disk(
                c,
                held,
                disks[at as int],
                (i - at) as nat,
            ),
    ensures
        goes_back(c, slot, held, returning(c, log, at), disks, at),
{
    let first = disks[at as int];
    assert(!returning_known(c, first, 1) || count < 1);
    assert(!returning_known(c, first, 2) || count < 2);
    assert(!returning_known(c, first, 3) || count < 3);
    lemma_returning(c, log, at);
    assert(returning(c, log, at) is Ask);
    if count == 3 {
        lemma_moved_aside(c, slot, held, first);
    }
    assert forall|i: int| at <= i < disks.len() implies reversible(
        c,
        slot,
        held,
        first,
        #[trigger] disks[i],
    ) by {
        if i < at + 3 {
            assert(disks[i] == first);
        }
    }
}

/// What recovery asks for until it looks for the hold.
proof fn lemma_recover(c: Config, log: Seq<Reply>)
    ensures
        log.len() == 0 ==> recover_run(c, log, 0) == Run::<()>::Ask(
            RequestView::Exists(c.transaction_path()),
        ),
        log.len() > 0 && log[0] == Reply::Flag(false) ==> recover_run(c, log, 0) == Run::Done((), 1),
        log.len() > 0 && log[0] == Reply::Flag(true) ==> {
            &&& log.len() == 1 ==> recover_run(c, log, 0) == Run::<()>::Ask(
                RequestView::ReadState(c.transaction_path()),
            )
            &&& log.len() > 1 && (log[1] matches Reply::State(state) && state@ == hold_record()) ==> {
                &&& log.len() == 2 ==> recover_run(c, log, 0) == Run::<()>::Ask(
                    RequestView::WritersRunning,
                )
                &&& log.len() > 2 && log[2] == Reply::Flag(false) ==> {
                    &&& log.len() == 3 ==> recover_run(c, log, 0) == Run::<()>::Ask(
                        RequestView::Exists(c.active_hold_path()),
                    )
                    &&& log.len() > 3 && log[3] == Reply::Flag(true) ==> recover_run(c, log, 0)
                        == returning(c, log, 4)
                    &&& log.len() > 3 && log[3] == Reply::Flag(false) ==> {
                        &&& log.len() == 4 ==> recover_run(c, log, 0) == Run::<()>::Ask(
                            RequestView::Exists(c.active_pending_path()),
                        )
                        &&& log.len() > 4 && log[4] == Reply::Flag(false) ==> recover_run(c, log, 0)
                            == returning(c, log, 5)
                    }
                }
            }
        },
{
}

/// Whether the first replies to recovery are those that a disk with a hold gives.
pub open spec fn recovery_replies(c: Config, disk: DiskView, log: Seq<Reply>, count: nat) -> bool {
    &&& log.len() >= count
    &&& count >= 1 ==> log[0] == Reply::Flag(true)
    &&& count >= 2 ==> (log[1] matches Reply::State(state) && state@ == hold_record())
    &&& count >= 3 ==> log[2] == Reply::Flag(false)
    &&& count >= 4 ==> log[3] == Reply::Flag(disk.has(c.active_hold_path()))
    &&& count >= 5 ==> log[4] == Reply::Flag(false)
}

proof fn lemma_recovery_replies(
    c: Config,
    slot: u32,
    held: AuthView,
    log: Seq<Reply>,
    disks: Seq<DiskView>,
    count: nat,
)
    requires
        well_apart(c),
        count <= log.len(),
        count <= recovery_start(c, disks[0]),
        played(c, |l: Seq<Reply>| recover_run(c, l, 0), log, disks, 0),
        interrupted(c, slot, held, disks[0]),
    ensures
        recovery_replies(c, disks[0], log, count),
        disks[count as int] == disks[0],
    decreases count,
{
    if count > 0 {
        let before = (count - 1) as nat;
        let procedure = |l: Seq<Reply>| recover_run(c, l, 0);
        lemma_recovery_replies(c, slot, held, log, disks, before);
        let prefix = log.take(before as int);
        assert(recovery_replies(c, disks[0], prefix, before));
        lemma_recover(c, prefix);
        assert(procedure(prefix) is Ask);
    }
}

/// A procedure that looks for the hold without having changed anything goes back.
proof fn lemma_comes_to_returning(
    c: Config,
    slot: u32,
    held: AuthView,
    procedure: spec_fn(Seq<Reply>) -> Run<()>,
    log: Seq<Reply>,
    disks: Seq<DiskView>,
    there: nat,
)
    requires
        well_apart(c),
        there <= log.len(),
        played(c, procedure, log, disks, 0),
        interrupted(c, slot, held, disks[0]),
        forall|i: int| 0 <= i <= there ==> #[trigger] disks[i] == disks[0],
        forall|i: int|
            there <= i < log.len() ==> procedure(#[trigger] log.take(i)) == returning(
                c,
                log.take(i),
                there,
            ),
    ensures
        goes_back(c, slot, held, returning(c, log, there), disks, 0),
{
    let rest = |l: Seq<Reply>| returning(c, l, there);
    assert forall|i: int| there <= i < log.len() implies (rest(#[trigger] log.take(i)) matches Run::Ask(
        request,
    ) && fits(c, disks[i], request, log[i], disks[i + 1])) by {
        assert(procedure(log.take(i)) == rest(log.take(i)));
    }
    assert(disks[there as int] == disks[0]);
    lemma_returns(c, slot, held, log, disks, there, 0);
    lemma_from_there(c, slot, held, returning(c, log, there), disks, 0, there);
}

/// How many replies recovery gets until it looks for the hold.
pub open spec fn recovery_start(c: Config, disk: DiskView) -> nat {
    if disk.has(c.active_hold_path()) {
        4
    } else {
        5
    }
}

/// Recovery comes to looking for the hold.
proof fn lemma_recovery_comes_to_returning(
    c: Config,
    disk: DiskView,
    log: Seq<Reply>,
)
    requires
        recovery_replies(c, disk, log, recovery_start(c, disk)),
    ensures
        recover_run(c, log, 0) == returning(c, log, recovery_start(c, disk)),
{
    lemma_recover(c, log);
}

/// The case in which the replies end before recovery looks for the hold.
proof fn lemma_recovery_waits(c: Config, disk: DiskView, log: Seq<Reply>)
    requires
        log.len() < recovery_start(c, disk),
        recovery_replies(c, disk, log, log.len()),
    ensures
        recover_run(c, log, 0) is Ask,
{
    lemma_recover(c, log);
}

/// Recovery from a transaction that stopped before its change was recorded.
proof fn lemma_recovery_goes_back(
    c: Config,
    slot: u32,
    held: AuthView,
    log: Seq<Reply>,
    disks: Seq<DiskView>,
)
    requires
        well_apart(c),
        played(c, |l: Seq<Reply>| recover_run(c, l, 0), log, disks, 0),
        interrupted(c, slot, held, disks[0]),
    ensures
        goes_back(c, slot, held, recover_run(c, log, 0), disks, 0),
{
    let procedure = |l: Seq<Reply>| recover_run(c, l, 0);
    let first = disks[0];
    let start = recovery_start(c, first);
    let count: nat = if log.len() < start {
        log.len()
    } else {
        start
    };
    assert(reversible(c, slot, held, first, first));
    assert forall|i: int| 0 <= i <= count implies #[trigger] disks[i] == first by {
        lemma_recovery_replies(c, slot, held, log, disks, i as nat);
    }
    lemma_recovery_replies(c, slot, held, log, disks, count);
    if count == start {
        assert forall|i: int| start <= i < log.len() implies procedure(#[trigger] log.take(i))
            == returning(c, log.take(i), start) by {
            assert(recovery_replies(c, first, log.take(i), start));
            lemma_recovery_comes_to_returning(c, first, log.take(i));
        }
        lemma_recovery_comes_to_returning(c, first, log);
        lemma_comes_to_returning(c, slot, held, procedure, log, disks, start);
    } else {
        lemma_recovery_waits(c, first, log);
    }
}

/// A transaction that stopped before its change was recorded is undone by recovery, wherever the
/// active credentials are by then: they are put back in their place, and nothing of the
/// transaction is left. Recovery does not fail, it may itself stop at any point and be taken up
/// again, and it changes neither other credentials nor the selection.
pub proof fn law_interrupted_hold_is_undone(
    c: Config,
    slot: u32,
    held: AuthView,
    log: Seq<Reply>,
    disks: Seq<DiskView>,
)
    requires
        well_apart(c),
        played(c, |l: Seq<Reply>| recover_run(c, l, 0), log, disks, 0),
        interrupted(c, slot, held, disks[0]) || undone(c, slot, held, disks[0]),
    ensures
        goes_back(c, slot, held, recover_run(c, log, 0), disks, 0),
{
    let procedure = |l: Seq<Reply>| recover_run(c, l, 0);
    let first = disks[0];
    assert(reversible(c, slot, held, first, first));
    if first.record is None {
        lemma_recover(c, log);
        if log.len() >= 1 {
            lemma_recover(c, log.take(0));
            assert(procedure(log.take(0)) is Ask);
        }
        if log.len() >= 2 {
            lemma_recover(c, log.take(1));
            assert(procedure(log.take(1)) is Done);
        }
    } else {
        lemma_recovery_goes_back(c, slot, held, log, disks);
    }
}

}
