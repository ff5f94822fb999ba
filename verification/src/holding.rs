//! Taking the active credentials on hold can stop at any point: either nothing has changed yet, or
//! the disk is one from which they are put back.
use crate::account_store::{remove_run, writers_run};
use crate::auth::AuthView;
use crate::barrier::{hold_record, hold_run, replace_invalid_run, take_hold_run};
use crate::config::Config;
use crate::effects::{Reply, RequestView, Run};
use crate::error::ErrorView;
use crate::recovery::{lemma_side_paths, others_kept, played, well_apart, DiskView};
use crate::transaction::record_run;
use crate::undoing::{interrupted, named_account, only_on_hold, undone};
use vstd::prelude::*;

verus! {

/// Taking the hold from the point on at which it is known which account is selected.
pub open spec fn taking(c: Config, selected: Option<u32>, log: Seq<Reply>, at: nat) -> Run<()> {
    replace_invalid_run(c, selected, log, at).bind(
        |replace: bool, m: nat|
            remove_run(log, m, c.active_hold_path()).next(
                |k: nat|
                    record_run(c, hold_record(), log, k).next(
                        |j: nat|
                            take_hold_run(c, selected, replace, log, j).next(
                                |i: nat|
                                    writers_run(log, i).bind(
                                        |running: bool, h: nat|
                                            if running {
                                                Run::Fail(ErrorView::RecoveryDeferred, h)
                                            } else {
                                                Run::Done((), h)
                                            },
                                    ),
                            ),
                    ),
            ),
    )
}

/// Whether the first replies to taking the hold are those that a settled disk gives.
pub open spec fn taking_replies(log: Seq<Reply>, at: nat, count: nat) -> bool {
    let a = at as int;
    &&& log.len() >= at + count
    &&& count >= 1 ==> log[a] == Reply::Flag(true)
    &&& count >= 2 ==> log[a + 1] is Auth
    &&& count >= 3 ==> log[a + 2] == Reply::Done
    &&& count >= 4 ==> log[a + 3] == Reply::Done
    &&& count >= 5 ==> log[a + 4] == Reply::Flag(true)
    &&& count >= 6 ==> log[a + 5] == Reply::Done
    &&& count >= 7 ==> log[a + 6] == Reply::Flag(false)
}

/// What taking the hold asks for after so many replies.
pub open spec fn taking_request(c: Config, count: nat) -> RequestView {
    if count == 0 {
        RequestView::IsFile(c.active_auth@)
    } else if count == 1 {
        RequestView::ReadAuth(c.active_auth@)
    } else if count == 2 {
        RequestView::Remove(c.active_hold_path())
    } else if count == 3 {
        RequestView::WriteState { path: c.transaction_path(), state: hold_record() }
    } else if count == 4 {
        RequestView::Exists(c.active_auth@)
    } else if count == 5 {
        RequestView::Rename { from: c.active_auth@, to: c.active_hold_path() }
    } else {
        RequestView::WritersRunning
    }
}

/// The disk after so many replies to taking the hold.
pub open spec fn taking_disk(c: Config, held: AuthView, disk: DiskView, count: nat) -> DiskView {
    let cleared = disk.without(c.active_hold_path());
    let noted = DiskView { record: Some(hold_record()), ..cleared };
    if count <= 2 {
        disk
    } else if count == 3 {
        cleared
    } else if count <= 5 {
        noted
    } else {
        noted.without(c.active_auth@).with(c.active_hold_path(), held)
    }
}

proof fn lemma_taking(c: Config, selected: Option<u32>, log: Seq<Reply>, at: nat, count: nat)
    requires
        count <= 7,
        taking_replies(log, at, count),
        count < 7 ==> log.len() == at + count,
    ensures
        taking(c, selected, log, at) == if count < 7 {
            Run::<()>::Ask(taking_request(c, count))
        } else {
            Run::Done((), at + 7)
        },
{
}

/// Whether the hold was not recorded yet and nothing has changed, or it was and can be undone.
pub open spec fn takes_hold(c: Config, slot: u32, held: AuthView, before: DiskView, disk: DiskView) -> bool {
    &&& undone(c, slot, held, disk) || interrupted(c, slot, held, disk)
    &&& others_kept(c, before, disk)
    &&& disk.choice == before.choice
}

proof fn lemma_taking_disk(c: Config, slot: u32, held: AuthView, disk: DiskView, count: nat)
    requires
        well_apart(c),
        undone(c, slot, held, disk),
    ensures
        takes_hold(c, slot, held, disk, taking_disk(c, held, disk, count)),
        count > 5 ==> only_on_hold(c, taking_disk(c, held, disk, count)) && interrupted(
            c,
            slot,
            held,
            taking_disk(c, held, disk, count),
        ),
        count <= 5 ==> taking_disk(c, held, disk, count).has(c.active_auth@)
            && taking_disk(c, held, disk, count).auths[c.active_auth@] == held,
{
    lemma_side_paths(c);
}

proof fn lemma_taking_replies(
    c: Config,
    slot: u32,
    held: AuthView,
    selected: Option<u32>,
    procedure: spec_fn(Seq<Reply>) -> Run<()>,
    log: Seq<Reply>,
    disks: Seq<DiskView>,
    at: nat,
    count: nat,
)
    requires
        well_apart(c),
        count <= 7,
        at + count <= log.len(),
        played(c, procedure, log, disks, 0),
        undone(c, slot, held, disks[at as int]),
        forall|i: int|
            at <= i < log.len() ==> procedure(#[trigger] log.take(i)) == taking(
                c,
                selected,
                log.take(i),
                at,
            ),
    ensures
        taking_replies(log, at, count),
        disks[at as int + count] == taking_disk(c, held, disks[at as int], count),
    decreases count,
{
    if count > 0 {
        let before = (count - 1) as nat;
        let i = at + before;
        lemma_taking_replies(c, slot, held, selected, procedure, log, disks, at, before);
        lemma_taking_disk(c, slot, held, disks[at as int], before);
        let prefix = log.take(i as int);
        assert(taking_replies(prefix, at, before));
        lemma_taking(c, selected, prefix, at, before);
        assert(procedure(prefix) is Ask);
    }
}

/// A procedure that comes to taking the hold without having changed anything takes it.
proof fn lemma_comes_to_taking(
    c: Config,
    slot: u32,
    held: AuthView,
    selected: Option<u32>,
    procedure: spec_fn(Seq<Reply>) -> Run<()>,
    log: Seq<Reply>,
    disks: Seq<DiskView>,
    at: nat,
)
    requires
        well_apart(c),
        at <= log.len(),
        played(c, procedure, log, disks, 0),
        undone(c, slot, held, disks[0]),
        forall|i: int| 0 <= i <= at ==> #[trigger] disks[i] == disks[0],
        forall|i: int|
            at <= i < log.len() ==> procedure(#[trigger] log.take(i)) == taking(
                c,
                selected,
                log.take(i),
                at,
            ),
    ensures
        forall|i: int|
            0 <= i < disks.len() ==> takes_hold(c, slot, held, disks[0], #[trigger] disks[i]),
        !(taking(c, selected, log, at) is Fail),
        taking(c, selected, log, at) is Done ==> interrupted(c, slot, held, disks.last())
            && only_on_hold(c, disks.last()),
{
    let first = disks[0];
    assert(disks[at as int] == first);
    if log.len() > at + 7 {
        let prefix = log.take(at as int + 7);
        lemma_taking_replies(c, slot, held, selected, procedure, log, disks, at, 7);
        assert(taking_replies(prefix, at, 7));
        lemma_taking(c, selected, prefix, at, 7);
        assert(procedure(prefix) is Done);
    }
    let count = (log.len() - at) as nat;
    assert forall|i: int| 0 <= i < disks.len() implies takes_hold(
        c,
        slot,
        held,
        first,
        #[trigger] disks[i],
    ) by {
        if i < at {
            assert(disks[i] == first);
        } else {
            lemma_taking_replies(
                c,
                slot,
                held,
                selected,
                procedure,
                log,
                disks,
                at,
                (i - at) as nat,
            );
            lemma_taking_disk(c, slot, held, first, (i - at) as nat);
        }
    }
    lemma_taking_replies(c, slot, held, selected, procedure, log, disks, at, count);
    lemma_taking_disk(c, slot, held, first, count);
    lemma_taking(c, selected, log, at, count);
}

/// What taking the hold asks for until it is known which account is selected.
proof fn lemma_hold(c: Config, log: Seq<Reply>)
    ensures
        log.len() == 0 ==> hold_run(c, log, 0) == Run::<()>::Ask(
            RequestView::ReadText(c.active_profile@),
        ),
        log.len() > 0 && (log[0] is Text || log[0] is Missing || log[0] is Failed)
            ==> match named_account(log[0]) {
            None => hold_run(c, log, 0) == taking(c, None, log, 1),
            Some(slot) => {
                &&& log.len() == 1 ==> hold_run(c, log, 0) == Run::<()>::Ask(
                    RequestView::IsDir(c.profile_dir_path(slot as u32)),
                )
                &&& log.len() > 1 && log[1] == Reply::Flag(true) ==> hold_run(c, log, 0) == taking(
                    c,
                    Some(slot as u32),
                    log,
                    2,
                )
                &&& log.len() > 1 && log[1] == Reply::Flag(false) ==> hold_run(c, log, 0) == taking(
                    c,
                    None,
                    log,
                    2,
                )
            },
        },
{
}

/// Taking the active credentials on hold can be interrupted: until it is recorded nothing has
/// changed, and from then on the disk is at every point one from which recovery puts them back.
/// Where no one interrupts it, it does not fail, and in the end the credentials are on hold.
pub proof fn law_hold_can_be_interrupted(
    c: Config,
    slot: u32,
    held: AuthView,
    log: Seq<Reply>,
    disks: Seq<DiskView>,
)
    requires
        well_apart(c),
        played(c, |l: Seq<Reply>| hold_run(c, l, 0), log, disks, 0),
        undone(c, slot, held, disks[0]),
    ensures
        forall|i: int|
            0 <= i < disks.len() ==> takes_hold(c, slot, held, disks[0], #[trigger] disks[i]),
        !(hold_run(c, log, 0) is Fail),
        hold_run(c, log, 0) is Done ==> interrupted(c, slot, held, disks.last()) && only_on_hold(
            c,
            disks.last(),
        ),
{
    let procedure = |l: Seq<Reply>| hold_run(c, l, 0);
    let first = disks[0];
    assert(takes_hold(c, slot, held, first, first));
    lemma_hold(c, log);
    if log.len() >= 1 {
        lemma_hold(c, log.take(0));
        assert(procedure(log.take(0)) is Ask);
        assert(disks[1] == first);
        match named_account(log[0]) {
            None => {
                assert forall|i: int| 1 <= i < log.len() implies procedure(#[trigger] log.take(i))
                    == taking(c, None, log.take(i), 1) by {
                    lemma_hold(c, log.take(i));
                }
                lemma_comes_to_taking(c, slot, held, None, procedure, log, disks, 1);
            },
            Some(named) => {
                if log.len() >= 2 {
                    lemma_hold(c, log.take(1));
                    assert(procedure(log.take(1)) is Ask);
                    assert(disks[2] == first);
                    let selected = if log[1] == Reply::Flag(true) {
                        Some(named as u32)
                    } else {
                        None
                    };
                    assert forall|i: int| 2 <= i < log.len() implies procedure(
                        #[trigger] log.take(i),
                    ) == taking(c, selected, log.take(i), 2) by {
                        lemma_hold(c, log.take(i));
                    }
                    lemma_comes_to_taking(c, slot, held, selected, procedure, log, disks, 2);
                }
            },
        }
    }
}

}
