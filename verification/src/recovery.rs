//! The disk that transactions work on, as the laws about interrupted ones see it.
//!
//! It does what it is asked for, while no Codex process runs: each reply tells the truth about the
//! disk, and each change is made on it.
use crate::account_store::{highest, slot_with, Profile, TransactionView};
use crate::auth::{law_same_account, AuthView, IdentityView};
use crate::config::{configured, Config, Environment, Places};
use crate::effects::{EntryKind, Reply, RequestView, Run};
use crate::json::{alike, JsonView};
use crate::paths::{joined, rooted};
use crate::text::{decimal_text, texts};
use crate::transaction::{keep_claimed_run, OWNED_TEMP_MARKER};
use vstd::prelude::*;
use vstd::utf8::encode_utf8;

verus! {

/// What is on the disk: credential files by their paths, the line that names the selected
/// account, the record of a transaction, and whether the session reads the active credentials.
pub struct DiskView {
    pub auths: Map<Seq<char>, AuthView>,
    pub choice: Option<Seq<u8>>,
    pub record: Option<TransactionView>,
    pub linked: bool,
}

/// Whether a path lies in a directory.
pub open spec fn inside(directory: Seq<char>, path: Seq<char>) -> bool {
    (directory + "/"@).is_prefix_of(path)
}

/// Whether a path is that of the mark that a temporary directory of this program bears.
pub open spec fn is_mark(path: Seq<char>) -> bool {
    OWNED_TEMP_MARKER@.is_suffix_of(path)
}

impl DiskView {
    pub open spec fn has(self, path: Seq<char>) -> bool {
        self.auths.dom().contains(path)
    }

    pub open spec fn with(self, path: Seq<char>, auth: AuthView) -> DiskView {
        DiskView { auths: self.auths.insert(path, auth), ..self }
    }

    pub open spec fn without(self, path: Seq<char>) -> DiskView {
        DiskView { auths: self.auths.remove(path), ..self }
    }

    /// Whether a path is the directory of an account whose credentials are on the disk.
    pub open spec fn holds(self, c: Config, path: Seq<char>) -> bool {
        exists|slot: u32|
            path == #[trigger] c.profile_dir_path(slot) && self.has(c.profile_auth_path(slot))
    }

    /// Whether these are the accounts whose credentials are on the disk.
    pub open spec fn lists(self, c: Config, accounts: Seq<Profile>) -> bool {
        &&& forall|i: int|
            0 <= i < accounts.len() ==> {
                let path = c.profile_auth_path((#[trigger] accounts[i]).slot);
                self.has(path) && self.auths[path] == accounts[i].auth@
            }
        &&& forall|slot: u32|
            self.has(#[trigger] c.profile_auth_path(slot)) ==> exists|i: int|
                0 <= i < accounts.len() && (#[trigger] accounts[i]).slot == slot
    }
}

/// Whether a request, made while no Codex process runs, is replied to in this way and leaves the
/// disk like this.
pub open spec fn fits(
    c: Config,
    disk: DiskView,
    request: RequestView,
    reply: Reply,
    after: DiskView,
) -> bool {
    match request {
        RequestView::WritersRunning => reply == Reply::Flag(false) && after == disk,
        RequestView::Exists(path) => reply == Reply::Flag(
            if path == c.transaction_path() {
                disk.record is Some
            } else {
                disk.has(path)
            },
        ) && after == disk,
        RequestView::ReadState(_) => after == disk && match disk.record {
            Some(t) => reply matches Reply::State(state) && state@ == t,
            None => reply is Failed,
        },
        RequestView::WriteState { state, .. } => reply == Reply::Done && after == (DiskView {
            record: Some(state),
            ..disk
        }),
        RequestView::ReadAuth(path) => after == disk && if disk.has(path) {
            reply matches Reply::Auth(document) && document@ == disk.auths[path]
        } else {
            reply is Failed
        },
        RequestView::Claim { from, to } => if disk.has(from) {
            reply == Reply::Flag(true) && after == disk.without(from).with(to, disk.auths[from])
        } else {
            reply == Reply::Flag(false) && after == disk
        },
        RequestView::CopyIfAbsent { from, to } => if disk.has(to) {
            reply == Reply::Flag(false) && after == disk
        } else if disk.has(from) {
            reply == Reply::Flag(true) && after == disk.with(to, disk.auths[from])
        } else {
            reply is Failed && after == disk
        },
        RequestView::Copy { from, to } => if disk.has(from) {
            reply == Reply::Done && after == disk.with(to, disk.auths[from])
        } else {
            reply is Failed && after == disk
        },
        RequestView::Rename { from, to } => if disk.has(from) {
            reply == Reply::Done && after == disk.without(from).with(to, disk.auths[from])
        } else {
            reply is Failed && after == disk
        },
        RequestView::Remove(path) => reply == Reply::Done && after == if path
            == c.transaction_path() {
            DiskView { record: None, ..disk }
        } else {
            disk.without(path)
        },
        RequestView::SyncParent(_) => reply == Reply::Done && after == disk,
        RequestView::IsFile(path) => after == disk && (reply matches Reply::Flag(there) && (there
            == disk.has(path) || (there && is_mark(path)))),
        RequestView::RemoveTree(path) => {
            &&& reply == Reply::Done
            &&& after == (DiskView { auths: after.auths, ..disk })
            &&& forall|file: Seq<char>| #[trigger]
                after.has(file) ==> disk.has(file) && after.auths[file] == disk.auths[file]
            &&& forall|file: Seq<char>| #[trigger]
                disk.has(file) && !inside(path, file) ==> after.has(file)
        },
        RequestView::PrivateDir(_) => reply == Reply::Done && after == disk,
        RequestView::SameEntry { a, b } => reply == Reply::Flag(a == b) && after == disk,
        RequestView::SameFile { a, b } => reply == Reply::Flag(a == b) && after == disk,
        RequestView::LockHeld(_) => reply == Reply::Flag(false) && after == disk,
        RequestView::SessionLinked => reply == Reply::Flag(disk.linked) && after == disk,
        RequestView::Entry(path) => (reply matches Reply::Entry(kind) && (path == c.session_auth@
            ==> (kind == EntryKind::Missing) == (!disk.has(path) && !disk.linked))) && after == disk,
        RequestView::Symlink { .. } => reply == Reply::Done && after == disk,
        RequestView::LinkIfAbsent { from, to } => from == c.session_link_pending_path() && to
            == c.session_auth@ ==> if disk.has(to) || disk.linked {
            reply == Reply::Flag(false) && after == disk
        } else {
            reply == Reply::Flag(true) && after == (DiskView { linked: true, ..disk })
        },
        RequestView::IsDir(path) => (reply matches Reply::Flag(there) && (disk.holds(c, path)
            ==> there)) && after == disk,
        RequestView::ReadText(path) => after == disk && if path == c.active_profile@ {
            match disk.choice {
                Some(bytes) => match reply {
                    Reply::Text(text) => encode_utf8(text@) == bytes,
                    Reply::Failed(_) => forall|text: Seq<char>| #[trigger]
                        encode_utf8(text) != bytes,
                    _ => false,
                },
                None => reply is Missing,
            }
        } else {
            reply is Text || reply is Missing || reply is Failed
        },
        RequestView::Profiles => (reply matches Reply::Profiles(accounts) && disk.lists(
            c,
            accounts@,
        )) && after == disk,
        RequestView::Names(_) => (reply matches Reply::Names(names) && highest(texts(names@))
            < u32::MAX) && after == disk,
        RequestView::Write { path, bytes } => path == c.active_profile@ ==> reply == Reply::Done
            && after == (DiskView { choice: Some(bytes), ..disk }),
        _ => true,
    }
}

/// Whether these are the replies to what a procedure asks for, from the one at `from` on, and how
/// the disk looked before each of them and in the end.
pub open spec fn played(
    c: Config,
    procedure: spec_fn(Seq<Reply>) -> Run<()>,
    log: Seq<Reply>,
    disks: Seq<DiskView>,
    from: nat,
) -> bool {
    &&& disks.len() == log.len() + 1
    &&& forall|i: int|
        from <= i < log.len() ==> (procedure(#[trigger] log.take(i)) matches Run::Ask(request)
            && fits(c, disks[i], request, log[i], disks[i + 1]))
}

/// Whether the files of a transaction are all different ones.
pub open spec fn well_apart(c: Config) -> bool {
    &&& forall|slot: u32|
        {
            let path = #[trigger] c.profile_auth_path(slot);
            &&& path != c.active_auth@
            &&& path != c.active_hold_path()
            &&& path != c.active_pending_path()
            &&& path != c.active_reappeared_path()
            &&& path != c.transaction_path()
        }
    &&& c.transaction_path() != c.active_auth@
    &&& c.transaction_path() != c.active_hold_path()
    &&& c.transaction_path() != c.active_pending_path()
    &&& c.transaction_path() != c.active_reappeared_path()
}

/// Whether an account's saved credentials are these, and no other account has the same identity.
pub open spec fn saved(c: Config, slot: u32, target: AuthView, disk: DiskView) -> bool {
    &&& disk.has(c.profile_auth_path(slot))
    &&& disk.auths[c.profile_auth_path(slot)] == target
    &&& forall|other: u32|
        disk.has(#[trigger] c.profile_auth_path(other))
            && disk.auths[c.profile_auth_path(other)].identity.same_account(target.identity)
            ==> other == slot
}

/// Whether all credentials but the active ones, and what a transaction keeps of them, stayed as
/// they were.
pub open spec fn others_kept(c: Config, before: DiskView, after: DiskView) -> bool {
    forall|path: Seq<char>|
        path != c.active_auth@ && path != c.active_hold_path() && path != c.active_pending_path()
            && path != c.active_reappeared_path() ==> {
            &&& after.has(path) == #[trigger] before.has(path)
            &&& before.has(path) ==> after.auths[path] == before.auths[path]
        }
}

/// Every value is like itself.
pub proof fn lemma_alike(value: JsonView)
    ensures
        alike(value, value),
    decreases value,
{
    match value {
        JsonView::List(items) => {
            assert forall|i: int| 0 <= i < items.len() implies alike(#[trigger] items[i], items[i]) by {
                lemma_alike(items[i]);
            }
        },
        JsonView::Object(fields) => {
            assert forall|i: int| 0 <= i < fields.len() implies (#[trigger] fields[i]).0
                == fields[i].0 && alike(fields[i].1, fields[i].1) by {
                lemma_alike(fields[i].1);
            }
        },
        _ => {},
    }
}

/// The files beside the active credentials are all different ones.
pub proof fn lemma_side_paths(c: Config)
    ensures
        c.active_hold_path() != c.active_auth@,
        c.active_pending_path() != c.active_auth@,
        c.active_reappeared_path() != c.active_auth@,
        c.active_hold_path() != c.active_pending_path(),
        c.active_hold_path() != c.active_reappeared_path(),
        c.active_pending_path() != c.active_reappeared_path(),
{
    reveal_strlit(".cxa-hold");
    reveal_strlit(".cxa-pending");
    reveal_strlit(".cxa-reappeared");
    let n = c.active_auth@.len();
    assert(c.active_hold_path().len() == n + 9);
    assert(c.active_pending_path().len() == n + 12);
    assert(c.active_reappeared_path().len() == n + 15);
}

/// The only account with an identity is found by it.
pub proof fn lemma_known(accounts: Seq<Profile>, identity: IdentityView, slot: u32)
    requires
        exists|i: int|
            0 <= i < accounts.len() && (#[trigger] accounts[i]).auth@.identity.same_account(identity),
        forall|i: int|
            0 <= i < accounts.len() && (#[trigger] accounts[i]).auth@.identity.same_account(identity)
                ==> accounts[i].slot == slot,
    ensures
        slot_with(accounts, identity) == Some(slot),
    decreases accounts.len(),
{
    if !accounts[0].auth@.identity.same_account(identity) {
        let rest = accounts.skip(1);
        let i = choose|i: int|
            0 <= i < accounts.len() && (#[trigger] accounts[i]).auth@.identity.same_account(identity);
        assert(rest[i - 1] == accounts[i]);
        assert forall|k: int|
            0 <= k < rest.len() && (#[trigger] rest[k]).auth@.identity.same_account(
                identity,
            ) implies rest[k].slot == slot by {
            assert(rest[k] == accounts[k + 1]);
        }
        lemma_known(rest, identity, slot);
    }
}

// ---------------------------------------------------------------- credentials moved aside

/// Whether the first replies about credentials that were moved aside are those that a sound disk
/// gives.
pub open spec fn claimed_replies(
    c: Config,
    slot: u32,
    target: AuthView,
    log: Seq<Reply>,
    at: nat,
    count: nat,
) -> bool {
    let a = at as int;
    &&& log.len() >= at + count
    &&& count >= 1 ==> (log[a] matches Reply::Auth(active) && active@ == target)
    &&& count >= 2 ==> (log[a + 1] matches Reply::Profiles(accounts) && slot_with(
        accounts@,
        target.identity,
    ) == Some(slot))
    &&& count >= 3 ==> (log[a + 2] matches Reply::Names(names) && highest(texts(names@)) < u32::MAX)
    &&& count >= 4 ==> log[a + 3] == Reply::Flag(true)
    &&& count >= 5 ==> (log[a + 4] matches Reply::Auth(stored) && stored@ == target)
    &&& count >= 6 ==> log[a + 5] == Reply::Done
    &&& count >= 7 ==> log[a + 6] == Reply::Flag(false)
}

/// What is asked for to save credentials that were moved aside, one thing after the other.
pub proof fn lemma_keep_claimed(c: Config, slot: u32, target: AuthView, log: Seq<Reply>, at: nat)
    ensures
        log.len() == at ==> keep_claimed_run(c, None, log, at) == Run::<()>::Ask(
            RequestView::ReadAuth(c.active_reappeared_path()),
        ),
        log.len() == at + 1 && claimed_replies(c, slot, target, log, at, 1) ==> keep_claimed_run(
            c,
            None,
            log,
            at,
        ) == Run::<()>::Ask(RequestView::Profiles),
        log.len() == at + 2 && claimed_replies(c, slot, target, log, at, 2) ==> keep_claimed_run(
            c,
            None,
            log,
            at,
        ) == Run::<()>::Ask(RequestView::Names(c.account_store@)),
        log.len() == at + 3 && claimed_replies(c, slot, target, log, at, 3) ==> keep_claimed_run(
            c,
            None,
            log,
            at,
        ) == Run::<()>::Ask(RequestView::Exists(c.profile_auth_path(slot))),
        log.len() == at + 4 && claimed_replies(c, slot, target, log, at, 4) ==> keep_claimed_run(
            c,
            None,
            log,
            at,
        ) == Run::<()>::Ask(RequestView::ReadAuth(c.profile_auth_path(slot))),
        log.len() == at + 5 && claimed_replies(c, slot, target, log, at, 5) ==> keep_claimed_run(
            c,
            None,
            log,
            at,
        ) == Run::<()>::Ask(RequestView::Remove(c.active_reappeared_path())),
        log.len() == at + 6 && claimed_replies(c, slot, target, log, at, 6) ==> keep_claimed_run(
            c,
            None,
            log,
            at,
        ) == Run::<()>::Ask(RequestView::Exists(c.active_auth@)),
        claimed_replies(c, slot, target, log, at, 7) ==> keep_claimed_run(c, None, log, at)
            == Run::Done((), at + 7),
{
    assert(target.same_credentials(target)) by {
        if let Some(tokens) = target.raw.get("tokens"@) {
            lemma_alike(tokens);
        }
    }
}

/// An account whose credentials are saved is found among those that the disk lists.
pub proof fn lemma_listed(c: Config, slot: u32, target: AuthView, disk: DiskView, accounts: Seq<Profile>)
    requires
        saved(c, slot, target, disk),
        disk.lists(c, accounts),
    ensures
        slot_with(accounts, target.identity) == Some(slot),
{
    law_same_account(target.identity, target.identity, target.identity);
    let i = choose|i: int| 0 <= i < accounts.len() && (#[trigger] accounts[i]).slot == slot;
    assert(accounts[i].auth@ == target);
    lemma_known(accounts, target.identity, slot);
}

/// The disk after so many replies about credentials that were moved aside.
pub open spec fn claimed_disk(c: Config, disk: DiskView, count: nat) -> DiskView {
    if count <= 5 {
        disk
    } else {
        disk.without(c.active_reappeared_path())
    }
}

/// What a disk replies to a procedure that saves credentials which were moved aside, and how it
/// looks then.
pub proof fn lemma_claimed_replies(
    c: Config,
    slot: u32,
    target: AuthView,
    procedure: spec_fn(Seq<Reply>) -> Run<()>,
    log: Seq<Reply>,
    disks: Seq<DiskView>,
    at: nat,
    count: nat,
)
    requires
        well_apart(c),
        count <= 7,
        at + count <= log.len(),
        played(c, procedure, log, disks, at),
        forall|i: int|
            at <= i < at + count ==> (keep_claimed_run(c, None, #[trigger] log.take(i), at) matches Run::Ask(
                request,
            ) ==> procedure(log.take(i)) == Run::<()>::Ask(request)),
        saved(c, slot, target, disks[at as int]),
        disks[at as int].has(c.active_reappeared_path()),
        disks[at as int].auths[c.active_reappeared_path()] == target,
        !disks[at as int].has(c.active_auth@),
    ensures
        claimed_replies(c, slot, target, log, at, count),
        disks[at as int + count] == claimed_disk(c, disks[at as int], count),
    decreases count,
{
    if count > 0 {
        let before = (count - 1) as nat;
        let i = at + before;
        lemma_claimed_replies(c, slot, target, procedure, log, disks, at, before);
        lemma_side_paths(c);
        let prefix = log.take(i as int);
        assert(claimed_replies(c, slot, target, prefix, at, before));
        lemma_keep_claimed(c, slot, target, prefix, at);
        assert(procedure(prefix) is Ask);
        if before == 1 {
            if let Reply::Profiles(accounts) = log[i as int] {
                lemma_listed(c, slot, target, disks[i as int], accounts@);
            }
        }
    }
}

// ---------------------------------------------------------------- laws

/// Where the part of a path that follows a directory begins.
pub open spec fn name_start(directory: Seq<char>) -> int {
    if directory.len() == 0 || directory.last() == '/' {
        directory.len() as int
    } else {
        directory.len() as int + 1
    }
}

/// The part of a path that follows a directory begins with what a name begins with.
pub proof fn lemma_name_start(directory: Seq<char>, name: Seq<char>)
    requires
        name.len() > 0,
        name[0] != '/',
    ensures
        joined(directory, name).len() > name_start(directory),
        joined(directory, name)[name_start(directory)] == name[0],
{
    reveal_strlit("/");
    assert(!rooted(name)) by {
        if rooted(name) {
            assert(name[0] == "/"@[0]);
        }
    }
}

/// How the names of a transaction's files begin.
pub proof fn lemma_starts(c: Config, places: Places, environment: Environment)
    requires
        configured(c, places, environment),
    ensures
        c.active_auth@[name_start(c.account_store@)] == 'a',
        c.active_hold_path()[name_start(c.account_store@)] == 'a',
        c.active_pending_path()[name_start(c.account_store@)] == 'a',
        c.active_reappeared_path()[name_start(c.account_store@)] == 'a',
        c.transaction_path()[name_start(c.account_store@)] == 't',
        forall|slot: u32|
            (#[trigger] c.profile_auth_path(slot))[name_start(c.account_store@)] == 'p',
{
    reveal_strlit("auth.json");
    reveal_strlit("transaction.json");
    reveal_strlit("profile-");
    let store = c.account_store@;
    let start = name_start(store);
    lemma_name_start(store, "auth.json"@);
    lemma_name_start(store, "transaction.json"@);
    assert(c.active_auth@[start] == 'a');
    assert(c.active_hold_path()[start] == 'a');
    assert(c.active_pending_path()[start] == 'a');
    assert(c.active_reappeared_path()[start] == 'a');
    assert(c.transaction_path()[start] == 't');
    assert forall|slot: u32| (#[trigger] c.profile_auth_path(slot))[start] == 'p' by {
        let name = "profile-"@ + decimal_text(slot as nat);
        assert(name[0] == 'p');
        lemma_name_start(store, name);
        let directory = c.profile_dir_path(slot);
        assert(directory[start] == 'p');
        lemma_name_start(directory, "auth.json"@);
        reveal_strlit("/");
        assert(!rooted("auth.json"@)) by {
            if rooted("auth.json"@) {
                assert("auth.json"@[0] == "/"@[0]);
            }
        }
        assert(directory.is_prefix_of(c.profile_auth_path(slot)));
    }
}

/// Every configuration that the environment gives keeps the files of a transaction apart.
pub proof fn law_transactions_keep_files_apart(c: Config, places: Places, environment: Environment)
    requires
        configured(c, places, environment),
    ensures
        well_apart(c),
{
    lemma_starts(c, places, environment);
}

}
