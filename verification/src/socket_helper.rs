//! Handing the socket of a shared app server to its users. Runs with full privileges.
use crate::effects::{
    absent, ask, clock, clock_run, contents, contents_run, done, done_run, mismatch, mismatched,
    nothing_at, reply_run, told, told_lines, unlink, unlink_run, FileId, Halt, ProbeOutcome, Reply,
    Request, RequestView, Run,
};
use crate::error::{Error, ErrorView};
use crate::paths::{join, joined};
use crate::text::{
    before, decimal, decimal_text, same, split, split_on, text_before, texts, trim, trimmed,
};
use vstd::prelude::*;

verus! {

/// The directory of the socket.
pub const SOCKET_DIR: &'static str = "/var/lib/codex-auth";

/// The name of the socket.
pub const SOCKET_NAME: &'static str = "app-server.sock";

/// The group whose members may use the socket.
pub const OPENCLAW_GROUP: &'static str = "openclaw";

/// Where processes are listed.
pub const PROC_ROOT: &'static str = "/proc";

/// How long a fresh listener may take to be ready, in nanoseconds.
pub const READY_TIME: u64 = 10_000_000_000;

/// Whom the directory is given back to.
#[derive(Clone, Copy, PartialEq, Eq, Structural, Debug)]
pub struct Owner {
    pub user: u32,
    pub group: u32,
}

// ---------------------------------------------------------------- the directory

/// A number that may be missing, or not fit.
pub open spec fn number_run(log: Seq<Reply>, at: nat, request: RequestView, absent: Seq<char>) -> Run<
    u32,
> {
    reply_run(log, at, request).bind(
        |reply: Reply, n: nat|
            match reply {
                Reply::Number(number) => if number <= u32::MAX {
                    Run::Done(number as u32, n)
                } else {
                    Run::Fail(mismatch(), n)
                },
                Reply::Missing => Run::Fail(ErrorView::Message(absent), n),
                Reply::Failed(error) => Run::Fail(error@, n),
                _ => Run::Fail(mismatch(), n),
            },
    )
}

/// The user of this name, and the group of the socket's users.
pub open spec fn owner_run(log: Seq<Reply>, at: nat, user: Seq<char>) -> Run<Owner> {
    number_run(log, at, RequestView::UserId(user), "missing account: "@ + user).bind(
        |user: u32, n: nat|
            number_run(
                log,
                n,
                RequestView::GroupId(OPENCLAW_GROUP@),
                "missing group: "@ + OPENCLAW_GROUP@,
            ).bind(|group: u32, m: nat| Run::Done(Owner { user, group }, m)),
    )
}

fn number(request: Request, absent: String, log: &Vec<Reply>, at: &mut usize) -> (r: Result<
    u32,
    Halt,
>)
    requires
        *old(at) <= log.len(),
    ensures
        *final(at) <= log.len(),
        told(r, *final(at), number_run(log@, *old(at) as nat, request@, absent@)),
{
    match ask(log, at, request)? {
        Reply::Number(number) => if *number <= 0xffff_ffff {
            Ok(*number as u32)
        } else {
            Err(mismatched())
        },
        Reply::Missing => Err(Halt::Fail(Error::Message(absent))),
        Reply::Failed(error) => Err(Halt::Fail(error.clone())),
        _ => Err(mismatched()),
    }
}

fn owner(user: &str, log: &Vec<Reply>, at: &mut usize) -> (r: Result<Owner, Halt>)
    requires
        *old(at) <= log.len(),
    ensures
        *final(at) <= log.len(),
        told(r, *final(at), owner_run(log@, *old(at) as nat, user@)),
{
    let absent = "missing account: ".to_owned().concat(user);
    let user: u32 = number(Request::UserId(user.to_owned()), absent, log, at)?;
    let absent = "missing group: ".to_owned().concat(OPENCLAW_GROUP);
    let group: u32 = number(Request::GroupId(OPENCLAW_GROUP.to_owned()), absent, log, at)?;
    Ok(Owner { user, group })
}

/// Whether a directory may be handled: it belongs to the user or to root, and to the group.
pub open spec fn rightful(user: u32, group: u32, owner: Owner) -> bool {
    (user == 0 || user == owner.user) && group == owner.group
}

/// Opens the directory and checks whom it belongs to.
pub open spec fn open_run(log: Seq<Reply>, at: nat, directory: Seq<char>, owner: Owner) -> Run<()> {
    done_run(log, at, RequestView::OpenDirectory(directory)).next(
        |n: nat|
            reply_run(log, n, RequestView::Owners(directory)).bind(
                |reply: Reply, m: nat|
                    match reply {
                        Reply::Owners { user, group } => if rightful(user, group, owner) {
                            Run::Done((), m)
                        } else {
                            Run::Fail(
                                ErrorView::Message(
                                    directory + " must be owned by the login user:"@
                                        + OPENCLAW_GROUP@,
                                ),
                                m,
                            )
                        },
                        Reply::Missing => Run::Fail(absent(directory), m),
                        Reply::Failed(error) => Run::Fail(error@, m),
                        _ => Run::Fail(mismatch(), m),
                    },
            ),
    )
}

fn open_directory(directory: &str, owner: Owner, log: &Vec<Reply>, at: &mut usize) -> (r: Result<
    (),
    Halt,
>)
    requires
        *old(at) <= log.len(),
    ensures
        *final(at) <= log.len(),
        told(r, *final(at), open_run(log@, *old(at) as nat, directory@, owner)),
{
    done(log, at, Request::OpenDirectory(directory.to_owned()))?;
    match ask(log, at, Request::Owners(directory.to_owned()))? {
        Reply::Owners { user, group } => if (*user == 0 || *user == owner.user) && *group
            == owner.group {
            Ok(())
        } else {
            Err(
                Halt::Fail(
                    Error::Message(
                        directory.to_owned().concat(" must be owned by the login user:").concat(
                            OPENCLAW_GROUP,
                        ),
                    ),
                ),
            )
        },
        Reply::Missing => Err(nothing_at(directory)),
        Reply::Failed(error) => Err(Halt::Fail(error.clone())),
        _ => Err(mismatched()),
    }
}

/// Sets the permissions and the owner of the open directory.
pub open spec fn give_run(log: Seq<Reply>, at: nat, mode: u32, user: u32, group: u32) -> Run<()> {
    done_run(log, at, RequestView::DirectoryMode(mode)).next(
        |n: nat| done_run(log, n, RequestView::DirectoryOwner { user, group }),
    )
}

/// Takes the directory away from its user, so that nobody else changes it.
pub open spec fn take_run(log: Seq<Reply>, at: nat, owner: Owner) -> Run<()> {
    give_run(log, at, 0o2500, 0, owner.group)
}

/// Gives the directory back to its user.
pub open spec fn restore_run(log: Seq<Reply>, at: nat, owner: Owner) -> Run<()> {
    give_run(log, at, 0o700, owner.user, owner.group)
}

fn give(mode: u32, user: u32, group: u32, log: &Vec<Reply>, at: &mut usize) -> (r: Result<(), Halt>)
    requires
        *old(at) <= log.len(),
    ensures
        *final(at) <= log.len(),
        told(r, *final(at), give_run(log@, *old(at) as nat, mode, user, group)),
{
    done(log, at, Request::DirectoryMode(mode))?;
    done(log, at, Request::DirectoryOwner { user, group })
}

fn take_directory(owner: Owner, log: &Vec<Reply>, at: &mut usize) -> (r: Result<(), Halt>)
    requires
        *old(at) <= log.len(),
    ensures
        *final(at) <= log.len(),
        told(r, *final(at), take_run(log@, *old(at) as nat, owner)),
{
    give(0o2500, 0, owner.group, log, at)
}

fn restore_directory(owner: Owner, log: &Vec<Reply>, at: &mut usize) -> (r: Result<(), Halt>)
    requires
        *old(at) <= log.len(),
    ensures
        *final(at) <= log.len(),
        told(r, *final(at), restore_run(log@, *old(at) as nat, owner)),
{
    give(0o700, owner.user, owner.group, log, at)
}

/// Which socket is at a path, if one is.
pub open spec fn socket_run(log: Seq<Reply>, at: nat, path: Seq<char>) -> Run<Option<FileId>> {
    reply_run(log, at, RequestView::SocketEntry(path)).bind(
        |reply: Reply, n: nat|
            match reply {
                Reply::Id(id) => Run::Done(Some(id), n),
                Reply::NotSocket => Run::Fail(
                    ErrorView::Message(path + " exists but is not a Unix socket"@),
                    n,
                ),
                Reply::Missing => Run::Done(None, n),
                Reply::Failed(error) => Run::Fail(error@, n),
                _ => Run::Fail(mismatch(), n),
            },
    )
}

fn socket_metadata(path: &str, log: &Vec<Reply>, at: &mut usize) -> (r: Result<
    Option<FileId>,
    Halt,
>)
    requires
        *old(at) <= log.len(),
    ensures
        *final(at) <= log.len(),
        told(r, *final(at), socket_run(log@, *old(at) as nat, path@)),
{
    match ask(log, at, Request::SocketEntry(path.to_owned()))? {
        Reply::Id(id) => Ok(Some(*id)),
        Reply::NotSocket => Err(
            Halt::Fail(
                Error::Message(path.to_owned().concat(" exists but is not a Unix socket")),
            ),
        ),
        Reply::Missing => Ok(None),
        Reply::Failed(error) => Err(Halt::Fail(error.clone())),
        _ => Err(mismatched()),
    }
}

// ---------------------------------------------------------------- before the app server starts

/// Removes a socket that nobody listens on.
pub open spec fn clear_run(log: Seq<Reply>, at: nat, path: Seq<char>) -> Run<()> {
    socket_run(log, at, path).bind(
        |found: Option<FileId>, n: nat|
            if found is None {
                Run::Done((), n)
            } else {
                reply_run(log, n, RequestView::Probe(path)).bind(
                    |reply: Reply, m: nat|
                        match reply {
                            Reply::Probe(ProbeOutcome::Connected) => Run::Fail(
                                ErrorView::Message("another app server is already listening"@),
                                m,
                            ),
                            Reply::Probe(_) => unlink_run(log, m, path),
                            Reply::Failed(error) => Run::Fail(error@, m),
                            _ => Run::Fail(mismatch(), m),
                        },
                )
            },
    )
}

/// Goes on whatever came of the work so far; its failure goes before a failure of the rest.
pub open spec fn finally(work: Run<()>, rest: spec_fn(nat) -> Run<()>) -> Run<()> {
    match work {
        Run::Ask(request) => Run::Ask(request),
        Run::Done(_, n) => rest(n),
        Run::Fail(error, n) => match rest(n) {
            Run::Ask(request) => Run::Ask(request),
            Run::Done(_, m) => Run::Fail(error, m),
            Run::Fail(_, m) => Run::Fail(error, m),
        },
    }
}

/// Prepares a directory for an app server that is about to start.
pub open spec fn prepare_run(log: Seq<Reply>, at: nat, directory: Seq<char>, user: Seq<char>) -> Run<
    (),
> {
    owner_run(log, at, user).bind(
        |owner: Owner, n: nat|
            open_run(log, n, directory, owner).next(
                |m: nat|
                    take_run(log, m, owner).next(
                        |k: nat|
                            finally(
                                clear_run(log, k, joined(directory, SOCKET_NAME@)),
                                |p: nat| restore_run(log, p, owner),
                            ),
                    ),
            ),
    )
}

fn clear(path: &str, log: &Vec<Reply>, at: &mut usize) -> (r: Result<(), Halt>)
    requires
        *old(at) <= log.len(),
    ensures
        *final(at) <= log.len(),
        told(r, *final(at), clear_run(log@, *old(at) as nat, path@)),
{
    if socket_metadata(path, log, at)?.is_none() {
        return Ok(());
    }
    match ask(log, at, Request::Probe(path.to_owned()))? {
        Reply::Probe(outcome) => if *outcome == ProbeOutcome::Connected {
            Err(Halt::Fail(Error::message("another app server is already listening")))
        } else {
            unlink(log, at, path)
        },
        Reply::Failed(error) => Err(Halt::Fail(error.clone())),
        _ => Err(mismatched()),
    }
}

/// Gives the directory back, whatever came of the work on it.
fn give_back(work: Result<(), Halt>, owner: Owner, log: &Vec<Reply>, at: &mut usize) -> (r: Result<
    (),
    Halt,
>)
    requires
        *old(at) <= log.len(),
    ensures
        *final(at) <= log.len(),
        match work {
            Ok(_) => told(r, *final(at), restore_run(log@, *old(at) as nat, owner)),
            Err(Halt::Ask(request)) => r matches Err(Halt::Ask(q)) && q == request,
            Err(Halt::Fail(error)) => told(
                r,
                *final(at),
                finally(
                    Run::Fail(error@, *old(at) as nat),
                    |p: nat| restore_run(log@, p, owner),
                ),
            ),
        },
{
    match work {
        Ok(_) => restore_directory(owner, log, at),
        Err(Halt::Ask(request)) => Err(Halt::Ask(request)),
        Err(Halt::Fail(error)) => match restore_directory(owner, log, at) {
            Err(Halt::Ask(request)) => Err(Halt::Ask(request)),
            _ => Err(Halt::Fail(error)),
        },
    }
}

/// Prepares a directory for an app server that is about to start: a socket that nobody listens
/// on is removed, while the directory belongs to root.
pub fn prepare_at(directory: &str, user: &str, log: &Vec<Reply>, at: &mut usize) -> (r: Result<
    (),
    Halt,
>)
    requires
        *old(at) <= log.len(),
    ensures
        *final(at) <= log.len(),
        told(r, *final(at), prepare_run(log@, *old(at) as nat, directory@, user@)),
{
    let owner = owner(user, log, at)?;
    open_directory(directory, owner, log, at)?;
    let path = join(directory, SOCKET_NAME);
    take_directory(owner, log, at)?;
    let work = clear(&path, log, at);
    give_back(work, owner, log, at)
}

/// Prepares the directory of the socket.
pub fn prepare(user: &str, log: &Vec<Reply>, at: &mut usize) -> (r: Result<(), Halt>)
    requires
        *old(at) <= log.len(),
    ensures
        *final(at) <= log.len(),
        told(r, *final(at), prepare_run(log@, *old(at) as nat, SOCKET_DIR@, user@)),
{
    prepare_at(SOCKET_DIR, user, log, at)
}

/// Gives the directory of the socket back to its user.
pub open spec fn recover_run(log: Seq<Reply>, at: nat, user: Seq<char>) -> Run<()> {
    owner_run(log, at, user).bind(
        |owner: Owner, n: nat|
            open_run(log, n, SOCKET_DIR@, owner).next(|m: nat| restore_run(log, m, owner)),
    )
}

/// Gives the directory of the socket back to its user.
pub fn recover_owner(user: &str, log: &Vec<Reply>, at: &mut usize) -> (r: Result<(), Halt>)
    requires
        *old(at) <= log.len(),
    ensures
        *final(at) <= log.len(),
        told(r, *final(at), recover_run(log@, *old(at) as nat, user@)),
{
    let owner = owner(user, log, at)?;
    open_directory(SOCKET_DIR, owner, log, at)?;
    restore_directory(owner, log, at)
}

// ---------------------------------------------------------------- control groups

/// Texts in order, with one more put behind those that stand before it.
pub open spec fn put_in(items: Seq<Seq<char>>, item: Seq<char>) -> Seq<Seq<char>>
    decreases items.len(),
{
    if items.len() > 0 && text_before(item, items.last()) {
        put_in(items.drop_last(), item).push(items.last())
    } else {
        items.push(item)
    }
}

/// The control groups that lines name, in order.
pub open spec fn groups_in(lines: Seq<Seq<char>>) -> Seq<Seq<char>>
    decreases lines.len(),
{
    if lines.len() == 0 {
        Seq::empty()
    } else {
        let before = groups_in(lines.drop_last());
        let group = trimmed(lines.last());
        if group.len() == 0 {
            before
        } else {
            put_in(before, group)
        }
    }
}

/// The control groups that a file's contents name, in order.
pub open spec fn groups_of(contents: Seq<char>) -> Seq<Seq<char>> {
    groups_in(split_on(contents, '\n'))
}

fn insert_ordered(items: &mut Vec<String>, item: String)
    ensures
        texts(final(items)@) == put_in(texts(old(items)@), item@),
{
    let ghost all = texts(items@);
    let mut i: usize = items.len();
    proof {
        assert(all.take(i as int) =~= all);
        assert(put_in(all.take(i as int), item@) + all.skip(i as int) =~= put_in(all, item@));
    }
    while i > 0 && before(&item, &items[i - 1])
        invariant
            i <= items.len(),
            items@ == old(items)@,
            all == texts(items@),
            put_in(all, item@) == put_in(all.take(i as int), item@) + all.skip(i as int),
        decreases i,
    {
        proof {
            let part = all.take(i as int);
            assert(part.last() == items@[i - 1]@);
            assert(part.drop_last() =~= all.take(i - 1));
            assert(put_in(part, item@) == put_in(all.take(i - 1), item@).push(part.last()));
            assert(put_in(part, item@) + all.skip(i as int) =~= put_in(all.take(i - 1), item@)
                + all.skip(i - 1));
        }
        i -= 1;
    }
    let ghost was = items@;
    let ghost added = item@;
    proof {
        let part = all.take(i as int);
        if i > 0 {
            assert(part.last() == items@[i - 1]@);
        }
        assert(put_in(part, item@) == part.push(item@));
    }
    items.insert(i, item);
    proof {
        assert(texts(items@) =~= texts(was).insert(i as int, added));
        assert(texts(items@) =~= put_in(all, added));
    }
}

/// The control groups that a file's contents name, in order.
pub fn cgroups(contents: &str) -> (r: Vec<String>)
    ensures
        texts(r@) == groups_of(contents@),
{
    let lines = split(contents, '\n');
    let ghost all = split_on(contents@, '\n');
    let mut groups: Vec<String> = Vec::new();
    let mut i: usize = 0;
    proof {
        assert(all.take(0) =~= Seq::empty());
        assert(texts(groups@) =~= Seq::empty());
    }
    while i < lines.len()
        invariant
            i <= lines.len(),
            all == texts(lines@),
            texts(groups@) == groups_in(all.take(i as int)),
        decreases lines.len() - i,
    {
        proof {
            assert(all.take(i + 1).drop_last() =~= all.take(i as int));
            assert(all.take(i + 1).last() == lines@[i as int]@);
        }
        let group = trim(&lines[i]);
        if !group.as_str().is_empty() {
            insert_ordered(&mut groups, group);
        }
        i += 1;
    }
    proof {
        assert(all.take(i as int) =~= all);
    }
    groups
}

/// The file that names a process's control groups.
pub open spec fn cgroup_path(root: Seq<char>, process: u32) -> Seq<char> {
    joined(joined(root, decimal_text(process as nat)), "cgroup"@)
}

/// The control groups of a process.
pub open spec fn cgroups_run(log: Seq<Reply>, at: nat, root: Seq<char>, process: u32) -> Run<
    Seq<Seq<char>>,
> {
    contents_run(log, at, cgroup_path(root, process)).bind(
        |contents: Seq<char>, n: nat| Run::Done(groups_of(contents), n),
    )
}

/// The control groups of a process.
pub fn process_cgroups(root: &str, process: u32, log: &Vec<Reply>, at: &mut usize) -> (r: Result<
    Vec<String>,
    Halt,
>)
    requires
        *old(at) <= log.len(),
    ensures
        *final(at) <= log.len(),
        told_lines(r, *final(at), cgroups_run(log@, *old(at) as nat, root@, process)),
{
    let path = join(&join(root, &decimal(process as u64)), "cgroup");
    let text = contents(log, at, &path)?;
    Ok(cgroups(&text))
}

/// Whether a listener belongs to a service: it is its main process, or both are in the same
/// control groups.
pub open spec fn belongs_run(
    log: Seq<Reply>,
    at: nat,
    root: Seq<char>,
    peer: u32,
    expected: u32,
) -> Run<bool> {
    if peer == expected {
        Run::Done(true, at)
    } else {
        cgroups_run(log, at, root, peer).attempt().bind(
            |first: Result<Seq<Seq<char>>, ErrorView>, n: nat|
                cgroups_run(log, n, root, expected).attempt().bind(
                    |second: Result<Seq<Seq<char>>, ErrorView>, m: nat|
                        Run::Done(
                            match (first, second) {
                                (Ok(a), Ok(b)) => a.len() > 0 && a == b,
                                _ => false,
                            },
                            m,
                        ),
                ),
        )
    }
}

fn same_lists(a: &Vec<String>, b: &Vec<String>) -> (r: bool)
    ensures
        r == (texts(a@) == texts(b@)),
{
    if a.len() != b.len() {
        assert(texts(a@).len() != texts(b@).len());
        return false;
    }
    let mut i: usize = 0;
    while i < a.len()
        invariant
            i <= a.len(),
            a.len() == b.len(),
            forall|k: int| 0 <= k < i ==> a@[k]@ == b@[k]@,
        decreases a.len() - i,
    {
        if !same(&a[i], &b[i]) {
            assert(texts(a@)[i as int] != texts(b@)[i as int]);
            return false;
        }
        i += 1;
    }
    assert(texts(a@) =~= texts(b@));
    true
}

/// Whether a listener belongs to a service: it is its main process, or both are in the same
/// control groups.
pub fn listener_belongs_to_service(
    root: &str,
    peer: u32,
    expected: u32,
    log: &Vec<Reply>,
    at: &mut usize,
) -> (r: Result<bool, Halt>)
    requires
        *old(at) <= log.len(),
    ensures
        *final(at) <= log.len(),
        told(r, *final(at), belongs_run(log@, *old(at) as nat, root@, peer, expected)),
{
    if peer == expected {
        return Ok(true);
    }
    let first = match process_cgroups(root, peer, log, at) {
        Ok(groups) => Some(groups),
        Err(Halt::Fail(_)) => None,
        Err(Halt::Ask(request)) => {
            return Err(Halt::Ask(request));
        },
    };
    let second = match process_cgroups(root, expected, log, at) {
        Ok(groups) => Some(groups),
        Err(Halt::Fail(_)) => None,
        Err(Halt::Ask(request)) => {
            return Err(Halt::Ask(request));
        },
    };
    match (first, second) {
        (Some(a), Some(b)) => Ok(a.len() > 0 && same_lists(&a, &b)),
        _ => Ok(false),
    }
}

// ---------------------------------------------------------------- after the app server started

/// Who is on the other side of the socket: a process of the user that belongs to the service.
pub open spec fn peer_run(log: Seq<Reply>, at: nat, owner: Owner, expected: u32) -> Run<()> {
    reply_run(log, at, RequestView::PeerCredentials).bind(
        |reply: Reply, n: nat|
            match reply {
                Reply::Peer { process, user } => (if user != owner.user {
                    Run::Done(false, n)
                } else {
                    belongs_run(log, n, PROC_ROOT@, process, expected)
                }).bind(
                    |belongs: bool, m: nat|
                        if belongs {
                            Run::Done((), m)
                        } else {
                            Run::Fail(
                                ErrorView::Message("socket belongs to an unexpected process"@),
                                m,
                            )
                        },
                ),
                Reply::Failed(error) => Run::Fail(error@, n),
                _ => Run::Fail(mismatch(), n),
            },
    )
}

/// Waits until the app server listens on its socket: which socket that is.
pub open spec fn ready_run(
    log: Seq<Reply>,
    at: nat,
    path: Seq<char>,
    owner: Owner,
    expected: u32,
    deadline: int,
) -> Run<FileId>
    decreases log.len() - at,
{
    clock_run(log, at).bind(
        |now: u64, n: nat|
            if now >= deadline {
                Run::Fail(
                    ErrorView::Message("fresh app-server listener did not become ready"@),
                    n,
                )
            } else {
                socket_run(log, n, path).bind(
                    |found: Option<FileId>, m: nat|
                        match found {
                            None => done_run(log, m, RequestView::Sleep(50_000_000)).next(
                                |k: nat|
                                    if at < k <= log.len() {
                                        ready_run(log, k, path, owner, expected, deadline)
                                    } else {
                                        Run::Fail(mismatch(), k)
                                    },
                            ),
                            Some(id) => reply_run(log, m, RequestView::Probe(path)).bind(
                                |reply: Reply, k: nat|
                                    match reply {
                                        Reply::Probe(ProbeOutcome::Connected) => peer_run(
                                            log,
                                            k,
                                            owner,
                                            expected,
                                        ).next(
                                            |p: nat|
                                                done_run(
                                                    log,
                                                    p,
                                                    RequestView::VerifyWebSocket,
                                                ).next(|q: nat| Run::Done(id, q)),
                                        ),
                                        Reply::Probe(_) | Reply::Failed(_) => done_run(
                                            log,
                                            k,
                                            RequestView::Sleep(50_000_000),
                                        ).next(
                                            |p: nat|
                                                if at < p <= log.len() {
                                                    ready_run(
                                                        log,
                                                        p,
                                                        path,
                                                        owner,
                                                        expected,
                                                        deadline,
                                                    )
                                                } else {
                                                    Run::Fail(mismatch(), p)
                                                },
                                        ),
                                        _ => Run::Fail(mismatch(), k),
                                    },
                            ),
                        },
                )
            },
    )
}

/// Opens the socket to the group, provided that it is still the same.
pub open spec fn expose_run(log: Seq<Reply>, at: nat, path: Seq<char>, id: FileId) -> Run<()> {
    socket_run(log, at, path).bind(
        |found: Option<FileId>, n: nat|
            match found {
                None => Run::Fail(
                    ErrorView::Message("app-server socket vanished while publishing"@),
                    n,
                ),
                Some(now) => if now != id {
                    Run::Fail(
                        ErrorView::Message(
                            "app-server socket changed while publishing permissions"@,
                        ),
                        n,
                    )
                } else {
                    done_run(log, n, RequestView::SetMode { path, mode: 0o600 })
                },
            },
    )
}

/// Publishes the socket of an app server that has just started.
pub open spec fn publish_run(log: Seq<Reply>, at: nat, user: Seq<char>, expected: u32) -> Run<()> {
    owner_run(log, at, user).bind(
        |owner: Owner, n: nat|
            open_run(log, n, SOCKET_DIR@, owner).next(
                |m: nat|
                    clock_run(log, m).bind(
                        |now: u64, k: nat|
                            {
                                let path = joined(SOCKET_DIR@, SOCKET_NAME@);
                                ready_run(
                                    log,
                                    k,
                                    path,
                                    owner,
                                    expected,
                                    now + READY_TIME,
                                ).bind(
                                    |id: FileId, p: nat|
                                        take_run(log, p, owner).next(
                                            |q: nat|
                                                finally(
                                                    finally(
                                                        expose_run(log, q, path, id),
                                                        |z: nat|
                                                            done_run(
                                                                log,
                                                                z,
                                                                RequestView::CloseWebSocket,
                                                            ).rescue(
                                                                |_e: ErrorView, y: nat|
                                                                    Run::Done((), y),
                                                            ),
                                                    ),
                                                    |z: nat| restore_run(log, z, owner),
                                                ),
                                        ),
                                )
                            },
                    ),
            ),
    )
}

fn check_peer(owner: Owner, expected: u32, log: &Vec<Reply>, at: &mut usize) -> (r: Result<(), Halt>)
    requires
        *old(at) <= log.len(),
    ensures
        *final(at) <= log.len(),
        told(r, *final(at), peer_run(log@, *old(at) as nat, owner, expected)),
{
    match ask(log, at, Request::PeerCredentials)? {
        Reply::Peer { process, user } => {
            let belongs = if *user != owner.user {
                false
            } else {
                listener_belongs_to_service(PROC_ROOT, *process, expected, log, at)?
            };
            if belongs {
                Ok(())
            } else {
                Err(Halt::Fail(Error::message("socket belongs to an unexpected process")))
            }
        },
        Reply::Failed(error) => Err(Halt::Fail(error.clone())),
        _ => Err(mismatched()),
    }
}

fn await_ready(
    path: &str,
    owner: Owner,
    expected: u32,
    begun: u64,
    log: &Vec<Reply>,
    at: &mut usize,
) -> (r: Result<FileId, Halt>)
    requires
        *old(at) <= log.len(),
    ensures
        *final(at) <= log.len(),
        told(
            r,
            *final(at),
            ready_run(log@, *old(at) as nat, path@, owner, expected, begun + READY_TIME),
        ),
{
    loop
        invariant
            *at <= log.len(),
            ready_run(log@, *old(at) as nat, path@, owner, expected, begun + READY_TIME)
                == ready_run(log@, *at as nat, path@, owner, expected, begun + READY_TIME),
        decreases log.len() - *at,
    {
        let now: u64 = clock(log, at)?;
        if now >= begun && now - begun >= READY_TIME {
            return Err(
                Halt::Fail(Error::message("fresh app-server listener did not become ready")),
            );
        }
        match socket_metadata(path, log, at)? {
            None => {
                done(log, at, Request::Sleep(50_000_000))?;
            },
            Some(id) => {
                let connected = match ask(log, at, Request::Probe(path.to_owned()))? {
                    Reply::Probe(outcome) => *outcome == ProbeOutcome::Connected,
                    Reply::Failed(_) => false,
                    _ => {
                        return Err(mismatched());
                    },
                };
                if connected {
                    check_peer(owner, expected, log, at)?;
                    done(log, at, Request::VerifyWebSocket)?;
                    return Ok(id);
                }
                done(log, at, Request::Sleep(50_000_000))?;
            },
        }
    }
}

fn expose(path: &str, id: FileId, log: &Vec<Reply>, at: &mut usize) -> (r: Result<(), Halt>)
    requires
        *old(at) <= log.len(),
    ensures
        *final(at) <= log.len(),
        told(r, *final(at), expose_run(log@, *old(at) as nat, path@, id)),
{
    match socket_metadata(path, log, at)? {
        None => Err(Halt::Fail(Error::message("app-server socket vanished while publishing"))),
        Some(now) => if now != id {
            Err(
                Halt::Fail(
                    Error::message("app-server socket changed while publishing permissions"),
                ),
            )
        } else {
            done(log, at, Request::SetMode { path: path.to_owned(), mode: 0o600 })
        },
    }
}

/// Publishes the socket of an app server that has just started: it has to listen, and it is
/// opened while the directory belongs to root, provided that it is still the same socket.
pub fn publish(user: &str, expected: u32, log: &Vec<Reply>, at: &mut usize) -> (r: Result<
    (),
    Halt,
>)
    requires
        *old(at) <= log.len(),
    ensures
        *final(at) <= log.len(),
        told(r, *final(at), publish_run(log@, *old(at) as nat, user@, expected)),
{
    let owner = owner(user, log, at)?;
    open_directory(SOCKET_DIR, owner, log, at)?;
    let path = join(SOCKET_DIR, SOCKET_NAME);
    let begun: u64 = clock(log, at)?;
    let id = await_ready(&path, owner, expected, begun, log, at)?;
    take_directory(owner, log, at)?;
    let work = expose(&path, id, log, at);
    let work = match work {
        Err(Halt::Ask(request)) => {
            return Err(Halt::Ask(request));
        },
        work => work,
    };
    if let Err(Halt::Ask(request)) = done(log, at, Request::CloseWebSocket) {
        return Err(Halt::Ask(request));
    }
    give_back(work, owner, log, at)
}

/// Requires full privileges.
pub fn require_root(user: u32) -> (r: Result<(), Error>)
    ensures
        match r {
            Ok(_) => user == 0,
            Err(error) => user != 0 && error@ == ErrorView::Message(
                "codex-shared-socket must run as root"@,
            ),
        },
{
    if user == 0 {
        Ok(())
    } else {
        Err(Error::message("codex-shared-socket must run as root"))
    }
}

// ---------------------------------------------------------------- laws

/// Once the directory was taken, it is given back, whether or not the work on it succeeds. What
/// follows the work asks first that the directory be closed to others and, once that is done, that
/// it be given to its owner. It comes to a good end where the work did and both were done, and only
/// there; where the work failed and both were done, its failure is the end.
pub proof fn law_directory_is_given_back(log: Seq<Reply>, work: Run<()>, owner: Owner, n: nat)
    requires
        work == Run::Done((), n) || (work matches Run::Fail(_, m) && m == n),
        n <= log.len(),
    ensures
        ({
            let whole = finally(work, |p: nat| restore_run(log, p, owner));
            let mode = log.len() > n && log[n as int] == Reply::Done;
            &&& whole matches Run::Ask(request) ==> {
                ||| log.len() == n && request == RequestView::DirectoryMode(0o700)
                ||| log.len() == n + 1 && mode && request == (RequestView::DirectoryOwner {
                    user: owner.user,
                    group: owner.group,
                })
            }
            &&& log.len() == n ==> whole is Ask
            &&& log.len() == n + 1 && mode ==> whole is Ask
            &&& whole matches Run::Done(_, m) ==> {
                &&& work is Done
                &&& m == n + 2 <= log.len()
                &&& mode && log[n as int + 1] == Reply::Done
            }
            &&& log.len() >= n + 2 && mode && log[n as int + 1] == Reply::Done ==> whole
                == match work {
                Run::Fail(error, _) => Run::Fail(error, n + 2),
                _ => Run::Done((), n + 2),
            }
        }),
{
}

}
