//! Files that only their owner can read, replaced in one step.
use crate::effects::{
    absent, ask, done, done_run, flag, flag_run, mismatch, mismatched, nothing_at, reply_run, told,
    FileKind, Halt, Reply, Request, RequestView, Run,
};
use crate::error::{Error, ErrorView};
use crate::paths::{parts, parts_of};
use vstd::prelude::*;

verus! {

/// What the name of a temporary file begins with.
pub const TEMPORARY_PREFIX: &'static str = ".cxa-atomic-";

/// The directory that holds an entry: `.` where the path names none.
pub open spec fn holder(path: Seq<char>) -> Seq<char> {
    match parts_of(path).parent() {
        Some(parent) => if parent.text().len() == 0 {
            "."@
        } else {
            parent.text()
        },
        None => "."@,
    }
}

fn holder_of(path: &str) -> (r: String)
    ensures
        r@ == holder(path@),
{
    match parts(path).parent() {
        Some(parent) => {
            let text = parent.text();
            if text.as_str().is_empty() {
                ".".to_owned()
            } else {
                text
            }
        },
        None => ".".to_owned(),
    }
}

/// Makes the change of an entry durable.
pub open spec fn sync_run(log: Seq<Reply>, at: nat, path: Seq<char>) -> Run<()> {
    done_run(log, at, RequestView::SyncDir(holder(path)))
}

/// Makes the change of an entry durable.
pub fn sync_parent(path: &str, log: &Vec<Reply>, at: &mut usize) -> (r: Result<(), Halt>)
    requires
        *old(at) <= log.len(),
    ensures
        *final(at) <= log.len(),
        told(r, *final(at), sync_run(log@, *old(at) as nat, path@)),
{
    done(log, at, Request::SyncDir(holder_of(path)))
}

/// What is at a path.
pub open spec fn kind_run(log: Seq<Reply>, at: nat, path: Seq<char>) -> Run<FileKind> {
    reply_run(log, at, RequestView::Kind(path)).bind(
        |reply: Reply, n: nat|
            match reply {
                Reply::Kind(kind) => Run::Done(kind, n),
                Reply::Failed(error) => Run::Fail(error@, n),
                _ => Run::Fail(mismatch(), n),
            },
    )
}

/// Makes a directory that only its owner can enter, if it is not there.
pub open spec fn private_dir_run(log: Seq<Reply>, at: nat, path: Seq<char>) -> Run<()> {
    kind_run(log, at, path).bind(
        |kind: FileKind, n: nat|
            match kind {
                FileKind::Directory => Run::Done((), n),
                FileKind::Other => Run::Fail(
                    ErrorView::Message(path + " exists and is not a directory"@),
                    n,
                ),
                FileKind::Missing => done_run(log, n, RequestView::CreateDirs(path)).next(
                    |m: nat|
                        done_run(log, m, RequestView::SetMode { path, mode: 0o700 }).next(
                            |k: nat| sync_run(log, k, path),
                        ),
                ),
            },
    )
}

/// Makes a directory that only its owner can enter, if it is not there.
pub fn private_dir(path: &str, log: &Vec<Reply>, at: &mut usize) -> (r: Result<(), Halt>)
    requires
        *old(at) <= log.len(),
    ensures
        *final(at) <= log.len(),
        told(r, *final(at), private_dir_run(log@, *old(at) as nat, path@)),
{
    let kind = match ask(log, at, Request::Kind(path.to_owned()))? {
        Reply::Kind(kind) => *kind,
        Reply::Failed(error) => {
            return Err(Halt::Fail(error.clone()));
        },
        _ => {
            return Err(mismatched());
        },
    };
    match kind {
        FileKind::Directory => Ok(()),
        FileKind::Other => Err(
            Halt::Fail(Error::Message(path.to_owned().concat(" exists and is not a directory"))),
        ),
        FileKind::Missing => {
            done(log, at, Request::CreateDirs(path.to_owned()))?;
            done(log, at, Request::SetMode { path: path.to_owned(), mode: 0o700 })?;
            sync_parent(path, log, at)
        },
    }
}

/// Writes bytes to a temporary file in the directory of a path, and makes them durable.
pub open spec fn prepare_run(
    log: Seq<Reply>,
    at: nat,
    path: Seq<char>,
    bytes: Seq<u8>,
    mode: u32,
) -> Run<()> {
    match parts_of(path).parent() {
        None => Run::Fail(ErrorView::Message(path + " has no parent directory"@), at),
        Some(parent) => {
            let directory = parent.text();
            private_dir_run(log, at, directory).next(
                |n: nat|
                    done_run(
                        log,
                        n,
                        RequestView::CreateTemp { directory, prefix: TEMPORARY_PREFIX@, mode },
                    ).next(
                        |m: nat|
                            done_run(log, m, RequestView::WriteTemp(bytes)).next(
                                |k: nat| done_run(log, k, RequestView::SyncTemp),
                            ),
                    ),
            )
        },
    }
}

fn prepare(path: &str, bytes: &Vec<u8>, mode: u32, log: &Vec<Reply>, at: &mut usize) -> (r: Result<
    (),
    Halt,
>)
    requires
        *old(at) <= log.len(),
    ensures
        *final(at) <= log.len(),
        told(r, *final(at), prepare_run(log@, *old(at) as nat, path@, bytes@, mode)),
{
    let directory = match parts(path).parent() {
        Some(parent) => parent.text(),
        None => {
            return Err(
                Halt::Fail(Error::Message(path.to_owned().concat(" has no parent directory"))),
            );
        },
    };
    private_dir(&directory, log, at)?;
    done(
        log,
        at,
        Request::CreateTemp { directory, prefix: TEMPORARY_PREFIX.to_owned(), mode },
    )?;
    done(log, at, Request::WriteTemp(crate::auth::copy_bytes(bytes)))?;
    done(log, at, Request::SyncTemp)
}

/// Replaces a file in one step: the bytes are written to a temporary file beside it, made
/// durable, and moved to their place.
pub open spec fn write_run(
    log: Seq<Reply>,
    at: nat,
    path: Seq<char>,
    bytes: Seq<u8>,
    mode: u32,
) -> Run<()> {
    prepare_run(log, at, path, bytes, mode).next(
        |n: nat|
            done_run(log, n, RequestView::PersistTemp(path)).next(
                |m: nat| sync_run(log, m, path),
            ),
    )
}

/// Replaces a file in one step.
pub fn atomic_write(
    path: &str,
    bytes: &Vec<u8>,
    mode: u32,
    log: &Vec<Reply>,
    at: &mut usize,
) -> (r: Result<(), Halt>)
    requires
        *old(at) <= log.len(),
    ensures
        *final(at) <= log.len(),
        told(r, *final(at), write_run(log@, *old(at) as nat, path@, bytes@, mode)),
{
    prepare(path, bytes, mode, log, at)?;
    done(log, at, Request::PersistTemp(path.to_owned()))?;
    sync_parent(path, log, at)
}

/// The whole of a file.
pub open spec fn bytes_run(log: Seq<Reply>, at: nat, path: Seq<char>) -> Run<Seq<u8>> {
    reply_run(log, at, RequestView::ReadBytes(path)).bind(
        |reply: Reply, n: nat|
            match reply {
                Reply::Bytes(bytes) => Run::Done(bytes@, n),
                Reply::Missing => Run::Fail(absent(path), n),
                Reply::Failed(error) => Run::Fail(error@, n),
                _ => Run::Fail(mismatch(), n),
            },
    )
}

/// Replaces a file in one step by a copy of another.
pub open spec fn copy_run(
    log: Seq<Reply>,
    at: nat,
    source: Seq<char>,
    target: Seq<char>,
    mode: u32,
) -> Run<()> {
    bytes_run(log, at, source).bind(
        |bytes: Seq<u8>, n: nat| write_run(log, n, target, bytes, mode),
    )
}

/// Replaces a file in one step by a copy of another.
pub fn atomic_copy(
    source: &str,
    target: &str,
    mode: u32,
    log: &Vec<Reply>,
    at: &mut usize,
) -> (r: Result<(), Halt>)
    requires
        *old(at) <= log.len(),
    ensures
        *final(at) <= log.len(),
        told(r, *final(at), copy_run(log@, *old(at) as nat, source@, target@, mode)),
{
    match ask(log, at, Request::ReadBytes(source.to_owned()))? {
        Reply::Bytes(bytes) => atomic_write(target, bytes, mode, log, at),
        Reply::Missing => Err(nothing_at(source)),
        Reply::Failed(error) => Err(Halt::Fail(error.clone())),
        _ => Err(mismatched()),
    }
}

/// Makes the change of an entry durable, if there was one.
pub open spec fn settled_run(log: Seq<Reply>, at: nat, changed: bool, path: Seq<char>) -> Run<bool> {
    if changed {
        sync_run(log, at, path).next(|n: nat| Run::Done(true, n))
    } else {
        Run::Done(false, at)
    }
}

fn settled(changed: bool, path: &str, log: &Vec<Reply>, at: &mut usize) -> (r: Result<bool, Halt>)
    requires
        *old(at) <= log.len(),
    ensures
        *final(at) <= log.len(),
        told(r, *final(at), settled_run(log@, *old(at) as nat, changed, path@)),
{
    if changed {
        sync_parent(path, log, at)?;
    }
    Ok(changed)
}

/// Puts a copy of a file at a path in one step, if nothing is there: whether it was put there.
pub open spec fn copy_if_absent_run(
    log: Seq<Reply>,
    at: nat,
    source: Seq<char>,
    target: Seq<char>,
    mode: u32,
) -> Run<bool> {
    bytes_run(log, at, source).bind(
        |bytes: Seq<u8>, n: nat|
            prepare_run(log, n, target, bytes, mode).next(
                |m: nat|
                    flag_run(log, m, RequestView::PersistTempIfAbsent(target)).bind(
                        |moved: bool, k: nat| settled_run(log, k, moved, target),
                    ),
            ),
    )
}

/// Puts a copy of a file at a path in one step, if nothing is there: whether it was put there.
pub fn atomic_copy_if_absent(
    source: &str,
    target: &str,
    mode: u32,
    log: &Vec<Reply>,
    at: &mut usize,
) -> (r: Result<bool, Halt>)
    requires
        *old(at) <= log.len(),
    ensures
        *final(at) <= log.len(),
        told(r, *final(at), copy_if_absent_run(log@, *old(at) as nat, source@, target@, mode)),
{
    match ask(log, at, Request::ReadBytes(source.to_owned()))? {
        Reply::Bytes(bytes) => prepare(target, bytes, mode, log, at)?,
        Reply::Missing => {
            return Err(nothing_at(source));
        },
        Reply::Failed(error) => {
            return Err(Halt::Fail(error.clone()));
        },
        _ => {
            return Err(mismatched());
        },
    }
    let moved = flag(log, at, Request::PersistTempIfAbsent(target.to_owned()))?;
    settled(moved, target, log, at)
}

/// Gives a file a second name, if nothing has that name: whether it was given.
pub open spec fn link_if_absent_run(
    log: Seq<Reply>,
    at: nat,
    source: Seq<char>,
    target: Seq<char>,
) -> Run<bool> {
    flag_run(log, at, RequestView::HardLink { from: source, to: target }).bind(
        |made: bool, n: nat| settled_run(log, n, made, target),
    )
}

/// Gives a file a second name, if nothing has that name: whether it was given.
pub fn link_if_absent(source: &str, target: &str, log: &Vec<Reply>, at: &mut usize) -> (r: Result<
    bool,
    Halt,
>)
    requires
        *old(at) <= log.len(),
    ensures
        *final(at) <= log.len(),
        told(r, *final(at), link_if_absent_run(log@, *old(at) as nat, source@, target@)),
{
    let made = flag(
        log,
        at,
        Request::HardLink { from: source.to_owned(), to: target.to_owned() },
    )?;
    settled(made, target, log, at)
}

/// Removes a file, if it is there.
pub open spec fn remove_run(log: Seq<Reply>, at: nat, path: Seq<char>) -> Run<()> {
    reply_run(log, at, RequestView::Unlink(path)).bind(
        |reply: Reply, n: nat|
            match reply {
                Reply::Done | Reply::Missing => Run::Done((), n),
                Reply::Failed(error) => Run::Fail(error@, n),
                _ => Run::Fail(mismatch(), n),
            },
    )
}

/// Removes a file, if it is there.
pub fn remove_file_if_exists(path: &str, log: &Vec<Reply>, at: &mut usize) -> (r: Result<(), Halt>)
    requires
        *old(at) <= log.len(),
    ensures
        *final(at) <= log.len(),
        told(r, *final(at), remove_run(log@, *old(at) as nat, path@)),
{
    match ask(log, at, Request::Unlink(path.to_owned()))? {
        Reply::Done => Ok(()),
        Reply::Missing => Ok(()),
        Reply::Failed(error) => Err(Halt::Fail(error.clone())),
        _ => Err(mismatched()),
    }
}

/// A file is moved to its place only once its new contents are written and durable: at that
/// moment the three replies before said that the temporary file was made, written and synced.
pub proof fn law_write_is_durable_before_it_shows(
    log: Seq<Reply>,
    at: nat,
    path: Seq<char>,
    bytes: Seq<u8>,
    mode: u32,
    target: Seq<char>,
)
    requires
        write_run(log, at, path, bytes, mode) == Run::<()>::Ask(RequestView::PersistTemp(target)),
    ensures
        target == path,
        log.len() >= at + 3,
        log[log.len() - 3] is Done,
        log[log.len() - 2] is Done,
        log.last() is Done,
{
}

/// A copy shows where nothing was only once it is written and durable, and nothing that is there
/// already is replaced: the temporary file is never moved to its place in any other way.
pub proof fn law_copy_is_durable_before_it_shows(
    log: Seq<Reply>,
    at: nat,
    source: Seq<char>,
    path: Seq<char>,
    mode: u32,
    target: Seq<char>,
)
    ensures
        copy_if_absent_run(log, at, source, path, mode) != Run::<bool>::Ask(
            RequestView::PersistTemp(target),
        ),
        copy_if_absent_run(log, at, source, path, mode) == Run::<bool>::Ask(
            RequestView::PersistTempIfAbsent(target),
        ) ==> {
            &&& target == path
            &&& log.len() >= at + 4
            &&& log[log.len() - 3] is Done
            &&& log[log.len() - 2] is Done
            &&& log.last() is Done
        },
{
}

}
