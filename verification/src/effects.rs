//! Conversations with the world outside.
//!
//! A procedure that needs something done outside (a file read, a lock tested, a message sent)
//! does not do it. It is given the replies that came so far, works through them in order, and
//! stops at the first thing it has no reply for yet: that request is its result. Whoever runs it
//! carries the request out, appends the reply, and calls again. A procedure is thereby a function
//! of the replies, and what it asks for next is stated exactly.
use crate::account_store::{Profile, TransactionState, TransactionView};
use crate::auth::AuthDocument;
use crate::boost_state::{Observation, State, StateView};
use crate::error::{Error, ErrorView};
use crate::json::{Json, JsonView};
use crate::text::{opt_text, opt_texts, texts};
use crate::usage::{Shown, UsageRecord, UsageView};
use vstd::prelude::*;

verus! {

/// Something to be done outside.
pub enum Request {
    /// Whether anything is at a path, links followed.
    Exists(String),
    /// Whether a regular file is at a path, links followed.
    IsFile(String),
    /// Whether a directory is at a path, links followed.
    IsDir(String),
    /// What a path's own entry is, links not followed.
    Entry(String),
    /// What is at a path, links followed.
    Kind(String),
    /// The real path of an existing file.
    Canonical(String),
    /// The whole of a text file.
    ReadText(String),
    /// A credential file, read and checked.
    ReadAuth(String),
    /// The recorded transaction.
    ReadState(String),
    /// Records a transaction, replacing the file in one step.
    WriteState { path: String, state: TransactionState },
    /// Replaces a file in one step.
    Write { path: String, bytes: Vec<u8> },
    /// Replaces a file in one step by a copy of another.
    Copy { from: String, to: String },
    /// Copies a file in one step, unless the target is already there.
    CopyIfAbsent { from: String, to: String },
    /// Gives an entry a second name, unless that name is already taken.
    LinkIfAbsent { from: String, to: String },
    /// Moves an entry.
    Rename { from: String, to: String },
    /// Moves an entry, if it is there.
    Claim { from: String, to: String },
    /// Makes a symbolic link.
    Symlink { target: String, link: String },
    /// Removes a file, if it is there.
    Remove(String),
    /// Removes a directory and everything in it, if it is there.
    RemoveTree(String),
    /// Makes the change of an entry durable.
    SyncParent(String),
    /// Makes a directory that only its owner can enter, if it is not there.
    PrivateDir(String),
    /// The names in a directory.
    Names(String),
    /// The enrolled accounts.
    Profiles,
    /// Whether a process that may write credentials is running.
    WritersRunning,
    /// Whether another process holds a lock.
    LockHeld(String),
    /// Whether the session's credential entry is a link to the active credentials.
    SessionLinked,
    /// Whether two paths name one directory entry.
    SameEntry { a: String, b: String },
    /// Whether two paths lead to one file.
    SameFile { a: String, b: String },
    /// The numbers of a recorded quota as they are to be shown: percentages, and local times.
    Numbers(UsageRecord),
    /// Makes directories, parents first.
    CreateDirs(String),
    /// Sets permission bits.
    SetMode { path: String, mode: u32 },
    /// Makes a directory's entries durable.
    SyncDir(String),
    /// Makes a new temporary file in a directory.
    CreateTemp { directory: String, prefix: String, mode: u32 },
    /// Writes to the temporary file.
    WriteTemp(Vec<u8>),
    /// Makes the temporary file durable.
    SyncTemp,
    /// Moves the temporary file to its place.
    PersistTemp(String),
    /// Moves the temporary file to its place, if nothing is there: whether it was moved.
    PersistTempIfAbsent(String),
    /// Gives a file a second name, if nothing has that name: whether it was given.
    HardLink { from: String, to: String },
    /// The whole of a file.
    ReadBytes(String),
    /// Sends a message to the app server.
    Send(Json),
    /// The next message from the app server.
    Receive,
    /// The next message from the app server, waiting at most so many nanoseconds.
    WaitMessage(u64),
    /// Asks the app server, and everything that it has started, to end, or makes them.
    SignalServer { force: bool },
    /// Whether the app server has ended.
    ServerExited,
    /// Waits for the end of the app server.
    AwaitServer,
    /// Makes a temporary directory that only its owner can enter.
    TempDir { directory: String, prefix: String },
    /// Starts an app server on a home.
    StartServer { home: String, force_file: bool },
    /// Stops the app server.
    StopServer,
    /// Records the quota of an account.
    RecordUsage { slot: u32, usage: UsageRecord },
    /// Shows the list of accounts and reads their quotas: whether the session changed by that. The
    /// list is closed where the person at the terminal asks for its end.
    RefreshList { force: bool, watch: bool },
    /// Prints a text as it is.
    Show(String),
    /// Takes a lock, waiting for it.
    Lock(String),
    /// The recorded quota of an account.
    Usage(u32),
    /// Whether the recorded quota of an account is fresh.
    UsageFresh(u32),
    /// Reads the quota of an account: the reading, and whether the session changed by it.
    QueryUsage(u32),
    /// Whether input and output are a terminal.
    Interactive,
    /// Asks the person at the terminal a question.
    Prompt(String),
    /// Prints a line to the error output.
    Warn(String),
    /// Shows that something is going on.
    StartSpinner(String),
    /// Shows that it is over.
    StopSpinner,
    /// Runs Codex with these arguments on a home: whether it succeeds. `None` stands for an
    /// argument that is not text, in its place.
    Login { arguments: Vec<Option<String>>, home: String },
    /// Writes over the line at the bottom of the screen.
    WriteStatus(String),
    /// Sets the deadline of the operation to so many nanoseconds from now.
    StartTimer(u64),
    /// Removes a file.
    Unlink(String),
    /// The time, in nanoseconds since the Unix epoch.
    Nanos,
    /// What is in a directory.
    Listing(String),
    /// Which file is at a path, links followed.
    FileId(String),
    /// The user that a file belongs to.
    OwnerOf(String),
    /// Runs `pgrep` with these arguments.
    Pgrep(Vec<String>),
    /// The path of the program that a process runs.
    ProgramOf(i64),
    /// The number of a user.
    UserId(String),
    /// The number of a group.
    GroupId(String),
    /// Opens a directory, which is no link.
    OpenDirectory(String),
    /// The user and the group that a file belongs to.
    Owners(String),
    /// Sets the permission bits of the open directory.
    DirectoryMode(u32),
    /// Gives the open directory to a user and a group.
    DirectoryOwner { user: u32, group: u32 },
    /// Which socket a path's own entry is.
    SocketEntry(String),
    /// Connects to a socket.
    Probe(String),
    /// The process and the user on the other side of the socket.
    PeerCredentials,
    /// Opens a WebSocket connection on the socket.
    VerifyWebSocket,
    /// Closes the WebSocket connection.
    CloseWebSocket,
    /// Prints a line.
    Print(String),
    /// The time, in milliseconds since the Unix epoch.
    Millis,
    /// Lets the calls on the control connection end so many milliseconds from now, and each of them after the usual time.
    LimitCalls(u64),
    /// Opens a control connection, which the calls that follow are made on.
    Dial(String),
    /// Makes a request of the app server on the control connection.
    Call { method: String, params: Json },
    /// The time, in seconds since the Unix epoch.
    Now,
    /// The time, in microseconds since the Unix epoch.
    Micros,
    /// The reading of a clock that never goes back, in nanoseconds.
    Instant,
    /// The number of this process.
    ProcessId,
    /// Takes a lock, unless another process holds it.
    TryLock(String),
    /// Gives a lock back.
    Unlock(String),
    /// The recorded state of a boost.
    ReadBoost(String),
    /// Records the state of a boost, replacing the file in one step.
    WriteBoost { path: String, boost: State },
    /// The next reading of all quotas, waiting at most so many nanoseconds.
    WaitQuotas(u64),
    /// The next reading of all quotas, if it is there.
    NextQuotas,
    /// Reads all quotas and offers the reading to whoever takes it: whether anybody still may.
    OfferQuotas,
    /// Reads the quotas of these accounts, all at once, until every reading has ended.
    QueryProfiles(Vec<u32>),
    /// What reading the quota of an account came to.
    Observation(u32),
    /// Whether the work was called off.
    Cancelled,
    /// Opens a log file for the output of the controller, and finds the program that it runs.
    OpenLog(String),
    /// Starts this program in the background with these arguments.
    Spawn(Vec<String>),
    /// How the program in the background ended, if it did.
    ChildExit,
    /// Takes note of signals that ask the program to end, from now on.
    CatchSignals,
    /// Whether a signal has asked the program to end.
    Signalled,
    /// Whether the terminal has an event, waiting at most so many nanoseconds.
    PollEvent(u64),
    /// The next event of the terminal.
    ReadEvent,
    /// Random bytes, so many.
    Random(usize),
    /// How many nanoseconds are left until the deadline of the operation.
    Remaining,
    /// Reads at most so many bytes from the socket, waiting no longer than so many nanoseconds.
    ReadSome { limit: usize, timeout: u64 },
    /// Writes as many of these bytes to the socket as it takes at once.
    WriteSome { bytes: Vec<u8>, timeout: u64 },
    /// Makes a socket that does not block.
    OpenSocket,
    /// Tries to connect the socket.
    Connect(String),
    /// Waits so many nanoseconds.
    Sleep(u64),
    /// Waits until the socket can be written to, at most so many milliseconds: how many events came.
    PollWritable(u64),
    /// Whether connecting the socket failed after all.
    SocketError,
}

/// What a request says.
pub enum RequestView {
    Exists(Seq<char>),
    IsFile(Seq<char>),
    IsDir(Seq<char>),
    Entry(Seq<char>),
    Kind(Seq<char>),
    Canonical(Seq<char>),
    ReadText(Seq<char>),
    ReadAuth(Seq<char>),
    ReadState(Seq<char>),
    WriteState { path: Seq<char>, state: TransactionView },
    Write { path: Seq<char>, bytes: Seq<u8> },
    Copy { from: Seq<char>, to: Seq<char> },
    CopyIfAbsent { from: Seq<char>, to: Seq<char> },
    LinkIfAbsent { from: Seq<char>, to: Seq<char> },
    Rename { from: Seq<char>, to: Seq<char> },
    Claim { from: Seq<char>, to: Seq<char> },
    Symlink { target: Seq<char>, link: Seq<char> },
    Remove(Seq<char>),
    RemoveTree(Seq<char>),
    SyncParent(Seq<char>),
    PrivateDir(Seq<char>),
    Names(Seq<char>),
    Profiles,
    WritersRunning,
    LockHeld(Seq<char>),
    SessionLinked,
    SameEntry { a: Seq<char>, b: Seq<char> },
    SameFile { a: Seq<char>, b: Seq<char> },
    Numbers(UsageView),
    CreateDirs(Seq<char>),
    SetMode { path: Seq<char>, mode: u32 },
    SyncDir(Seq<char>),
    CreateTemp { directory: Seq<char>, prefix: Seq<char>, mode: u32 },
    WriteTemp(Seq<u8>),
    SyncTemp,
    PersistTemp(Seq<char>),
    PersistTempIfAbsent(Seq<char>),
    HardLink { from: Seq<char>, to: Seq<char> },
    ReadBytes(Seq<char>),
    Send(JsonView),
    Receive,
    WaitMessage(u64),
    SignalServer { force: bool },
    ServerExited,
    AwaitServer,
    TempDir { directory: Seq<char>, prefix: Seq<char> },
    StartServer { home: Seq<char>, force_file: bool },
    StopServer,
    RecordUsage { slot: u32, usage: UsageView },
    RefreshList { force: bool, watch: bool },
    Show(Seq<char>),
    Lock(Seq<char>),
    Usage(u32),
    UsageFresh(u32),
    QueryUsage(u32),
    Interactive,
    Prompt(Seq<char>),
    Warn(Seq<char>),
    StartSpinner(Seq<char>),
    StopSpinner,
    Login { arguments: Seq<Option<Seq<char>>>, home: Seq<char> },
    WriteStatus(Seq<char>),
    StartTimer(u64),
    Unlink(Seq<char>),
    Nanos,
    Listing(Seq<char>),
    FileId(Seq<char>),
    OwnerOf(Seq<char>),
    Pgrep(Seq<Seq<char>>),
    ProgramOf(i64),
    UserId(Seq<char>),
    GroupId(Seq<char>),
    OpenDirectory(Seq<char>),
    Owners(Seq<char>),
    DirectoryMode(u32),
    DirectoryOwner { user: u32, group: u32 },
    SocketEntry(Seq<char>),
    Probe(Seq<char>),
    PeerCredentials,
    VerifyWebSocket,
    CloseWebSocket,
    Print(Seq<char>),
    Millis,
    LimitCalls(u64),
    Dial(Seq<char>),
    Call { method: Seq<char>, params: JsonView },
    Now,
    Micros,
    Instant,
    ProcessId,
    TryLock(Seq<char>),
    Unlock(Seq<char>),
    ReadBoost(Seq<char>),
    WriteBoost { path: Seq<char>, boost: StateView },
    WaitQuotas(u64),
    NextQuotas,
    OfferQuotas,
    QueryProfiles(Seq<u32>),
    Observation(u32),
    Cancelled,
    OpenLog(Seq<char>),
    Spawn(Seq<Seq<char>>),
    ChildExit,
    CatchSignals,
    Signalled,
    PollEvent(u64),
    ReadEvent,
    Random(usize),
    Remaining,
    ReadSome { limit: usize, timeout: u64 },
    WriteSome { bytes: Seq<u8>, timeout: u64 },
    OpenSocket,
    Connect(Seq<char>),
    Sleep(u64),
    PollWritable(u64),
    SocketError,
}

impl View for Request {
    type V = RequestView;

    open spec fn view(&self) -> RequestView {
        match self {
            Request::Exists(p) => RequestView::Exists(p@),
            Request::IsFile(p) => RequestView::IsFile(p@),
            Request::IsDir(p) => RequestView::IsDir(p@),
            Request::Entry(p) => RequestView::Entry(p@),
            Request::Kind(p) => RequestView::Kind(p@),
            Request::Canonical(p) => RequestView::Canonical(p@),
            Request::ReadText(p) => RequestView::ReadText(p@),
            Request::ReadAuth(p) => RequestView::ReadAuth(p@),
            Request::ReadState(p) => RequestView::ReadState(p@),
            Request::WriteState { path, state } => RequestView::WriteState {
                path: path@,
                state: state@,
            },
            Request::Write { path, bytes } => RequestView::Write { path: path@, bytes: bytes@ },
            Request::Copy { from, to } => RequestView::Copy { from: from@, to: to@ },
            Request::CopyIfAbsent { from, to } => RequestView::CopyIfAbsent {
                from: from@,
                to: to@,
            },
            Request::LinkIfAbsent { from, to } => RequestView::LinkIfAbsent {
                from: from@,
                to: to@,
            },
            Request::Rename { from, to } => RequestView::Rename { from: from@, to: to@ },
            Request::Claim { from, to } => RequestView::Claim { from: from@, to: to@ },
            Request::Symlink { target, link } => RequestView::Symlink {
                target: target@,
                link: link@,
            },
            Request::Remove(p) => RequestView::Remove(p@),
            Request::RemoveTree(p) => RequestView::RemoveTree(p@),
            Request::SyncParent(p) => RequestView::SyncParent(p@),
            Request::PrivateDir(p) => RequestView::PrivateDir(p@),
            Request::Names(p) => RequestView::Names(p@),
            Request::Profiles => RequestView::Profiles,
            Request::WritersRunning => RequestView::WritersRunning,
            Request::LockHeld(p) => RequestView::LockHeld(p@),
            Request::SessionLinked => RequestView::SessionLinked,
            Request::SameEntry { a, b } => RequestView::SameEntry { a: a@, b: b@ },
            Request::SameFile { a, b } => RequestView::SameFile { a: a@, b: b@ },
            Request::Numbers(usage) => RequestView::Numbers(usage@),
            Request::CreateDirs(p) => RequestView::CreateDirs(p@),
            Request::SetMode { path, mode } => RequestView::SetMode { path: path@, mode: *mode },
            Request::SyncDir(p) => RequestView::SyncDir(p@),
            Request::CreateTemp { directory, prefix, mode } => RequestView::CreateTemp {
                directory: directory@,
                prefix: prefix@,
                mode: *mode,
            },
            Request::WriteTemp(bytes) => RequestView::WriteTemp(bytes@),
            Request::SyncTemp => RequestView::SyncTemp,
            Request::PersistTemp(p) => RequestView::PersistTemp(p@),
            Request::PersistTempIfAbsent(p) => RequestView::PersistTempIfAbsent(p@),
            Request::HardLink { from, to } => RequestView::HardLink { from: from@, to: to@ },
            Request::ReadBytes(p) => RequestView::ReadBytes(p@),
            Request::Send(message) => RequestView::Send(message@),
            Request::Receive => RequestView::Receive,
            Request::WaitMessage(time) => RequestView::WaitMessage(*time),
            Request::SignalServer { force } => RequestView::SignalServer { force: *force },
            Request::ServerExited => RequestView::ServerExited,
            Request::AwaitServer => RequestView::AwaitServer,
            Request::TempDir { directory, prefix } => RequestView::TempDir {
                directory: directory@,
                prefix: prefix@,
            },
            Request::StartServer { home, force_file } => RequestView::StartServer {
                home: home@,
                force_file: *force_file,
            },
            Request::StopServer => RequestView::StopServer,
            Request::RecordUsage { slot, usage } => RequestView::RecordUsage { slot: *slot, usage: usage@ },
            Request::RefreshList { force, watch } => RequestView::RefreshList { force: *force, watch: *watch },
            Request::Show(text) => RequestView::Show(text@),
            Request::Lock(p) => RequestView::Lock(p@),
            Request::Usage(slot) => RequestView::Usage(*slot),
            Request::UsageFresh(slot) => RequestView::UsageFresh(*slot),
            Request::QueryUsage(slot) => RequestView::QueryUsage(*slot),
            Request::Interactive => RequestView::Interactive,
            Request::Prompt(text) => RequestView::Prompt(text@),
            Request::Warn(line) => RequestView::Warn(line@),
            Request::StartSpinner(text) => RequestView::StartSpinner(text@),
            Request::StopSpinner => RequestView::StopSpinner,
            Request::Login { arguments, home } => RequestView::Login {
                arguments: opt_texts(arguments@),
                home: home@,
            },
            Request::WriteStatus(line) => RequestView::WriteStatus(line@),
            Request::StartTimer(n) => RequestView::StartTimer(*n),
            Request::Unlink(p) => RequestView::Unlink(p@),
            Request::Nanos => RequestView::Nanos,
            Request::Listing(p) => RequestView::Listing(p@),
            Request::FileId(p) => RequestView::FileId(p@),
            Request::OwnerOf(p) => RequestView::OwnerOf(p@),
            Request::Pgrep(arguments) => RequestView::Pgrep(texts(arguments@)),
            Request::ProgramOf(process) => RequestView::ProgramOf(*process),
            Request::UserId(name) => RequestView::UserId(name@),
            Request::GroupId(name) => RequestView::GroupId(name@),
            Request::OpenDirectory(p) => RequestView::OpenDirectory(p@),
            Request::Owners(p) => RequestView::Owners(p@),
            Request::DirectoryMode(mode) => RequestView::DirectoryMode(*mode),
            Request::DirectoryOwner { user, group } => RequestView::DirectoryOwner {
                user: *user,
                group: *group,
            },
            Request::SocketEntry(p) => RequestView::SocketEntry(p@),
            Request::Probe(p) => RequestView::Probe(p@),
            Request::PeerCredentials => RequestView::PeerCredentials,
            Request::VerifyWebSocket => RequestView::VerifyWebSocket,
            Request::CloseWebSocket => RequestView::CloseWebSocket,
            Request::Print(line) => RequestView::Print(line@),
            Request::Millis => RequestView::Millis,
            Request::LimitCalls(n) => RequestView::LimitCalls(*n),
            Request::Dial(p) => RequestView::Dial(p@),
            Request::Call { method, params } => RequestView::Call {
                method: method@,
                params: params@,
            },
            Request::Now => RequestView::Now,
            Request::Micros => RequestView::Micros,
            Request::Instant => RequestView::Instant,
            Request::ProcessId => RequestView::ProcessId,
            Request::TryLock(p) => RequestView::TryLock(p@),
            Request::Unlock(p) => RequestView::Unlock(p@),
            Request::ReadBoost(p) => RequestView::ReadBoost(p@),
            Request::WriteBoost { path, boost } => RequestView::WriteBoost {
                path: path@,
                boost: boost@,
            },
            Request::WaitQuotas(n) => RequestView::WaitQuotas(*n),
            Request::NextQuotas => RequestView::NextQuotas,
            Request::OfferQuotas => RequestView::OfferQuotas,
            Request::QueryProfiles(slots) => RequestView::QueryProfiles(slots@),
            Request::Observation(slot) => RequestView::Observation(*slot),
            Request::Cancelled => RequestView::Cancelled,
            Request::OpenLog(p) => RequestView::OpenLog(p@),
            Request::Spawn(arguments) => RequestView::Spawn(texts(arguments@)),
            Request::ChildExit => RequestView::ChildExit,
            Request::CatchSignals => RequestView::CatchSignals,
            Request::Signalled => RequestView::Signalled,
            Request::PollEvent(n) => RequestView::PollEvent(*n),
            Request::ReadEvent => RequestView::ReadEvent,
            Request::Random(n) => RequestView::Random(*n),
            Request::Remaining => RequestView::Remaining,
            Request::ReadSome { limit, timeout } => RequestView::ReadSome {
                limit: *limit,
                timeout: *timeout,
            },
            Request::WriteSome { bytes, timeout } => RequestView::WriteSome {
                bytes: bytes@,
                timeout: *timeout,
            },
            Request::OpenSocket => RequestView::OpenSocket,
            Request::Connect(p) => RequestView::Connect(p@),
            Request::Sleep(n) => RequestView::Sleep(*n),
            Request::PollWritable(n) => RequestView::PollWritable(*n),
            Request::SocketError => RequestView::SocketError,
        }
    }
}

/// What a directory entry is, links not followed.
#[derive(Clone, Copy, PartialEq, Eq, Structural, Debug)]
pub enum EntryKind {
    Missing,
    Link,
    Other,
}

/// What is at a path, links followed.
#[derive(Clone, Copy, PartialEq, Eq, Structural, Debug)]
pub enum FileKind {
    Missing,
    Directory,
    Other,
}

/// What came of an attempt to connect.
#[derive(Clone, Copy, PartialEq, Eq, Structural, Debug)]
pub enum Attempt {
    Connected,
    AlreadyConnected,
    InProgress,
    AlreadyInProgress,
    TryAgain,
}

/// What kind of trouble a socket had.
#[derive(Clone, Copy, PartialEq, Eq, Structural, Debug)]
pub enum Trouble {
    TimedOut,
    WouldBlock,
    UnexpectedEof,
    Interrupted,
    Other,
}

/// A key of the terminal.
#[derive(Clone, Copy, PartialEq, Eq, Structural, Debug)]
pub enum Key {
    Char(char),
    Other,
}

/// An event of the terminal.
#[derive(Clone, Copy, PartialEq, Eq, Structural, Debug)]
pub enum TerminalEvent {
    Key { key: Key, control: bool, release: bool },
    Other,
}

/// Which file something is.
#[derive(Clone, Copy, PartialEq, Eq, Structural, Debug)]
pub struct FileId {
    pub device: u64,
    pub inode: u64,
}

/// What came of connecting to a socket.
#[derive(Clone, Copy, PartialEq, Eq, Structural, Debug)]
pub enum ProbeOutcome {
    Connected,
    Refused,
    NotFound,
}

/// What came of a request.
pub enum Reply {
    Done,
    Flag(bool),
    Missing,
    Failed(Error),
    Text(String),
    Names(Vec<String>),
    Bytes(Vec<u8>),
    Auth(AuthDocument),
    Profiles(Vec<Profile>),
    State(TransactionState),
    Entry(EntryKind),
    Kind(FileKind),
    Message(Json),
    Reading { usage: UsageRecord, changed: bool },
    Listing(Vec<Option<String>>),
    Id(FileId),
    NotSocket,
    Program { code: Option<i32>, output: String },
    Owners { user: u32, group: u32 },
    Probe(ProbeOutcome),
    Peer { process: u32, user: u32 },
    Time(i64),
    Boost(State),
    Quotas(Vec<Observation>),
    Usage(UsageRecord),
    Numbers(Vec<Shown>),
    Closed,
    Event(TerminalEvent),
    Number(u64),
    Connect(Attempt),
    Socket { trouble: Trouble, detail: String },
}

/// Why a procedure stopped before its end.
pub enum Halt {
    /// It needs this done, and the reply.
    Ask(Request),
    /// It failed.
    Fail(Error),
}

/// What a procedure comes to, given the replies so far: a result or a failure, each with the
/// number of replies used, or the request that it waits for.
pub enum Run<T> {
    Done(T, nat),
    Fail(ErrorView, nat),
    Ask(RequestView),
}

impl<T> Run<T> {
    /// Continues with the result of this run.
    pub open spec fn bind<U>(self, next: spec_fn(T, nat) -> Run<U>) -> Run<U> {
        match self {
            Run::Done(value, at) => next(value, at),
            Run::Fail(error, at) => Run::Fail(error, at),
            Run::Ask(request) => Run::Ask(request),
        }
    }

    /// Continues after this run, whose result is of no further use.
    pub open spec fn next<U>(self, next: spec_fn(nat) -> Run<U>) -> Run<U> {
        match self {
            Run::Done(_, at) => next(at),
            Run::Fail(error, at) => Run::Fail(error, at),
            Run::Ask(request) => Run::Ask(request),
        }
    }

    /// Carries the failure of this run along as a result.
    pub open spec fn attempt(self) -> Run<Result<T, ErrorView>> {
        match self {
            Run::Done(value, at) => Run::Done(Ok(value), at),
            Run::Fail(error, at) => Run::Done(Err(error), at),
            Run::Ask(request) => Run::Ask(request),
        }
    }

    /// Continues after the failure of this run.
    pub open spec fn rescue(self, next: spec_fn(ErrorView, nat) -> Run<T>) -> Run<T> {
        match self {
            Run::Done(value, at) => Run::Done(value, at),
            Run::Fail(error, at) => next(error, at),
            Run::Ask(request) => Run::Ask(request),
        }
    }
}

/// Whether the outcome of a procedure, which used replies up to `at`, is what `run` says.
pub open spec fn told<T>(r: Result<T, Halt>, at: usize, run: Run<T>) -> bool {
    match r {
        Ok(value) => run == Run::Done(value, at as nat),
        Err(Halt::Fail(error)) => run == Run::<T>::Fail(error@, at as nat),
        Err(Halt::Ask(request)) => run == Run::<T>::Ask(request@),
    }
}

/// The reply to a request, or the request where no reply is there yet.
pub open spec fn reply_run(log: Seq<Reply>, at: nat, request: RequestView) -> Run<Reply> {
    if at < log.len() {
        Run::Done(log[at as int], at + 1)
    } else {
        Run::Ask(request)
    }
}

/// The failure of a conversation in which a reply does not answer its request.
pub open spec fn mismatch() -> ErrorView {
    ErrorView::Protocol("the reply does not answer the request"@)
}

/// The failure of an operation on a path at which nothing is.
pub open spec fn absent(path: Seq<char>) -> ErrorView {
    ErrorView::Io { path, detail: "No such file or directory (os error 2)"@ }
}

/// A request that is answered with yes or no.
pub open spec fn flag_run(log: Seq<Reply>, at: nat, request: RequestView) -> Run<bool> {
    reply_run(log, at, request).bind(
        |reply: Reply, n: nat|
            match reply {
                Reply::Flag(flag) => Run::Done(flag, n),
                Reply::Failed(error) => Run::Fail(error@, n),
                _ => Run::Fail(mismatch(), n),
            },
    )
}

/// A request that is carried out or fails.
pub open spec fn done_run(log: Seq<Reply>, at: nat, request: RequestView) -> Run<()> {
    reply_run(log, at, request).bind(
        |reply: Reply, n: nat|
            match reply {
                Reply::Done => Run::Done((), n),
                Reply::Failed(error) => Run::Fail(error@, n),
                _ => Run::Fail(mismatch(), n),
            },
    )
}

/// A credential file that has to be there and valid.
pub open spec fn auth_run(log: Seq<Reply>, at: nat, path: Seq<char>) -> Run<AuthDocument> {
    reply_run(log, at, RequestView::ReadAuth(path)).bind(
        |reply: Reply, n: nat|
            match reply {
                Reply::Auth(document) => Run::Done(document, n),
                Reply::Failed(error) => Run::Fail(error@, n),
                _ => Run::Fail(mismatch(), n),
            },
    )
}

/// A credential file, if it is there and valid.
pub open spec fn auth_if_valid_run(log: Seq<Reply>, at: nat, path: Seq<char>) -> Run<
    Option<AuthDocument>,
> {
    auth_run(log, at, path).bind(|document: AuthDocument, n: nat| Run::Done(Some(document), n)).rescue(
        |_error: ErrorView, n: nat| Run::Done(None, n),
    )
}

/// What a path's own entry is.
pub open spec fn entry_run(log: Seq<Reply>, at: nat, path: Seq<char>) -> Run<EntryKind> {
    reply_run(log, at, RequestView::Entry(path)).bind(
        |reply: Reply, n: nat|
            match reply {
                Reply::Entry(kind) => Run::Done(kind, n),
                Reply::Failed(error) => Run::Fail(error@, n),
                _ => Run::Fail(mismatch(), n),
            },
    )
}

/// A text file; `None` where it cannot be read.
pub open spec fn text_run(log: Seq<Reply>, at: nat, path: Seq<char>) -> Run<Option<String>> {
    reply_run(log, at, RequestView::ReadText(path)).bind(
        |reply: Reply, n: nat|
            match reply {
                Reply::Text(text) => Run::Done(Some(text), n),
                Reply::Missing | Reply::Failed(_) => Run::Done(None, n),
                _ => Run::Fail(mismatch(), n),
            },
    )
}

/// The names in a directory; `None` where it is not there.
pub open spec fn names_run(log: Seq<Reply>, at: nat, path: Seq<char>) -> Run<Option<Vec<String>>> {
    reply_run(log, at, RequestView::Names(path)).bind(
        |reply: Reply, n: nat|
            match reply {
                Reply::Names(names) => Run::Done(Some(names), n),
                Reply::Missing => Run::Done(None, n),
                Reply::Failed(error) => Run::Fail(error@, n),
                _ => Run::Fail(mismatch(), n),
            },
    )
}

/// The enrolled accounts.
pub open spec fn profiles_run(log: Seq<Reply>, at: nat) -> Run<Vec<Profile>> {
    reply_run(log, at, RequestView::Profiles).bind(
        |reply: Reply, n: nat|
            match reply {
                Reply::Profiles(profiles) => Run::Done(profiles, n),
                Reply::Failed(error) => Run::Fail(error@, n),
                _ => Run::Fail(mismatch(), n),
            },
    )
}

/// The recorded transaction.
pub open spec fn state_run(log: Seq<Reply>, at: nat, path: Seq<char>) -> Run<TransactionState> {
    reply_run(log, at, RequestView::ReadState(path)).bind(
        |reply: Reply, n: nat|
            match reply {
                Reply::State(state) => Run::Done(state, n),
                Reply::Failed(error) => Run::Fail(error@, n),
                _ => Run::Fail(mismatch(), n),
            },
    )
}

/// A request that is answered with a text.
pub open spec fn answer_run(log: Seq<Reply>, at: nat, request: RequestView) -> Run<Seq<char>> {
    reply_run(log, at, request).bind(
        |reply: Reply, n: nat|
            match reply {
                Reply::Text(text) => Run::Done(text@, n),
                Reply::Failed(error) => Run::Fail(error@, n),
                _ => Run::Fail(mismatch(), n),
            },
    )
}

/// A text file that has to be there.
pub open spec fn contents_run(log: Seq<Reply>, at: nat, path: Seq<char>) -> Run<Seq<char>> {
    reply_run(log, at, RequestView::ReadText(path)).bind(
        |reply: Reply, n: nat|
            match reply {
                Reply::Text(text) => Run::Done(text@, n),
                Reply::Missing => Run::Fail(absent(path), n),
                Reply::Failed(error) => Run::Fail(error@, n),
                _ => Run::Fail(mismatch(), n),
            },
    )
}

/// The removal of a file that has to be there.
pub open spec fn unlink_run(log: Seq<Reply>, at: nat, path: Seq<char>) -> Run<()> {
    reply_run(log, at, RequestView::Unlink(path)).bind(
        |reply: Reply, n: nat|
            match reply {
                Reply::Done => Run::Done((), n),
                Reply::Missing => Run::Fail(absent(path), n),
                Reply::Failed(error) => Run::Fail(error@, n),
                _ => Run::Fail(mismatch(), n),
            },
    )
}

// ---------------------------------------------------------------- asking

pub(crate) fn nothing_at(path: &str) -> (r: Halt)
    ensures
        r is Fail,
        r->Fail_0@ == absent(path@),
{
    Halt::Fail(
        Error::Io {
            path: path.to_owned(),
            detail: "No such file or directory (os error 2)".to_owned(),
        },
    )
}

/// Asks for a text file that has to be there.
pub fn contents(log: &Vec<Reply>, at: &mut usize, path: &str) -> (r: Result<String, Halt>)
    requires
        *old(at) <= log.len(),
    ensures
        *final(at) <= log.len(),
        told_text(r, *final(at), contents_run(log@, *old(at) as nat, path@)),
{
    match ask(log, at, Request::ReadText(path.to_owned()))? {
        Reply::Text(text) => Ok(text.clone()),
        Reply::Missing => Err(nothing_at(path)),
        Reply::Failed(error) => Err(Halt::Fail(error.clone())),
        _ => Err(mismatched()),
    }
}

/// Asks for the removal of a file that has to be there.
pub fn unlink(log: &Vec<Reply>, at: &mut usize, path: &str) -> (r: Result<(), Halt>)
    requires
        *old(at) <= log.len(),
    ensures
        *final(at) <= log.len(),
        told(r, *final(at), unlink_run(log@, *old(at) as nat, path@)),
{
    match ask(log, at, Request::Unlink(path.to_owned()))? {
        Reply::Done => Ok(()),
        Reply::Missing => Err(nothing_at(path)),
        Reply::Failed(error) => Err(Halt::Fail(error.clone())),
        _ => Err(mismatched()),
    }
}

pub(crate) fn mismatched() -> (r: Halt)
    ensures
        r is Fail,
        r->Fail_0@ == mismatch(),
{
    Halt::Fail(Error::protocol("the reply does not answer the request"))
}

/// The next reply, or the request where there is none yet.
pub fn ask<'a>(log: &'a Vec<Reply>, at: &mut usize, request: Request) -> (r: Result<&'a Reply, Halt>)
    requires
        *old(at) <= log.len(),
    ensures
        *final(at) <= log.len(),
        match r {
            Ok(reply) => reply_run(log@, *old(at) as nat, request@) == Run::Done(
                *reply,
                *final(at) as nat,
            ),
            Err(Halt::Ask(q)) => reply_run(log@, *old(at) as nat, request@) == Run::<Reply>::Ask(
                q@,
            ),
            Err(Halt::Fail(_)) => false,
        },
{
    if *at < log.len() {
        let reply = &log[*at];
        *at = *at + 1;
        Ok(reply)
    } else {
        Err(Halt::Ask(request))
    }
}

/// Asks for yes or no.
pub fn flag(log: &Vec<Reply>, at: &mut usize, request: Request) -> (r: Result<bool, Halt>)
    requires
        *old(at) <= log.len(),
    ensures
        *final(at) <= log.len(),
        told(r, *final(at), flag_run(log@, *old(at) as nat, request@)),
{
    match ask(log, at, request)? {
        Reply::Flag(flag) => Ok(*flag),
        Reply::Failed(error) => Err(Halt::Fail(error.clone())),
        _ => Err(mismatched()),
    }
}

/// Asks for a text.
pub fn answer(log: &Vec<Reply>, at: &mut usize, request: Request) -> (r: Result<String, Halt>)
    requires
        *old(at) <= log.len(),
    ensures
        *final(at) <= log.len(),
        told_text(r, *final(at), answer_run(log@, *old(at) as nat, request@)),
{
    match ask(log, at, request)? {
        Reply::Text(text) => Ok(text.clone()),
        Reply::Failed(error) => Err(Halt::Fail(error.clone())),
        _ => Err(mismatched()),
    }
}

/// Asks for something to be carried out.
pub fn done(log: &Vec<Reply>, at: &mut usize, request: Request) -> (r: Result<(), Halt>)
    requires
        *old(at) <= log.len(),
    ensures
        *final(at) <= log.len(),
        told(r, *final(at), done_run(log@, *old(at) as nat, request@)),
{
    match ask(log, at, request)? {
        Reply::Done => Ok(()),
        Reply::Failed(error) => Err(Halt::Fail(error.clone())),
        _ => Err(mismatched()),
    }
}

/// Asks for a credential file that has to be there and valid.
pub fn auth<'a>(log: &'a Vec<Reply>, at: &mut usize, path: &str) -> (r: Result<&'a AuthDocument, Halt>)
    requires
        *old(at) <= log.len(),
    ensures
        *final(at) <= log.len(),
        told_ref(r, *final(at), auth_run(log@, *old(at) as nat, path@)),
{
    match ask(log, at, Request::ReadAuth(path.to_owned()))? {
        Reply::Auth(document) => Ok(document),
        Reply::Failed(error) => Err(Halt::Fail(error.clone())),
        _ => Err(mismatched()),
    }
}

/// `told` for a procedure that hands out a part of a reply.
pub open spec fn told_ref<T>(r: Result<&T, Halt>, at: usize, run: Run<T>) -> bool {
    match r {
        Ok(value) => run == Run::Done(*value, at as nat),
        Err(Halt::Fail(error)) => run == Run::<T>::Fail(error@, at as nat),
        Err(Halt::Ask(request)) => run == Run::<T>::Ask(request@),
    }
}

/// `told` for a procedure that may hand out a part of a reply.
pub open spec fn told_opt<T>(r: Result<Option<&T>, Halt>, at: usize, run: Run<Option<T>>) -> bool {
    match r {
        Ok(value) => run == Run::Done(
            match value {
                Some(v) => Some(*v),
                None => None,
            },
            at as nat,
        ),
        Err(Halt::Fail(error)) => run == Run::<Option<T>>::Fail(error@, at as nat),
        Err(Halt::Ask(request)) => run == Run::<Option<T>>::Ask(request@),
    }
}

/// `told` for a procedure whose result is a text.
pub open spec fn told_text(r: Result<String, Halt>, at: usize, run: Run<Seq<char>>) -> bool {
    match r {
        Ok(value) => run == Run::Done(value@, at as nat),
        Err(Halt::Fail(error)) => run == Run::<Seq<char>>::Fail(error@, at as nat),
        Err(Halt::Ask(request)) => run == Run::<Seq<char>>::Ask(request@),
    }
}

/// `told` for a procedure whose result is a list of texts.
pub open spec fn told_lines(r: Result<Vec<String>, Halt>, at: usize, run: Run<Seq<Seq<char>>>) -> bool {
    match r {
        Ok(lines) => run == Run::Done(texts(lines@), at as nat),
        Err(Halt::Fail(error)) => run == Run::<Seq<Seq<char>>>::Fail(error@, at as nat),
        Err(Halt::Ask(request)) => run == Run::<Seq<Seq<char>>>::Ask(request@),
    }
}

/// `told` for a procedure whose result is an optional text.
pub open spec fn told_opt_text(
    r: Result<Option<String>, Halt>,
    at: usize,
    run: Run<Option<Seq<char>>>,
) -> bool {
    match r {
        Ok(text) => run == Run::Done(opt_text(text), at as nat),
        Err(Halt::Fail(error)) => run == Run::<Option<Seq<char>>>::Fail(error@, at as nat),
        Err(Halt::Ask(request)) => run == Run::<Option<Seq<char>>>::Ask(request@),
    }
}

/// `told` for a procedure whose result is a JSON value.
pub open spec fn told_json(r: Result<Json, Halt>, at: usize, run: Run<JsonView>) -> bool {
    match r {
        Ok(value) => run == Run::Done(value@, at as nat),
        Err(Halt::Fail(error)) => run == Run::<JsonView>::Fail(error@, at as nat),
        Err(Halt::Ask(request)) => run == Run::<JsonView>::Ask(request@),
    }
}

/// `told` for a procedure that hands out a JSON value of a reply.
pub open spec fn told_json_ref(r: Result<&Json, Halt>, at: usize, run: Run<JsonView>) -> bool {
    match r {
        Ok(value) => run == Run::Done(value@, at as nat),
        Err(Halt::Fail(error)) => run == Run::<JsonView>::Fail(error@, at as nat),
        Err(Halt::Ask(request)) => run == Run::<JsonView>::Ask(request@),
    }
}

/// The reading of a clock that never goes back.
pub open spec fn clock_run(log: Seq<Reply>, at: nat) -> Run<u64> {
    reply_run(log, at, RequestView::Instant).bind(
        |reply: Reply, n: nat|
            match reply {
                Reply::Number(now) => Run::Done(now, n),
                Reply::Failed(error) => Run::Fail(error@, n),
                _ => Run::Fail(mismatch(), n),
            },
    )
}

/// Reads a clock that never goes back.
pub fn clock(log: &Vec<Reply>, at: &mut usize) -> (r: Result<u64, Halt>)
    requires
        *old(at) <= log.len(),
    ensures
        *final(at) <= log.len(),
        told(r, *final(at), clock_run(log@, *old(at) as nat)),
{
    match ask(log, at, Request::Instant)? {
        Reply::Number(now) => Ok(*now),
        Reply::Failed(error) => Err(Halt::Fail(error.clone())),
        _ => Err(mismatched()),
    }
}

/// A request that is answered with a time.
pub open spec fn time_run(log: Seq<Reply>, at: nat, request: RequestView) -> Run<i64> {
    reply_run(log, at, request).bind(
        |reply: Reply, n: nat|
            match reply {
                Reply::Time(now) => Run::Done(now, n),
                Reply::Failed(error) => Run::Fail(error@, n),
                _ => Run::Fail(mismatch(), n),
            },
    )
}

/// Asks for a time.
pub fn time(log: &Vec<Reply>, at: &mut usize, request: Request) -> (r: Result<i64, Halt>)
    requires
        *old(at) <= log.len(),
    ensures
        *final(at) <= log.len(),
        told(r, *final(at), time_run(log@, *old(at) as nat, request@)),
{
    match ask(log, at, request)? {
        Reply::Time(now) => Ok(*now),
        Reply::Failed(error) => Err(Halt::Fail(error.clone())),
        _ => Err(mismatched()),
    }
}

/// Asks for a credential file, if it is there and valid.
pub fn auth_if_valid<'a>(log: &'a Vec<Reply>, at: &mut usize, path: &str) -> (r: Result<
    Option<&'a AuthDocument>,
    Halt,
>)
    requires
        *old(at) <= log.len(),
    ensures
        *final(at) <= log.len(),
        told_opt(r, *final(at), auth_if_valid_run(log@, *old(at) as nat, path@)),
{
    match auth(log, at, path) {
        Ok(document) => Ok(Some(document)),
        Err(Halt::Fail(_)) => Ok(None),
        Err(Halt::Ask(request)) => Err(Halt::Ask(request)),
    }
}

/// Asks what a path's own entry is.
pub fn entry(log: &Vec<Reply>, at: &mut usize, path: &str) -> (r: Result<EntryKind, Halt>)
    requires
        *old(at) <= log.len(),
    ensures
        *final(at) <= log.len(),
        told(r, *final(at), entry_run(log@, *old(at) as nat, path@)),
{
    match ask(log, at, Request::Entry(path.to_owned()))? {
        Reply::Entry(kind) => Ok(*kind),
        Reply::Failed(error) => Err(Halt::Fail(error.clone())),
        _ => Err(mismatched()),
    }
}

/// Asks for a text file.
pub fn text<'a>(log: &'a Vec<Reply>, at: &mut usize, path: &str) -> (r: Result<
    Option<&'a String>,
    Halt,
>)
    requires
        *old(at) <= log.len(),
    ensures
        *final(at) <= log.len(),
        told_opt(r, *final(at), text_run(log@, *old(at) as nat, path@)),
{
    match ask(log, at, Request::ReadText(path.to_owned()))? {
        Reply::Text(text) => Ok(Some(text)),
        Reply::Missing => Ok(None),
        Reply::Failed(_) => Ok(None),
        _ => Err(mismatched()),
    }
}

/// Asks for the names in a directory.
pub fn names<'a>(log: &'a Vec<Reply>, at: &mut usize, path: &str) -> (r: Result<
    Option<&'a Vec<String>>,
    Halt,
>)
    requires
        *old(at) <= log.len(),
    ensures
        *final(at) <= log.len(),
        told_opt(r, *final(at), names_run(log@, *old(at) as nat, path@)),
{
    match ask(log, at, Request::Names(path.to_owned()))? {
        Reply::Names(names) => Ok(Some(names)),
        Reply::Missing => Ok(None),
        Reply::Failed(error) => Err(Halt::Fail(error.clone())),
        _ => Err(mismatched()),
    }
}

/// Asks for the enrolled accounts.
pub fn profiles<'a>(log: &'a Vec<Reply>, at: &mut usize) -> (r: Result<&'a Vec<Profile>, Halt>)
    requires
        *old(at) <= log.len(),
    ensures
        *final(at) <= log.len(),
        told_ref(r, *final(at), profiles_run(log@, *old(at) as nat)),
{
    match ask(log, at, Request::Profiles)? {
        Reply::Profiles(profiles) => Ok(profiles),
        Reply::Failed(error) => Err(Halt::Fail(error.clone())),
        _ => Err(mismatched()),
    }
}

/// Asks for the recorded transaction.
pub fn state<'a>(log: &'a Vec<Reply>, at: &mut usize, path: &str) -> (r: Result<
    &'a TransactionState,
    Halt,
>)
    requires
        *old(at) <= log.len(),
    ensures
        *final(at) <= log.len(),
        told_ref(r, *final(at), state_run(log@, *old(at) as nat, path@)),
{
    match ask(log, at, Request::ReadState(path.to_owned()))? {
        Reply::State(state) => Ok(state),
        Reply::Failed(error) => Err(Halt::Fail(error.clone())),
        _ => Err(mismatched()),
    }
}

}
