//! Whether a Codex process that may write credentials is running.
use crate::config::Config;
use crate::effects::{
    ask, done, done_run, mismatch, mismatched, reply_run, time, time_run, told, FileId, Halt,
    Reply, Request, RequestView, Run,
};
use crate::paths::{is_absolute, join, joined, rooted};
use crate::text::{
    chars_of, decimal, decimal_text, parse_u32, parse_up_to, parsed, same, split, split_on,
    starts_with, texts, trim, trimmed,
};
use vstd::prelude::*;
use vstd::string::*;
use vstd::utf8::encode_utf8;

verus! {

/// How long a service counts as starting, in nanoseconds.
pub const START_MARKER_TTL: i64 = 120_000_000_000;

/// Whether a process that may write credentials is running.
#[derive(Clone, Copy, PartialEq, Eq, Structural, Debug)]
pub enum WriterStatus {
    Running,
    Stopped,
    Unknown,
}

// ---------------------------------------------------------------- names

/// Whether a process name is one of Codex.
pub open spec fn codex_name(name: Seq<char>) -> bool {
    name == "codex"@ || "codex-"@.is_prefix_of(name)
}

/// Whether a process name is one of Codex.
pub fn codex_process_name(name: &str) -> (r: bool)
    ensures
        r == codex_name(name@),
{
    same(name, "codex") || starts_with(name, "codex-")
}

/// Whether a character has a meaning of its own in a pattern.
pub open spec fn special(c: char) -> bool {
    c == '\\' || c == '.' || c == '^' || c == '$' || c == '|' || c == '(' || c == ')' || c == '['
        || c == ']' || c == '{' || c == '}' || c == '*' || c == '+' || c == '?'
}

/// A pattern that matches just this text.
pub open spec fn escaped(value: Seq<char>) -> Seq<char>
    decreases value.len(),
{
    if value.len() == 0 {
        Seq::empty()
    } else if special(value.last()) {
        escaped(value.drop_last()).push('\\').push(value.last())
    } else {
        escaped(value.drop_last()).push(value.last())
    }
}

/// A pattern that matches just this text.
pub fn regex_escape(value: &str) -> (r: String)
    ensures
        r@ == escaped(value@),
{
    let chars = chars_of(value);
    let mut out = String::new();
    let mut i: usize = 0;
    proof {
        assert(value@.take(0) =~= Seq::<char>::empty());
    }
    while i < chars.len()
        invariant
            i <= chars.len(),
            chars@ == value@,
            out@ == escaped(value@.take(i as int)),
        decreases chars.len() - i,
    {
        proof {
            assert(value@.take(i + 1).drop_last() =~= value@.take(i as int));
        }
        let c = chars[i];
        if c == '\\' || c == '.' || c == '^' || c == '$' || c == '|' || c == '(' || c == ')' || c
            == '[' || c == ']' || c == '{' || c == '}' || c == '*' || c == '+' || c == '?' {
            out.push('\\');
        }
        out.push(c);
        i += 1;
    }
    proof {
        assert(value@.take(i as int) =~= value@);
    }
    out
}

/// The arguments that a command line holds, each ended by a zero byte.
pub open spec fn has_argument(line: Seq<u8>, argument: Seq<u8>) -> bool {
    exists|i: int, j: int|
        0 <= i <= j <= line.len() && is_piece(line, i, j) && #[trigger] line.subrange(i, j)
            == argument
}

/// Whether a stretch of bytes lies between zero bytes, or the ends, and holds none.
pub open spec fn is_piece(line: Seq<u8>, i: int, j: int) -> bool {
    &&& (i == 0 || line[i - 1] == 0)
    &&& (j == line.len() || line[j] == 0)
    &&& forall|k: int| i <= k < j ==> line[k] != 0
}

fn same_bytes(line: &Vec<u8>, from: usize, to: usize, wanted: &Vec<u8>) -> (r: bool)
    requires
        from <= to <= line.len(),
    ensures
        r == (line@.subrange(from as int, to as int) == wanted@),
{
    if to - from != wanted.len() {
        return false;
    }
    let mut k: usize = 0;
    while k < wanted.len()
        invariant
            k <= wanted.len(),
            to - from == wanted.len(),
            from <= to <= line.len(),
            forall|m: int| 0 <= m < k ==> line@[from + m] == wanted@[m],
        decreases wanted.len() - k,
    {
        if line[from + k] != wanted[k] {
            assert(line@.subrange(from as int, to as int)[k as int] != wanted@[k as int]);
            return false;
        }
        k += 1;
    }
    assert(line@.subrange(from as int, to as int) =~= wanted@);
    true
}

/// Whether a command line holds an argument.
pub fn holds_argument(line: &Vec<u8>, argument: &Vec<u8>) -> (r: bool)
    ensures
        r == has_argument(line@, argument@),
{
    let mut start: usize = 0;
    let mut i: usize = 0;
    loop
        invariant
            start <= i <= line.len(),
            start == 0 || line@[start - 1] == 0,
            forall|k: int| start <= k < i ==> line@[k] != 0,
            forall|a: int, b: int|
                0 <= a <= b < start && is_piece(line@, a, b) ==> #[trigger] line@.subrange(a, b)
                    != argument@,
        decreases line.len() - i,
    {
        if i == line.len() || line[i] == 0 {
            if same_bytes(line, start, i, argument) {
                assert(is_piece(line@, start as int, i as int));
                return true;
            }
            proof {
                assert forall|a: int, b: int|
                    0 <= a <= b < i + 1 && b <= line.len() && is_piece(line@, a, b) implies
                    #[trigger] line@.subrange(a, b) != argument@ by {
                    if b >= start {
                        if a < start {
                            assert(line@[start - 1] == 0);
                            assert(a <= start - 1 < b);
                        } else if a > start {
                            assert(line@[a - 1] == 0);
                            assert(start <= a - 1 < i);
                        } else if b < i {
                            assert(line@[b] != 0);
                        }
                    }
                }
            }
            if i == line.len() {
                return false;
            }
            start = i + 1;
        }
        i += 1;
    }
}

// ---------------------------------------------------------------- processes in the file system

/// What the scan has to know.
pub struct Wanted {
    pub user: u32,
    pub own_process: u32,
    pub configured: Option<Seq<char>>,
    pub identity: Option<Option<FileId>>,
}

/// Whether a process is one that may write credentials.
pub enum Finding {
    /// It is.
    Yes,
    /// It is not, or it is gone; `unclear` where something could not be looked at.
    No { unclear: bool },
}

/// Looks at the file that a process runs.
pub open spec fn program_run(log: Seq<Reply>, at: nat, wanted: Wanted, process: Seq<char>, unclear: bool) -> Run<
    Finding,
> {
    match wanted.identity {
        Some(Some(identity)) => reply_run(
            log,
            at,
            RequestView::FileId(joined(process, "exe"@)),
        ).bind(
            |reply: Reply, n: nat|
                match reply {
                    Reply::Id(id) => Run::Done(
                        if id == identity {
                            Finding::Yes
                        } else {
                            Finding::No { unclear }
                        },
                        n,
                    ),
                    Reply::Missing => Run::Done(Finding::No { unclear }, n),
                    Reply::Failed(_) => Run::Done(Finding::No { unclear: true }, n),
                    _ => Run::Fail(mismatch(), n),
                },
        ),
        Some(None) => Run::Done(Finding::No { unclear: true }, at),
        None => Run::Done(Finding::No { unclear }, at),
    }
}

/// Looks at the arguments of a process, where a program is configured.
pub open spec fn arguments_run(
    log: Seq<Reply>,
    at: nat,
    wanted: Wanted,
    process: Seq<char>,
    unclear: bool,
) -> Run<Finding> {
    match wanted.configured {
        None => Run::Done(Finding::No { unclear }, at),
        Some(configured) => reply_run(
            log,
            at,
            RequestView::ReadBytes(joined(process, "cmdline"@)),
        ).bind(
            |reply: Reply, n: nat|
                match reply {
                    Reply::Bytes(line) => if has_argument(line@, encode_utf8(configured)) {
                        Run::Done(Finding::Yes, n)
                    } else {
                        program_run(log, n, wanted, process, unclear)
                    },
                    Reply::Missing => Run::Done(Finding::No { unclear }, n),
                    Reply::Failed(_) => program_run(log, n, wanted, process, true),
                    _ => Run::Fail(mismatch(), n),
                },
        ),
    }
}

/// Looks at the name of a process.
pub open spec fn name_run(log: Seq<Reply>, at: nat, wanted: Wanted, process: Seq<char>) -> Run<
    Finding,
> {
    reply_run(log, at, RequestView::ReadText(joined(process, "comm"@))).bind(
        |reply: Reply, n: nat|
            match reply {
                Reply::Text(name) => if codex_name(trimmed(name@)) {
                    Run::Done(Finding::Yes, n)
                } else {
                    arguments_run(log, n, wanted, process, false)
                },
                Reply::Missing => Run::Done(Finding::No { unclear: false }, n),
                Reply::Failed(_) => arguments_run(log, n, wanted, process, true),
                _ => Run::Fail(mismatch(), n),
            },
    )
}

/// Looks at a process of the user.
pub open spec fn process_run(log: Seq<Reply>, at: nat, wanted: Wanted, process: Seq<char>) -> Run<
    Finding,
> {
    reply_run(log, at, RequestView::OwnerOf(process)).bind(
        |reply: Reply, n: nat|
            match reply {
                Reply::Number(owner) => if owner != wanted.user {
                    Run::Done(Finding::No { unclear: false }, n)
                } else {
                    name_run(log, n, wanted, process)
                },
                Reply::Missing => Run::Done(Finding::No { unclear: false }, n),
                Reply::Failed(_) => Run::Done(Finding::No { unclear: true }, n),
                _ => Run::Fail(mismatch(), n),
            },
    )
}

/// The process that an entry stands for, other than this one.
pub open spec fn entry_process(name: Seq<char>, own_process: u32) -> Option<nat> {
    match parsed(name, u32::MAX as nat) {
        Some(n) if n != own_process => Some(n),
        _ => None,
    }
}

/// Looks at the processes among entries.
pub open spec fn scan_run(
    log: Seq<Reply>,
    at: nat,
    wanted: Wanted,
    root: Seq<char>,
    entries: Seq<Option<String>>,
    unclear: bool,
) -> Run<WriterStatus>
    decreases entries.len(),
{
    if entries.len() == 0 {
        Run::Done(
            if unclear {
                WriterStatus::Unknown
            } else {
                WriterStatus::Stopped
            },
            at,
        )
    } else {
        match entries[0] {
            None => scan_run(log, at, wanted, root, entries.skip(1), true),
            Some(name) => if entry_process(name@, wanted.own_process) is None {
                scan_run(log, at, wanted, root, entries.skip(1), unclear)
            } else {
                process_run(log, at, wanted, joined(root, name@)).bind(
                    |finding: Finding, n: nat|
                        match finding {
                            Finding::Yes => Run::Done(WriterStatus::Running, n),
                            Finding::No { unclear: more } => scan_run(
                                log,
                                n,
                                wanted,
                                root,
                                entries.skip(1),
                                unclear || more,
                            ),
                        },
                )
            },
        }
    }
}

/// Which file is at a path, if that can be found out.
pub open spec fn id_run(log: Seq<Reply>, at: nat, path: Seq<char>) -> Run<Option<FileId>> {
    reply_run(log, at, RequestView::FileId(path)).bind(
        |reply: Reply, n: nat|
            match reply {
                Reply::Id(id) => Run::Done(Some(id), n),
                Reply::Missing | Reply::Failed(_) => Run::Done(None, n),
                _ => Run::Fail(mismatch(), n),
            },
    )
}

/// Looks for Codex among the processes that a directory lists.
pub open spec fn proc_run(
    log: Seq<Reply>,
    at: nat,
    root: Seq<char>,
    user: u32,
    own_process: u32,
    configured: Option<Seq<char>>,
) -> Run<WriterStatus> {
    if configured matches Some(path) && !rooted(path) {
        Run::Done(WriterStatus::Unknown, at)
    } else {
        reply_run(log, at, RequestView::Listing(root)).bind(
            |reply: Reply, n: nat|
                match reply {
                    Reply::Listing(entries) => match configured {
                        Some(path) => id_run(log, n, path).bind(
                            |identity: Option<FileId>, m: nat|
                                scan_run(
                                    log,
                                    m,
                                    Wanted {
                                        user,
                                        own_process,
                                        configured,
                                        identity: Some(identity),
                                    },
                                    root,
                                    entries@,
                                    false,
                                ),
                        ),
                        None => scan_run(
                            log,
                            n,
                            Wanted { user, own_process, configured, identity: None },
                            root,
                            entries@,
                            false,
                        ),
                    },
                    Reply::Missing | Reply::Failed(_) => Run::Done(WriterStatus::Unknown, n),
                    _ => Run::Fail(mismatch(), n),
                },
        )
    }
}

/// What the scan has to know, in executable form.
struct Search<'a> {
    user: u32,
    own_process: u32,
    configured: Option<&'a String>,
    identity: Option<Option<FileId>>,
}

impl<'a> Search<'a> {
    spec fn wanted(&self) -> Wanted {
        Wanted {
            user: self.user,
            own_process: self.own_process,
            configured: match self.configured {
                Some(text) => Some(text@),
                None => None,
            },
            identity: self.identity,
        }
    }
}

fn look_at_program(
    search: &Search,
    process: &str,
    unclear: bool,
    log: &Vec<Reply>,
    at: &mut usize,
) -> (r: Result<Finding, Halt>)
    requires
        *old(at) <= log.len(),
    ensures
        *final(at) <= log.len(),
        told(
            r,
            *final(at),
            program_run(log@, *old(at) as nat, search.wanted(), process@, unclear),
        ),
{
    match search.identity {
        Some(Some(identity)) => match ask(log, at, Request::FileId(join(process, "exe")))? {
            Reply::Id(id) => if *id == identity {
                Ok(Finding::Yes)
            } else {
                Ok(Finding::No { unclear })
            },
            Reply::Missing => Ok(Finding::No { unclear }),
            Reply::Failed(_) => Ok(Finding::No { unclear: true }),
            _ => Err(mismatched()),
        },
        Some(None) => Ok(Finding::No { unclear: true }),
        None => Ok(Finding::No { unclear }),
    }
}

fn look_at_arguments(
    search: &Search,
    process: &str,
    unclear: bool,
    log: &Vec<Reply>,
    at: &mut usize,
) -> (r: Result<Finding, Halt>)
    requires
        *old(at) <= log.len(),
    ensures
        *final(at) <= log.len(),
        told(
            r,
            *final(at),
            arguments_run(log@, *old(at) as nat, search.wanted(), process@, unclear),
        ),
{
    let configured = match search.configured {
        Some(configured) => configured,
        None => return Ok(Finding::No { unclear }),
    };
    match ask(log, at, Request::ReadBytes(join(process, "cmdline")))? {
        Reply::Bytes(line) => if holds_argument(line, &configured.as_str().as_bytes_vec()) {
            Ok(Finding::Yes)
        } else {
            look_at_program(search, process, unclear, log, at)
        },
        Reply::Missing => Ok(Finding::No { unclear }),
        Reply::Failed(_) => look_at_program(search, process, true, log, at),
        _ => Err(mismatched()),
    }
}

fn look_at_process(search: &Search, process: &str, log: &Vec<Reply>, at: &mut usize) -> (r: Result<
    Finding,
    Halt,
>)
    requires
        *old(at) <= log.len(),
    ensures
        *final(at) <= log.len(),
        told(r, *final(at), process_run(log@, *old(at) as nat, search.wanted(), process@)),
{
    match ask(log, at, Request::OwnerOf(process.to_owned()))? {
        Reply::Number(owner) => {
            if *owner != search.user as u64 {
                return Ok(Finding::No { unclear: false });
            }
        },
        Reply::Missing => {
            return Ok(Finding::No { unclear: false });
        },
        Reply::Failed(_) => {
            return Ok(Finding::No { unclear: true });
        },
        _ => {
            return Err(mismatched());
        },
    }
    match ask(log, at, Request::ReadText(join(process, "comm")))? {
        Reply::Text(name) => if codex_process_name(&trim(name)) {
            Ok(Finding::Yes)
        } else {
            look_at_arguments(search, process, false, log, at)
        },
        Reply::Missing => Ok(Finding::No { unclear: false }),
        Reply::Failed(_) => look_at_arguments(search, process, true, log, at),
        _ => Err(mismatched()),
    }
}

fn scan(
    search: &Search,
    root: &str,
    entries: &Vec<Option<String>>,
    log: &Vec<Reply>,
    at: &mut usize,
) -> (r: Result<WriterStatus, Halt>)
    requires
        *old(at) <= log.len(),
    ensures
        *final(at) <= log.len(),
        told(
            r,
            *final(at),
            scan_run(log@, *old(at) as nat, search.wanted(), root@, entries@, false),
        ),
{
    let mut unclear = false;
    let mut i: usize = 0;
    proof {
        assert(entries@.skip(0) =~= entries@);
    }
    while i < entries.len()
        invariant
            *at <= log.len(),
            i <= entries.len(),
            scan_run(log@, *old(at) as nat, search.wanted(), root@, entries@, false) == scan_run(
                log@,
                *at as nat,
                search.wanted(),
                root@,
                entries@.skip(i as int),
                unclear,
            ),
        decreases entries.len() - i,
    {
        proof {
            assert(entries@.skip(i as int)[0] == entries@[i as int]);
            assert(entries@.skip(i as int).skip(1) =~= entries@.skip(i + 1));
        }
        match &entries[i] {
            None => {
                unclear = true;
            },
            Some(name) => {
                let other = match parse_u32(name) {
                    Some(process) => process != search.own_process,
                    None => false,
                };
                if other {
                    match look_at_process(search, &join(root, name), log, at)? {
                        Finding::Yes => {
                            return Ok(WriterStatus::Running);
                        },
                        Finding::No { unclear: more } => {
                            unclear = unclear || more;
                        },
                    }
                }
            },
        }
        i += 1;
    }
    if unclear {
        Ok(WriterStatus::Unknown)
    } else {
        Ok(WriterStatus::Stopped)
    }
}

pub open spec fn opt_ref(value: Option<&String>) -> Option<Seq<char>> {
    match value {
        Some(text) => Some(text@),
        None => None,
    }
}

fn identify(path: &str, log: &Vec<Reply>, at: &mut usize) -> (r: Result<Option<FileId>, Halt>)
    requires
        *old(at) <= log.len(),
    ensures
        *final(at) <= log.len(),
        told(r, *final(at), id_run(log@, *old(at) as nat, path@)),
{
    match ask(log, at, Request::FileId(path.to_owned()))? {
        Reply::Id(id) => Ok(Some(*id)),
        Reply::Missing => Ok(None),
        Reply::Failed(_) => Ok(None),
        _ => Err(mismatched()),
    }
}

/// Looks for Codex among the processes that a directory lists: by their names, by their
/// arguments, and by the program they run. What cannot be looked at leaves the matter open,
/// unless it is gone.
pub fn proc_writer_status(
    root: &str,
    user: u32,
    own_process: u32,
    configured: Option<&String>,
    log: &Vec<Reply>,
    at: &mut usize,
) -> (r: Result<WriterStatus, Halt>)
    requires
        *old(at) <= log.len(),
    ensures
        *final(at) <= log.len(),
        told(
            r,
            *final(at),
            proc_run(
                log@,
                *old(at) as nat,
                root@,
                user,
                own_process,
                opt_ref(configured),
            ),
        ),
{
    if let Some(path) = configured {
        if !is_absolute(path) {
            return Ok(WriterStatus::Unknown);
        }
    }
    match ask(log, at, Request::Listing(root.to_owned()))? {
        Reply::Listing(entries) => {
            let identity: Option<Option<FileId>> = match configured {
                Some(path) => Some(identify(path, log, at)?),
                None => None,
            };
            let search = Search { user, own_process, configured, identity };
            scan(&search, root, entries, log, at)
        },
        Reply::Missing => Ok(WriterStatus::Unknown),
        Reply::Failed(_) => Ok(WriterStatus::Unknown),
        _ => Err(mismatched()),
    }
}

// ---------------------------------------------------------------- processes by `pgrep`

/// What `pgrep` came to: the code it ended with and what it printed; `None` where it did not run.
pub open spec fn pgrep_run(log: Seq<Reply>, at: nat, arguments: Seq<Seq<char>>) -> Run<
    Option<(Option<i32>, String)>,
> {
    reply_run(log, at, RequestView::Pgrep(arguments)).bind(
        |reply: Reply, n: nat|
            match reply {
                Reply::Program { code, output } => Run::Done(Some((code, output)), n),
                Reply::Failed(_) => Run::Done(None, n),
                _ => Run::Fail(mismatch(), n),
            },
    )
}

/// What the outcome of `pgrep` says.
pub open spec fn pgrep_verdict(outcome: Option<(Option<i32>, String)>) -> WriterStatus {
    match outcome {
        Some((Some(code), _)) => if code == 0 {
            WriterStatus::Running
        } else if code == 1 {
            WriterStatus::Stopped
        } else {
            WriterStatus::Unknown
        },
        _ => WriterStatus::Unknown,
    }
}

/// The arguments for a search among a user's processes.
pub open spec fn pgrep_arguments(user: u32, name_only: bool, pattern: Seq<char>) -> Seq<Seq<char>> {
    seq![
        "-u"@,
        decimal_text(user as nat),
        if name_only {
            "-x"@
        } else {
            "-f"@
        },
        pattern,
    ]
}

/// Searches among a user's processes.
pub open spec fn search_run(
    log: Seq<Reply>,
    at: nat,
    user: u32,
    pattern: Seq<char>,
    name_only: bool,
) -> Run<WriterStatus> {
    pgrep_run(log, at, pgrep_arguments(user, name_only, pattern)).bind(
        |outcome: Option<(Option<i32>, String)>, n: nat| Run::Done(pgrep_verdict(outcome), n),
    )
}

/// Searches among a user's processes.
pub fn pgrep_status(
    user: u32,
    pattern: &str,
    name_only: bool,
    log: &Vec<Reply>,
    at: &mut usize,
) -> (r: Result<WriterStatus, Halt>)
    requires
        *old(at) <= log.len(),
    ensures
        *final(at) <= log.len(),
        told(r, *final(at), search_run(log@, *old(at) as nat, user, pattern@, name_only)),
{
    let scope = if name_only {
        "-x"
    } else {
        "-f"
    };
    let mut arguments: Vec<String> = Vec::new();
    arguments.push("-u".to_owned());
    arguments.push(decimal(user as u64));
    arguments.push(scope.to_owned());
    arguments.push(pattern.to_owned());
    proof {
        assert(texts(arguments@) =~= pgrep_arguments(user, name_only, pattern@));
    }
    match ask(log, at, Request::Pgrep(arguments))? {
        Reply::Program { code, .. } => match code {
            Some(code) => if *code == 0 {
                Ok(WriterStatus::Running)
            } else if *code == 1 {
                Ok(WriterStatus::Stopped)
            } else {
                Ok(WriterStatus::Unknown)
            },
            None => Ok(WriterStatus::Unknown),
        },
        Reply::Failed(_) => Ok(WriterStatus::Unknown),
        _ => Err(mismatched()),
    }
}

/// The number of a process that a line holds.
pub open spec fn line_process(line: Seq<char>) -> Option<int> {
    let text = trimmed(line);
    if "-"@.is_prefix_of(text) {
        let rest = text.skip(1);
        if "+"@.is_prefix_of(rest) {
            None
        } else {
            match parsed(rest, 0x8000_0000) {
                Some(n) => Some(-(n as int)),
                None => None,
            }
        }
    } else {
        match parsed(text, 0x7fff_ffff) {
            Some(n) => Some(n as int),
            None => None,
        }
    }
}

fn process_of(line: &str) -> (r: Option<i64>)
    ensures
        match r {
            Some(n) => line_process(line@) == Some(n as int),
            None => line_process(line@) is None,
        },
{
    let text = trim(line);
    proof {
        reveal_strlit("-");
    }
    match crate::text::strip_prefix(&text, "-") {
        Some(rest) => if starts_with(&rest, "+") {
            None
        } else {
            match parse_up_to(&rest, 0x8000_0000) {
                Some(n) => Some(-(n as i64)),
                None => None,
            }
        },
        None => match parse_up_to(&text, 0x7fff_ffff) {
            Some(n) => Some(n as i64),
            None => None,
        },
    }
}

/// Looks at the programs of processes, one line for each.
pub open spec fn programs_run(
    log: Seq<Reply>,
    at: nat,
    configured: FileId,
    own_process: u32,
    lines: Seq<Seq<char>>,
    unclear: bool,
) -> Run<WriterStatus>
    decreases lines.len(),
{
    if lines.len() == 0 {
        Run::Done(
            if unclear {
                WriterStatus::Unknown
            } else {
                WriterStatus::Stopped
            },
            at,
        )
    } else {
        match line_process(lines[0]) {
            None => programs_run(log, at, configured, own_process, lines.skip(1), unclear),
            Some(process) => if process == own_process {
                programs_run(log, at, configured, own_process, lines.skip(1), unclear)
            } else {
                reply_run(log, at, RequestView::ProgramOf(process as i64)).bind(
                    |reply: Reply, n: nat|
                        match reply {
                            Reply::Text(path) => reply_run(
                                log,
                                n,
                                RequestView::FileId(path@),
                            ).bind(
                                |found: Reply, m: nat|
                                    match found {
                                        Reply::Id(id) => if id == configured {
                                            Run::Done(WriterStatus::Running, m)
                                        } else {
                                            programs_run(
                                                log,
                                                m,
                                                configured,
                                                own_process,
                                                lines.skip(1),
                                                unclear,
                                            )
                                        },
                                        Reply::Missing => programs_run(
                                            log,
                                            m,
                                            configured,
                                            own_process,
                                            lines.skip(1),
                                            unclear,
                                        ),
                                        Reply::Failed(_) => programs_run(
                                            log,
                                            m,
                                            configured,
                                            own_process,
                                            lines.skip(1),
                                            true,
                                        ),
                                        _ => Run::Fail(mismatch(), m),
                                    },
                            ),
                            Reply::Missing => programs_run(
                                log,
                                n,
                                configured,
                                own_process,
                                lines.skip(1),
                                unclear,
                            ),
                            Reply::Failed(_) => programs_run(
                                log,
                                n,
                                configured,
                                own_process,
                                lines.skip(1),
                                true,
                            ),
                            _ => Run::Fail(mismatch(), n),
                        },
                )
            },
        }
    }
}

/// Looks for a program among all processes of a user, by the file that they run.
pub open spec fn configured_run(
    log: Seq<Reply>,
    at: nat,
    configured: Seq<char>,
    user: u32,
    own_process: u32,
) -> Run<WriterStatus> {
    id_run(log, at, configured).bind(
        |identity: Option<FileId>, n: nat|
            match identity {
                None => Run::Done(WriterStatus::Unknown, n),
                Some(identity) => pgrep_run(
                    log,
                    n,
                    seq!["-u"@, decimal_text(user as nat), "."@],
                ).bind(
                    |outcome: Option<(Option<i32>, String)>, m: nat|
                        match outcome {
                            Some((Some(0), output)) => programs_run(
                                log,
                                m,
                                identity,
                                own_process,
                                split_on(output@, '\n'),
                                false,
                            ),
                            _ => Run::Done(pgrep_verdict(outcome), m),
                        },
                ),
            },
    )
}

fn look_at_programs(
    configured: FileId,
    own_process: u32,
    output: &str,
    log: &Vec<Reply>,
    at: &mut usize,
) -> (r: Result<WriterStatus, Halt>)
    requires
        *old(at) <= log.len(),
    ensures
        *final(at) <= log.len(),
        told(
            r,
            *final(at),
            programs_run(
                log@,
                *old(at) as nat,
                configured,
                own_process,
                split_on(output@, '\n'),
                false,
            ),
        ),
{
    let lines = split(output, '\n');
    let ghost all = split_on(output@, '\n');
    let mut unclear = false;
    let mut i: usize = 0;
    proof {
        assert(all.skip(0) =~= all);
    }
    while i < lines.len()
        invariant
            *at <= log.len(),
            i <= lines.len(),
            all == texts(lines@),
            all == split_on(output@, '\n'),
            programs_run(log@, *old(at) as nat, configured, own_process, all, false)
                == programs_run(
                log@,
                *at as nat,
                configured,
                own_process,
                all.skip(i as int),
                unclear,
            ),
        decreases lines.len() - i,
    {
        proof {
            assert(all.skip(i as int)[0] == lines@[i as int]@);
            assert(all.skip(i as int).skip(1) =~= all.skip(i + 1));
        }
        if let Some(process) = process_of(&lines[i]) {
            if process != own_process as i64 {
                match ask(log, at, Request::ProgramOf(process))? {
                    Reply::Text(path) => match ask(log, at, Request::FileId(path.clone()))? {
                        Reply::Id(id) => {
                            if *id == configured {
                                return Ok(WriterStatus::Running);
                            }
                        },
                        Reply::Missing => {},
                        Reply::Failed(_) => {
                            unclear = true;
                        },
                        _ => {
                            return Err(mismatched());
                        },
                    },
                    Reply::Missing => {},
                    Reply::Failed(_) => {
                        unclear = true;
                    },
                    _ => {
                        return Err(mismatched());
                    },
                }
            }
        }
        i += 1;
    }
    if unclear {
        Ok(WriterStatus::Unknown)
    } else {
        Ok(WriterStatus::Stopped)
    }
}

/// Looks for a program among all processes of a user, by the file that they run.
pub fn macos_configured_writer_status(
    configured: &str,
    user: u32,
    own_process: u32,
    log: &Vec<Reply>,
    at: &mut usize,
) -> (r: Result<WriterStatus, Halt>)
    requires
        *old(at) <= log.len(),
    ensures
        *final(at) <= log.len(),
        told(
            r,
            *final(at),
            configured_run(log@, *old(at) as nat, configured@, user, own_process),
        ),
{
    let identity = match identify(configured, log, at)? {
        Some(identity) => identity,
        None => return Ok(WriterStatus::Unknown),
    };
    let mut arguments: Vec<String> = Vec::new();
    arguments.push("-u".to_owned());
    arguments.push(decimal(user as u64));
    arguments.push(".".to_owned());
    proof {
        assert(texts(arguments@) =~= seq!["-u"@, decimal_text(user as nat), "."@]);
    }
    match ask(log, at, Request::Pgrep(arguments))? {
        Reply::Program { code, output } => match code {
            Some(code) => if *code == 0 {
                look_at_programs(identity, own_process, output, log, at)
            } else if *code == 1 {
                Ok(WriterStatus::Stopped)
            } else {
                Ok(WriterStatus::Unknown)
            },
            None => Ok(WriterStatus::Unknown),
        },
        Reply::Failed(_) => Ok(WriterStatus::Unknown),
        _ => Err(mismatched()),
    }
}

/// What two searches say together.
pub open spec fn both(a: WriterStatus, b: WriterStatus) -> WriterStatus {
    if a == WriterStatus::Running || b == WriterStatus::Running {
        WriterStatus::Running
    } else if a == WriterStatus::Stopped && b == WriterStatus::Stopped {
        WriterStatus::Stopped
    } else {
        WriterStatus::Unknown
    }
}

/// A pattern for a command line with this program in it.
pub open spec fn program_pattern(path: Seq<char>) -> Seq<char> {
    "(^|[[:space:]])"@ + escaped(path) + "([[:space:]]|$)"@
}

/// Searches for Codex by its name, and for the configured program.
pub open spec fn pgrep_writer_run(
    log: Seq<Reply>,
    at: nat,
    config: Config,
    user: u32,
    own_process: u32,
    macos: bool,
) -> Run<WriterStatus> {
    search_run(log, at, user, "codex(-.*)?"@, true).bind(
        |named: WriterStatus, n: nat|
            match config.codex_binary {
                None => Run::Done(named, n),
                Some(configured) => if !rooted(configured@) {
                    Run::Done(WriterStatus::Unknown, n)
                } else {
                    (if macos {
                        configured_run(log, n, configured@, user, own_process)
                    } else {
                        search_run(log, n, user, program_pattern(configured@), false)
                    }).bind(
                        |found: WriterStatus, m: nat| Run::Done(both(named, found), m),
                    )
                },
            },
    )
}

/// Searches for Codex by its name, and for the configured program.
pub fn pgrep_writer_status(
    config: &Config,
    user: u32,
    own_process: u32,
    macos: bool,
    log: &Vec<Reply>,
    at: &mut usize,
) -> (r: Result<WriterStatus, Halt>)
    requires
        *old(at) <= log.len(),
    ensures
        *final(at) <= log.len(),
        told(
            r,
            *final(at),
            pgrep_writer_run(log@, *old(at) as nat, *config, user, own_process, macos),
        ),
{
    let named = pgrep_status(user, "codex(-.*)?", true, log, at)?;
    let configured = match &config.codex_binary {
        Some(configured) => configured,
        None => return Ok(named),
    };
    if !is_absolute(configured) {
        return Ok(WriterStatus::Unknown);
    }
    let found = if macos {
        macos_configured_writer_status(configured, user, own_process, log, at)?
    } else {
        let pattern = "(^|[[:space:]])".to_owned().concat(&regex_escape(configured)).concat(
            "([[:space:]]|$)",
        );
        pgrep_status(user, &pattern, false, log, at)?
    };
    if named == WriterStatus::Running || found == WriterStatus::Running {
        Ok(WriterStatus::Running)
    } else if named == WriterStatus::Stopped && found == WriterStatus::Stopped {
        Ok(WriterStatus::Stopped)
    } else {
        Ok(WriterStatus::Unknown)
    }
}

// ---------------------------------------------------------------- all of it

/// How processes are looked for on this system.
#[derive(Clone, Copy, PartialEq, Eq, Structural, Debug)]
pub struct System {
    pub user: u32,
    pub own_process: u32,
    /// Processes are listed in the file system.
    pub lists_processes: bool,
    pub macos: bool,
}

/// Whether a process that may write credentials is running.
pub open spec fn status_run(log: Seq<Reply>, at: nat, config: Config, system: System) -> Run<
    WriterStatus,
> {
    if system.lists_processes {
        proc_run(
            log,
            at,
            "/proc"@,
            system.user,
            system.own_process,
            crate::text::opt_text(config.codex_binary),
        )
    } else {
        pgrep_writer_run(log, at, config, system.user, system.own_process, system.macos)
    }
}

/// Whether a process that may write credentials is running.
pub fn codex_writer_status(config: &Config, system: System, log: &Vec<Reply>, at: &mut usize) -> (r:
    Result<WriterStatus, Halt>)
    requires
        *old(at) <= log.len(),
    ensures
        *final(at) <= log.len(),
        told(r, *final(at), status_run(log@, *old(at) as nat, *config, system)),
{
    if system.lists_processes {
        let configured = match &config.codex_binary {
            Some(configured) => Some(configured),
            None => None,
        };
        proc_writer_status("/proc", system.user, system.own_process, configured, log, at)
    } else {
        pgrep_writer_status(
            config,
            system.user,
            system.own_process,
            system.macos,
            log,
            at,
        )
    }
}

/// Whether a marker written at `created` seconds still holds at `now` nanoseconds.
pub open spec fn marker_holds(created: nat, now: i64) -> bool {
    0 <= now - created * 1_000_000_000 < START_MARKER_TTL
}

/// Whether a service is about to start.
pub open spec fn marker_run(log: Seq<Reply>, at: nat, config: Config) -> Run<bool> {
    crate::effects::text_run(log, at, config.server_start_marker@).bind(
        |found: Option<String>, n: nat|
            match found {
                None => Run::Done(false, n),
                Some(text) => match parsed(trimmed(text@), u64::MAX as nat) {
                    None => Run::Done(false, n),
                    Some(created) => time_run(log, n, RequestView::Nanos).bind(
                        |now: i64, m: nat| Run::Done(marker_holds(created, now), m),
                    ),
                },
            },
    )
}

/// Whether a service is about to start.
pub fn start_marker_active(config: &Config, log: &Vec<Reply>, at: &mut usize) -> (r: Result<
    bool,
    Halt,
>)
    requires
        *old(at) <= log.len(),
    ensures
        *final(at) <= log.len(),
        told(r, *final(at), marker_run(log@, *old(at) as nat, *config)),
{
    let text = match crate::effects::text(log, at, &config.server_start_marker)? {
        Some(text) => text,
        None => return Ok(false),
    };
    let created: u64 = match parse_up_to(&trim(text), 0xffff_ffff_ffff_ffff) {
        Some(created) => created,
        None => return Ok(false),
    };
    let now: i64 = time(log, at, Request::Nanos)?;
    let age: i128 = now as i128 - created as i128 * 1_000_000_000;
    Ok(age >= 0 && age < START_MARKER_TTL as i128)
}

/// Whether credentials may be written by others: a process that may do so is running, or cannot
/// be ruled out, or is about to start.
pub open spec fn writers_run(log: Seq<Reply>, at: nat, config: Config, system: System) -> Run<bool> {
    status_run(log, at, config, system).bind(
        |status: WriterStatus, n: nat|
            if status != WriterStatus::Stopped {
                Run::Done(true, n)
            } else {
                marker_run(log, n, config)
            },
    )
}

/// Whether credentials may be written by others: a process that may do so is running, or cannot
/// be ruled out, or is about to start.
pub fn writers_running(config: &Config, system: System, log: &Vec<Reply>, at: &mut usize) -> (r:
    Result<bool, Halt>)
    requires
        *old(at) <= log.len(),
    ensures
        *final(at) <= log.len(),
        told(r, *final(at), writers_run(log@, *old(at) as nat, *config, system)),
{
    if codex_writer_status(config, system, log, at)? != WriterStatus::Stopped {
        return Ok(true);
    }
    start_marker_active(config, log, at)
}

/// Marks that a service is about to start.
pub open spec fn mark_run(log: Seq<Reply>, at: nat, config: Config) -> Run<()> {
    time_run(log, at, RequestView::Now).bind(
        |now: i64, n: nat|
            done_run(
                log,
                n,
                RequestView::Write {
                    path: config.server_start_marker@,
                    bytes: encode_utf8(
                        decimal_text(
                            (if now < 0 {
                                0
                            } else {
                                now as int
                            }) as nat,
                        ) + "\n"@,
                    ),
                },
            ),
    )
}

/// Marks that a service is about to start.
pub fn mark_service_starting(config: &Config, log: &Vec<Reply>, at: &mut usize) -> (r: Result<
    (),
    Halt,
>)
    requires
        *old(at) <= log.len(),
    ensures
        *final(at) <= log.len(),
        told(r, *final(at), mark_run(log@, *old(at) as nat, *config)),
{
    let now: i64 = time(log, at, Request::Now)?;
    let seconds: u64 = if now < 0 {
        0
    } else {
        now as u64
    };
    let text = decimal(seconds).concat("\n");
    done(
        log,
        at,
        Request::Write {
            path: config.server_start_marker.clone(),
            bytes: text.as_str().as_bytes_vec(),
        },
    )
}

// ---------------------------------------------------------------- laws

proof fn lemma_unclear_stays(
    log: Seq<Reply>,
    at: nat,
    wanted: Wanted,
    root: Seq<char>,
    entries: Seq<Option<String>>,
)
    ensures
        scan_run(log, at, wanted, root, entries, true) matches Run::Done(status, _) ==> status
            != WriterStatus::Stopped,
    decreases entries.len(),
{
    if entries.len() > 0 {
        lemma_unclear_stays(log, at, wanted, root, entries.skip(1));
        if let Some(name) = entries[0] {
            if let Run::Done(finding, n) = process_run(log, at, wanted, joined(root, name@)) {
                lemma_unclear_stays(log, n, wanted, root, entries.skip(1));
            }
        }
    }
}

/// Whether every entry could be looked at, and none of them is a process that may write.
pub open spec fn all_clear(
    log: Seq<Reply>,
    at: nat,
    wanted: Wanted,
    root: Seq<char>,
    entries: Seq<Option<String>>,
) -> bool
    decreases entries.len(),
{
    entries.len() > 0 ==> match entries[0] {
        None => false,
        Some(name) => if entry_process(name@, wanted.own_process) is None {
            all_clear(log, at, wanted, root, entries.skip(1))
        } else {
            process_run(log, at, wanted, joined(root, name@)) matches Run::Done(finding, n)
                && finding == (Finding::No { unclear: false }) && all_clear(
                log,
                n,
                wanted,
                root,
                entries.skip(1),
            )
        },
    }
}

/// Codex is taken for stopped only where every entry could be looked at and none of them is a
/// process that may write: doubt about any of them is enough not to.
pub proof fn law_doubt_is_never_stopped(
    log: Seq<Reply>,
    at: nat,
    wanted: Wanted,
    root: Seq<char>,
    entries: Seq<Option<String>>,
)
    ensures
        (scan_run(log, at, wanted, root, entries, false) matches Run::Done(status, _) && status
            == WriterStatus::Stopped) <==> all_clear(log, at, wanted, root, entries),
        all_clear(log, at, wanted, root, entries) ==> forall|i: int|
            0 <= i < entries.len() ==> #[trigger] entries[i] is Some,
    decreases entries.len(),
{
    if entries.len() > 0 {
        let rest = entries.skip(1);
        lemma_unclear_stays(log, at, wanted, root, rest);
        law_doubt_is_never_stopped(log, at, wanted, root, rest);
        if let Some(name) = entries[0] {
            if let Run::Done(finding, n) = process_run(log, at, wanted, joined(root, name@)) {
                lemma_unclear_stays(log, n, wanted, root, rest);
                law_doubt_is_never_stopped(log, n, wanted, root, rest);
            }
        }
        assert(all_clear(log, at, wanted, root, entries) ==> forall|i: int|
            0 <= i < entries.len() ==> #[trigger] entries[i] is Some) by {
            assert forall|i: int|
                0 <= i < entries.len() && all_clear(
                    log,
                    at,
                    wanted,
                    root,
                    entries,
                ) implies #[trigger] entries[i] is Some by {
                if i > 0 {
                    assert(rest[i - 1] == entries[i]);
                }
            }
        }
    }
}

/// Two searches say that Codex is stopped only where each of them says so.
pub proof fn law_both_have_to_say_stopped(a: WriterStatus, b: WriterStatus)
    ensures
        both(a, b) == WriterStatus::Stopped <==> a == WriterStatus::Stopped && b
            == WriterStatus::Stopped,
        both(a, b) == both(b, a),
{
}

}
