//! What is known of the processes that may be writing credentials.
use crate::config::Config;
use crate::effects::{FileId, Reply, RequestView, Run};
use crate::paths::{joined, rooted};
use crate::process::{
    codex_name, entry_process, escaped, has_argument, is_piece, line_process, mark_run, marker_run,
    pgrep_writer_run, proc_run, process_run, programs_run, scan_run, status_run, writers_run,
    Finding, System, Wanted, WriterStatus,
};
use crate::text::{decimal_text, parsed, trimmed};
use vstd::prelude::*;
use vstd::utf8::encode_utf8;

verus! {

/// A program is Codex by its name where that is `codex`, or `codex-` with anything after it.
pub proof fn law_programs_of_codex(name: Seq<char>)
    ensures
        codex_name(name) <==> name == "codex"@ || exists|rest: Seq<char>|
            name == "codex-"@ + rest,
{
    if "codex-"@.is_prefix_of(name) {
        assert(name =~= "codex-"@ + name.skip("codex-"@.len() as int));
    }
    if exists|rest: Seq<char>| name == "codex-"@ + rest {
        let rest = choose|rest: Seq<char>| name == "codex-"@ + rest;
        assert(name.take("codex-"@.len() as int) =~= "codex-"@);
        assert("codex-"@.is_prefix_of(name));
    }
}

/// Whether a process was looked at, and is for certain not one that counts.
pub open spec fn cleared(log: Seq<Reply>, wanted: Wanted, process: Seq<char>) -> bool {
    exists|k: nat|
        #[trigger] process_run(log, k, wanted, process) matches Run::Done(finding, _) && finding == (
        Finding::No { unclear: false })
}

/// Whether a process was looked at, and counts.
pub open spec fn counted(log: Seq<Reply>, wanted: Wanted, process: Seq<char>) -> bool {
    exists|k: nat|
        #[trigger] process_run(log, k, wanted, process) matches Run::Done(finding, _) && finding
            == Finding::Yes
}

/// Whether an entry of the list of processes names a process other than the own one.
pub open spec fn another_process(entry: Option<String>, own_process: u32) -> bool {
    entry matches Some(name) && parsed(name@, u32::MAX as nat) is Some && parsed(
        name@,
        u32::MAX as nat,
    )->0 != own_process
}

proof fn lemma_scan(
    log: Seq<Reply>,
    at: nat,
    wanted: Wanted,
    root: Seq<char>,
    entries: Seq<Option<String>>,
    unclear: bool,
)
    ensures
        scan_run(log, at, wanted, root, entries, unclear) matches Run::Done(status, _) ==> ({
            &&& status == WriterStatus::Stopped ==> !unclear && forall|i: int|
                0 <= i < entries.len() ==> (#[trigger] entries[i]) is Some && (another_process(
                    entries[i],
                    wanted.own_process,
                ) ==> cleared(log, wanted, joined(root, entries[i]->0@)))
            &&& status == WriterStatus::Running ==> exists|i: int|
                0 <= i < entries.len() && another_process(
                    #[trigger] entries[i],
                    wanted.own_process,
                ) && counted(log, wanted, joined(root, entries[i]->0@))
        }),
    decreases entries.len(),
{
    if entries.len() > 0 {
        let rest = entries.skip(1);
        let (next, more) = match entries[0] {
            None => (at, true),
            Some(name) => if entry_process(name@, wanted.own_process) is None {
                (at, unclear)
            } else {
                match process_run(log, at, wanted, joined(root, name@)) {
                    Run::Done(Finding::No { unclear: doubt }, n) => (n, unclear || doubt),
                    _ => (at, unclear),
                }
            },
        };
        lemma_scan(log, next, wanted, root, rest, more);
        let run = scan_run(log, at, wanted, root, entries, unclear);
        if let Run::Done(status, m) = run {
            if status == WriterStatus::Stopped {
                assert(scan_run(log, next, wanted, root, rest, more) == run);
                assert forall|i: int| 0 <= i < entries.len() implies (#[trigger] entries[i]) is Some
                    && (another_process(entries[i], wanted.own_process) ==> cleared(
                    log,
                    wanted,
                    joined(root, entries[i]->0@),
                )) by {
                    if i > 0 {
                        assert(rest[i - 1] == entries[i]);
                    }
                }
            }
            if status == WriterStatus::Running {
                if entries[0] is Some && entry_process(entries[0]->0@, wanted.own_process) is Some
                    && (process_run(log, at, wanted, joined(root, entries[0]->0@)) matches Run::Done(
                    finding,
                    _,
                ) && finding == Finding::Yes) {
                    assert(counted(log, wanted, joined(root, entries[0]->0@)));
                } else {
                    let i = choose|i: int|
                        0 <= i < rest.len() && another_process(
                            #[trigger] rest[i],
                            wanted.own_process,
                        ) && counted(log, wanted, joined(root, rest[i]->0@));
                    assert(rest[i] == entries[i + 1]);
                }
            }
        }
    }
}

/// Nothing is said to be stopped before every other process of the list was looked at and found not
/// to count, wherever it is in the list; and nothing is said to be running unless one was found.
pub proof fn law_every_process_is_looked_at(
    log: Seq<Reply>,
    at: nat,
    root: Seq<char>,
    user: u32,
    own_process: u32,
    configured: Option<Seq<char>>,
    entries: Vec<Option<String>>,
    identity: Option<FileId>,
)
    requires
        log.len() > at + 1,
        log[at as int] == Reply::Listing(entries),
        configured is Some ==> log[at as int + 1] == (match identity {
            Some(id) => Reply::Id(id),
            None => Reply::Missing,
        }),
    ensures
        ({
            let wanted = Wanted {
                user,
                own_process,
                configured,
                identity: if configured is Some {
                    Some(identity)
                } else {
                    None
                },
            };
            proc_run(log, at, root, user, own_process, configured) matches Run::Done(status, _) ==> ({
                &&& status == WriterStatus::Stopped ==> forall|i: int|
                    0 <= i < entries@.len() ==> (#[trigger] entries@[i]) is Some && (
                    another_process(entries@[i], own_process) ==> cleared(
                        log,
                        wanted,
                        joined(root, entries@[i]->0@),
                    ))
                &&& status == WriterStatus::Running ==> exists|i: int|
                    0 <= i < entries@.len() && another_process(
                        #[trigger] entries@[i],
                        own_process,
                    ) && counted(log, wanted, joined(root, entries@[i]->0@))
            })
        }),
{
    let wanted = Wanted {
        user,
        own_process,
        configured,
        identity: if configured is Some {
            Some(identity)
        } else {
            None
        },
    };
    let next = if configured is Some {
        at + 2
    } else {
        at + 1
    };
    lemma_scan(log, next, wanted, root, entries@, false);
}

/// Where the processes cannot be listed, or the program is not named by an absolute path, nothing is
/// known.
pub proof fn law_no_list_tells_nothing(
    log: Seq<Reply>,
    at: nat,
    root: Seq<char>,
    user: u32,
    own_process: u32,
    configured: Option<Seq<char>>,
)
    requires
        log.len() > at,
        log[at as int] is Missing || log[at as int] is Failed || (configured is Some && !rooted(
            configured->0,
        )),
    ensures
        proc_run(log, at, root, user, own_process, configured) matches Run::Done(status, _)
            && status == WriterStatus::Unknown,
{
}

/// A process of the user counts by its name. One of another user, and one that is gone, does not; where
/// its owner cannot be told, it is unclear.
pub proof fn law_a_process_counts_by_its_name(
    log: Seq<Reply>,
    k: nat,
    wanted: Wanted,
    process: Seq<char>,
    owner: u64,
    name: String,
)
    requires
        log.len() > k + 1,
        log[k as int] == Reply::Number(owner),
        log[k as int + 1] == Reply::Text(name),
    ensures
        process_run(log.take(k as int), k, wanted, process) == Run::<Finding>::Ask(
            RequestView::OwnerOf(process),
        ),
        owner != wanted.user ==> process_run(log, k, wanted, process) == Run::Done(
            Finding::No { unclear: false },
            k + 1,
        ),
        owner == wanted.user ==> process_run(log.take(k as int + 1), k, wanted, process) == Run::<
            Finding,
        >::Ask(RequestView::ReadText(joined(process, "comm"@))),
        owner == wanted.user && (trimmed(name@) == "codex"@ || "codex-"@.is_prefix_of(
            trimmed(name@),
        )) ==> process_run(log, k, wanted, process) == Run::Done(Finding::Yes, k + 2),
        owner == wanted.user && trimmed(name@) != "codex"@ && !"codex-"@.is_prefix_of(trimmed(name@))
            && wanted.configured is None && wanted.identity is None ==> process_run(
            log,
            k,
            wanted,
            process,
        ) == Run::Done(Finding::No { unclear: false }, k + 2),
{
}

/// A process that was not found to be of another user, or gone, is unclear where it cannot be asked.
pub proof fn law_an_owner_may_be_unclear(
    log: Seq<Reply>,
    k: nat,
    wanted: Wanted,
    process: Seq<char>,
)
    requires
        log.len() > k,
    ensures
        log[k as int] is Missing ==> process_run(log, k, wanted, process) == Run::Done(
            Finding::No { unclear: false },
            k + 1,
        ),
        log[k as int] is Failed ==> process_run(log, k, wanted, process) == Run::Done(
            Finding::No { unclear: true },
            k + 1,
        ),
{
}

/// With a program named in the configuration, a process of the user counts as well by having its path
/// among its arguments, and by running that very file.
pub proof fn law_a_process_counts_by_its_program(
    log: Seq<Reply>,
    k: nat,
    wanted: Wanted,
    process: Seq<char>,
    configured: Seq<char>,
    name: String,
    line: Vec<u8>,
    wanted_id: FileId,
    id: FileId,
)
    requires
        log.len() > k + 3,
        log[k as int] == Reply::Number(wanted.user as u64),
        log[k as int + 1] == Reply::Text(name),
        !codex_name(trimmed(name@)),
        wanted.configured == Some(configured),
        wanted.identity == Some(Some(wanted_id)),
        log[k as int + 2] == Reply::Bytes(line),
        log[k as int + 3] == Reply::Id(id),
    ensures
        process_run(log.take(k as int + 2), k, wanted, process) == Run::<Finding>::Ask(
            RequestView::ReadBytes(joined(process, "cmdline"@)),
        ),
        has_argument(line@, encode_utf8(configured)) ==> process_run(log, k, wanted, process)
            == Run::Done(Finding::Yes, k + 3),
        !has_argument(line@, encode_utf8(configured)) ==> ({
            &&& process_run(log.take(k as int + 3), k, wanted, process) == Run::<Finding>::Ask(
                RequestView::FileId(joined(process, "exe"@)),
            )
            &&& process_run(log, k, wanted, process) == Run::Done(
                if id == wanted_id {
                    Finding::Yes
                } else {
                    Finding::No { unclear: false }
                },
                k + 4,
            )
        }),
{
}

/// Whatever could not be read of a process leaves it unclear, unless it counts all the same.
pub proof fn law_what_cannot_be_read_is_unclear(
    log: Seq<Reply>,
    k: nat,
    wanted: Wanted,
    process: Seq<char>,
)
    requires
        log.len() > k + 1,
        log[k as int] == Reply::Number(wanted.user as u64),
        log[k as int + 1] is Failed,
        wanted.identity is Some ==> wanted.configured is Some,
    ensures
        process_run(log, k, wanted, process) matches Run::Done(finding, n) ==> finding
            == Finding::Yes || finding == (Finding::No { unclear: true }) || log[n - 1] is Missing,
{
}

/// An argument is found anywhere on a command line: before it is the start of the line or a zero byte,
/// after it a zero byte or the end.
pub proof fn law_an_argument_is_found_anywhere(
    before: Seq<u8>,
    argument: Seq<u8>,
    after: Seq<u8>,
)
    requires
        forall|i: int| 0 <= i < argument.len() ==> argument[i] != 0,
    ensures
        has_argument(before.push(0) + argument + seq![0u8] + after, argument),
        has_argument(argument + seq![0u8] + after, argument),
        has_argument(before.push(0) + argument, argument),
        has_argument(argument, argument),
{
    let i = before.len() as int + 1;
    let j = i + argument.len();
    let first = before.push(0) + argument + seq![0u8] + after;
    assert(first.subrange(i, j) =~= argument);
    assert(is_piece(first, i, j)) by {
        assert forall|k: int| i <= k < j implies first[k] != 0 by {
            assert(first[k] == argument[k - i]);
        }
    }
    let second = argument + seq![0u8] + after;
    assert(second.subrange(0, argument.len() as int) =~= argument);
    assert(is_piece(second, 0, argument.len() as int)) by {
        assert forall|k: int| 0 <= k < argument.len() implies second[k] != 0 by {
            assert(second[k] == argument[k]);
        }
    }
    let third = before.push(0) + argument;
    assert(third.subrange(i, j) =~= argument);
    assert(is_piece(third, i, j)) by {
        assert forall|k: int| i <= k < j implies third[k] != 0 by {
            assert(third[k] == argument[k - i]);
        }
    }
    assert(argument.subrange(0, argument.len() as int) =~= argument);
    assert(is_piece(argument, 0, argument.len() as int));
}

/// Part of an argument is not an argument.
pub proof fn law_a_part_of_an_argument_is_none(whole: Seq<u8>, argument: Seq<u8>)
    requires
        forall|i: int| 0 <= i < whole.len() ==> whole[i] != 0,
        argument != whole,
    ensures
        !has_argument(whole, argument),
{
    if has_argument(whole, argument) {
        let (i, j) = choose|i: int, j: int|
            0 <= i <= j <= whole.len() && is_piece(whole, i, j) && #[trigger] whole.subrange(i, j)
                == argument;
        assert(i == 0);
        assert(j == whole.len());
        assert(whole.subrange(0, whole.len() as int) =~= whole);
    }
}

/// Where processes cannot be listed, they are searched for: those of the user with the exact name,
/// and, where a program is named, those with its path on their command line. Both searches have to find
/// nothing.
pub proof fn law_processes_are_searched_for(
    log: Seq<Reply>,
    at: nat,
    config: Config,
    user: u32,
    own_process: u32,
    code: Option<i32>,
    output: String,
)
    requires
        log.len() > at,
        log[at as int] == (Reply::Program { code, output }),
    ensures
        pgrep_writer_run(log.take(at as int), at, config, user, own_process, false) == Run::<
            WriterStatus,
        >::Ask(
            RequestView::Pgrep(
                seq!["-u"@, decimal_text(user as nat), "-x"@, "codex(-.*)?"@],
            ),
        ),
        config.codex_binary is None ==> pgrep_writer_run(log, at, config, user, own_process, false)
            == Run::Done(
            if code == Some(0i32) {
                WriterStatus::Running
            } else if code == Some(1i32) {
                WriterStatus::Stopped
            } else {
                WriterStatus::Unknown
            },
            at + 1,
        ),
        config.codex_binary matches Some(program) ==> ({
            &&& !rooted(program@) ==> pgrep_writer_run(
                log,
                at,
                config,
                user,
                own_process,
                false,
            ) == Run::Done(WriterStatus::Unknown, at + 1)
            &&& rooted(program@) ==> pgrep_writer_run(
                log.take(at as int + 1),
                at,
                config,
                user,
                own_process,
                false,
            ) == Run::<WriterStatus>::Ask(
                RequestView::Pgrep(
                    seq![
                        "-u"@,
                        decimal_text(user as nat),
                        "-f"@,
                        "(^|[[:space:]])"@ + escaped(program@) + "([[:space:]]|$)"@,
                    ],
                ),
            )
        }),
{
    assert(log.take(at as int + 1)[at as int] == log[at as int]);
}

/// Both searches count.
pub proof fn law_both_searches_count(
    log: Seq<Reply>,
    at: nat,
    config: Config,
    program: String,
    user: u32,
    own_process: u32,
    first: i32,
    first_output: String,
    second: i32,
    second_output: String,
)
    requires
        config.codex_binary == Some(program),
        rooted(program@),
        log.len() > at + 1,
        log[at as int] == (Reply::Program { code: Some(first), output: first_output }),
        log[at as int + 1] == (Reply::Program { code: Some(second), output: second_output }),
    ensures
        pgrep_writer_run(log, at, config, user, own_process, false) == Run::Done(
            if first == 0 || second == 0 {
                WriterStatus::Running
            } else if first == 1 && second == 1 {
                WriterStatus::Stopped
            } else {
                WriterStatus::Unknown
            },
            at + 2,
        ),
{
}

/// In a pattern, every character of a path stands for itself: what has a meaning there is escaped, and
/// nothing else changes.
pub proof fn law_patterns_are_escaped(path: Seq<char>, c: char)
    ensures
        escaped(Seq::<char>::empty()) == Seq::<char>::empty(),
        escaped(path.push(c)) == (if c == '\\' || c == '.' || c == '^' || c == '$' || c == '|' || c
            == '(' || c == ')' || c == '[' || c == ']' || c == '{' || c == '}' || c == '*' || c
            == '+' || c == '?' {
            escaped(path) + seq!['\\', c]
        } else {
            escaped(path) + seq![c]
        }),
{
    assert(path.push(c).drop_last() =~= path);
}

/// Unless it is certain that everything is stopped, something is taken to write; and if it is certain,
/// what was started within the last two minutes is.
pub proof fn law_doubt_counts_as_writing(
    log: Seq<Reply>,
    at: nat,
    config: Config,
    system: System,
    status: WriterStatus,
    n: nat,
    text: String,
    created: u64,
    now: i64,
)
    requires
        status_run(log, at, config, system) == Run::Done(status, n),
        log.len() > n + 1,
        log[n as int] == Reply::Text(text),
        parsed(trimmed(text@), u64::MAX as nat) == Some(created as nat),
        log[n as int + 1] == Reply::Time(now),
    ensures
        status != WriterStatus::Stopped ==> writers_run(log, at, config, system) == Run::Done(
            true,
            n,
        ),
        status == WriterStatus::Stopped ==> writers_run(log, at, config, system) == Run::Done(
            0 <= now - created * 1_000_000_000 < 120_000_000_000,
            n + 2,
        ),
        marker_run(log.take(n as int), n, config) == Run::<bool>::Ask(
            RequestView::ReadText(config.server_start_marker@),
        ),
        marker_run(log.take(n as int + 1), n, config) == Run::<bool>::Ask(RequestView::Nanos),
{
    assert(log.take(n as int + 1)[n as int] == log[n as int]);
}

/// Without a note of a start, or with one that is no number, nothing was started.
pub proof fn law_no_note_of_a_start(log: Seq<Reply>, n: nat, config: Config)
    requires
        log.len() > n,
        log[n as int] is Missing || (log[n as int] matches Reply::Text(text) && parsed(
            trimmed(text@),
            u64::MAX as nat,
        ) is None),
    ensures
        marker_run(log, n, config) == Run::Done(false, n + 1),
{
}

/// A start is noted as the time in seconds, where it is looked for.
pub proof fn law_a_start_is_noted(log: Seq<Reply>, at: nat, config: Config, now: i64)
    requires
        log.len() == at + 1,
        log[at as int] == Reply::Time(now),
        now >= 0,
    ensures
        mark_run(log.take(at as int), at, config) == Run::<()>::Ask(RequestView::Now),
        mark_run(log, at, config) == Run::<()>::Ask(
            RequestView::Write {
                path: config.server_start_marker@,
                bytes: encode_utf8(decimal_text(now as nat) + "\n"@),
            },
        ),
{
}

/// The processes of `/proc` are listed where the system has it, and searched for where it does not.
pub proof fn law_how_processes_are_found(
    log: Seq<Reply>,
    at: nat,
    config: Config,
    system: System,
)
    requires
        log.len() == at,
        config.codex_binary is None,
    ensures
        system.lists_processes ==> status_run(log, at, config, system) == Run::<WriterStatus>::Ask(
            RequestView::Listing("/proc"@),
        ),
        !system.lists_processes ==> status_run(log, at, config, system) == Run::<WriterStatus>::Ask(
            RequestView::Pgrep(
                seq!["-u"@, decimal_text(system.user as nat), "-x"@, "codex(-.*)?"@],
            ),
        ),
{
}

/// Whether it was asked which program a process runs.
pub open spec fn asked_about(
    log: Seq<Reply>,
    at: nat,
    configured: FileId,
    own_process: u32,
    lines: Seq<Seq<char>>,
    unclear: bool,
    process: int,
) -> bool {
    exists|k: int|
        at <= k <= log.len() && #[trigger] programs_run(
            log.take(k),
            at,
            configured,
            own_process,
            lines,
            unclear,
        ) == Run::<WriterStatus>::Ask(RequestView::ProgramOf(process as i64))
}

/// Where the processes of a user are searched for, nothing is said to be stopped before every other one
/// was asked for its program, wherever it is in the list.
pub proof fn law_every_process_found_is_asked_about(
    log: Seq<Reply>,
    at: nat,
    configured: FileId,
    own_process: u32,
    lines: Seq<Seq<char>>,
    unclear: bool,
    i: int,
    process: int,
)
    requires
        at <= log.len(),
        0 <= i < lines.len(),
        line_process(lines[i]) == Some(process),
        process != own_process,
        programs_run(log, at, configured, own_process, lines, unclear) matches Run::Done(status, _)
            && status == WriterStatus::Stopped,
    ensures
        asked_about(log, at, configured, own_process, lines, unclear, process),
    decreases lines.len(),
{
    let rest = lines.skip(1);
    let counted = line_process(lines[0]) is Some && line_process(lines[0])->0 != own_process;
    if i == 0 {
        assert(log.take(at as int).len() == at);
        assert(programs_run(log.take(at as int), at, configured, own_process, lines, unclear)
            == Run::<WriterStatus>::Ask(RequestView::ProgramOf(process as i64)));
    } else {
        assert(rest[i - 1] == lines[i]);
        let (next, more) = if !counted {
            (at, unclear)
        } else {
            match log[at as int] {
                Reply::Text(_) => (
                    at + 2,
                    if log[at as int + 1] is Failed {
                        true
                    } else {
                        unclear
                    },
                ),
                Reply::Failed(_) => (at + 1, true),
                _ => (at + 1, unclear),
            }
        };
        assert(programs_run(log, at, configured, own_process, lines, unclear) == programs_run(
            log,
            next,
            configured,
            own_process,
            rest,
            more,
        ));
        law_every_process_found_is_asked_about(
            log,
            next,
            configured,
            own_process,
            rest,
            more,
            i - 1,
            process,
        );
        let k = choose|k: int|
            next <= k <= log.len() && #[trigger] programs_run(
                log.take(k),
                next,
                configured,
                own_process,
                rest,
                more,
            ) == Run::<WriterStatus>::Ask(RequestView::ProgramOf(process as i64));
        let cut = log.take(k);
        if next > at {
            assert(cut[at as int] == log[at as int]);
        }
        if next > at + 1 {
            assert(cut[at as int + 1] == log[at as int + 1]);
        }
        assert(programs_run(cut, at, configured, own_process, lines, unclear) == programs_run(
            cut,
            next,
            configured,
            own_process,
            rest,
            more,
        ));
    }
}

/// One of those that runs the program that is looked for is enough.
pub proof fn law_one_process_of_the_program_is_enough(
    log: Seq<Reply>,
    at: nat,
    configured: FileId,
    own_process: u32,
    lines: Seq<Seq<char>>,
    unclear: bool,
    process: int,
    path: String,
    id: FileId,
)
    requires
        lines.len() > 0,
        line_process(lines[0]) == Some(process),
        process != own_process,
        log.len() > at + 1,
        log[at as int] == Reply::Text(path),
        log[at as int + 1] == Reply::Id(id),
    ensures
        programs_run(log.take(at as int + 1), at, configured, own_process, lines, unclear) == Run::<
            WriterStatus,
        >::Ask(RequestView::FileId(path@)),
        id == configured ==> programs_run(log, at, configured, own_process, lines, unclear)
            == Run::Done(WriterStatus::Running, at + 2),
        id != configured && lines.len() == 1 ==> programs_run(
            log,
            at,
            configured,
            own_process,
            lines,
            unclear,
        ) == Run::Done(
            if unclear {
                WriterStatus::Unknown
            } else {
                WriterStatus::Stopped
            },
            at + 2,
        ),
{
    reveal_with_fuel(programs_run, 2);
    assert(log.take(at as int + 1)[at as int] == log[at as int]);
}

}
