//! The socket of an app server, and what goes over it.
use crate::control::{
    client_run, close_fault, connect_run, frame_head, frame_run, length_run, masked, read_run,
    send_run, text_run, trouble_error, upgrade_run, writable_run, write_run, ControlClient,
    FrameData,
};
use crate::effects::{Attempt, FileId, ProbeOutcome, Reply, RequestView, Run, Trouble};
use crate::error::{Error, ErrorView};
use crate::handshake::{
    after_word, base64_standard, first_word, has_token, header_name, header_value, headers_from,
    lines_of, upgrade_fault, upgrade_request_text, with_header, Answer,
};
use crate::json::JsonView;
use crate::paths::joined;
use crate::sha1::digest;
use crate::socket_helper::{
    clear_run, expose_run, groups_in, groups_of, open_run, peer_run, prepare_run, publish_run,
    put_in, ready_run, recover_run, Owner,
};
use crate::text::{decimal_text, lowered, parsed, split_on, trimmed};
use crate::wire::{
    active_after, admitted, after_frame, big_endian, drained_by, from_client_handled,
    from_server_handled, handed_over, offered, partial_after, stage_after, stage_of, step,
    subprotocol_for, track, Bridge, DrainStep, Drained, FrameView, Position, ReadOutcome, Relay,
    Stage, Subprotocol, Wire,
};
use vstd::prelude::*;
use vstd::utf8::{decode_utf8, encode_utf8, valid_utf8};

verus! {

/// What is at the place of the socket is looked at first; a socket is then tried, and taken away only
/// where nothing answers. Anything else there stays.
pub proof fn law_only_a_dead_socket_is_removed(log: Seq<Reply>, at: nat, path: Seq<char>)
    ensures
        log.len() == at ==> clear_run(log, at, path) == Run::<()>::Ask(
            RequestView::SocketEntry(path),
        ),
        log.len() > at && log[at as int] is Missing ==> clear_run(log, at, path) == Run::Done(
            (),
            at + 1,
        ),
        log.len() > at && log[at as int] is NotSocket ==> clear_run(log, at, path) is Fail,
        log.len() == at + 1 && log[at as int] is Id ==> clear_run(log, at, path) == Run::<
            (),
        >::Ask(RequestView::Probe(path)),
        log.len() > at + 1 && log[at as int] is Id && log[at as int + 1] == Reply::Probe(
            ProbeOutcome::Connected,
        ) ==> clear_run(log, at, path) is Fail,
        log.len() == at + 2 && log[at as int] is Id && log[at as int + 1] is Probe && log[at as int
            + 1] != Reply::Probe(ProbeOutcome::Connected) ==> clear_run(log, at, path) == Run::<
            (),
        >::Ask(RequestView::Unlink(path)),
{
}

/// The directory has to be owned by the group, and by the user or the superuser.
pub proof fn law_whose_directory_it_is(
    log: Seq<Reply>,
    at: nat,
    directory: Seq<char>,
    owner: Owner,
    user: u32,
    group: u32,
)
    requires
        log.len() > at + 1,
        log[at as int] == Reply::Done,
        log[at as int + 1] == (Reply::Owners { user, group }),
    ensures
        (user == 0 || user == owner.user) && group == owner.group ==> open_run(
            log,
            at,
            directory,
            owner,
        ) == Run::Done((), at + 2),
        (user != 0 && user != owner.user) || group != owner.group ==> open_run(
            log,
            at,
            directory,
            owner,
        ) is Fail,
{
}

/// Whoever answers on the socket has to be of the user, and the process that was started or one that
/// is in the same groups of processes, of which there has to be at least one.
pub proof fn law_whose_socket_it_is(
    log: Seq<Reply>,
    at: nat,
    owner: Owner,
    expected: u32,
    process: u32,
    user: u32,
    first: String,
    second: String,
)
    requires
        log.len() > at + 2,
        log[at as int] == (Reply::Peer { process, user }),
        log[at as int + 1] == Reply::Text(first),
        log[at as int + 2] == Reply::Text(second),
    ensures
        user != owner.user ==> peer_run(log, at, owner, expected) is Fail,
        user == owner.user && process == expected ==> peer_run(log, at, owner, expected)
            == Run::Done((), at + 1),
        user == owner.user && process != expected ==> ({
            &&& peer_run(log.take(at as int + 1), at, owner, expected) == Run::<()>::Ask(
                RequestView::ReadText(
                    joined(joined("/proc"@, decimal_text(process as nat)), "cgroup"@),
                ),
            )
            &&& peer_run(log.take(at as int + 2), at, owner, expected) == Run::<()>::Ask(
                RequestView::ReadText(
                    joined(joined("/proc"@, decimal_text(expected as nat)), "cgroup"@),
                ),
            )
            &&& groups_of(first@) == groups_of(second@) && groups_of(first@).len() > 0
                ==> peer_run(log, at, owner, expected) == Run::Done((), at + 3)
            &&& groups_of(first@) != groups_of(second@) || groups_of(first@).len() == 0
                ==> peer_run(log, at, owner, expected) is Fail
        }),
{
    assert(log.take(at as int + 1)[at as int] == log[at as int]);
    assert(log.take(at as int + 2)[at as int] == log[at as int]);
    assert(log.take(at as int + 2)[at as int + 1] == log[at as int + 1]);
}

proof fn lemma_put_in(items: Seq<Seq<char>>, item: Seq<char>)
    ensures
        put_in(items, item).len() == items.len() + 1,
        forall|g: Seq<char>| #[trigger]
            put_in(items, item).contains(g) <==> items.contains(g) || g == item,
    decreases items.len(),
{
    if items.len() > 0 && crate::text::text_before(item, items.last()) {
        let rest = items.drop_last();
        lemma_put_in(rest, item);
        let before = put_in(rest, item);
        let after = put_in(items, item);
        assert(after =~= before.push(items.last()));
        assert forall|g: Seq<char>| #[trigger]
            after.contains(g) <==> items.contains(g) || g == item by {
            if after.contains(g) {
                let i = choose|i: int| 0 <= i < after.len() && after[i] == g;
                if i < before.len() {
                    assert(before[i] == g);
                    assert(before.contains(g));
                    if rest.contains(g) {
                        let j = choose|j: int| 0 <= j < rest.len() && rest[j] == g;
                        assert(items[j] == g);
                    }
                } else {
                    assert(items[items.len() - 1] == g);
                }
            }
            if items.contains(g) {
                let i = choose|i: int| 0 <= i < items.len() && items[i] == g;
                if i < rest.len() {
                    assert(rest[i] == g);
                    assert(rest.contains(g));
                    assert(before.contains(g));
                    let j = choose|j: int| 0 <= j < before.len() && before[j] == g;
                    assert(after[j] == g);
                } else {
                    assert(after[after.len() - 1] == g);
                }
            }
            if g == item {
                assert(before.contains(g));
                let j = choose|j: int| 0 <= j < before.len() && before[j] == g;
                assert(after[j] == g);
            }
        }
    } else {
        let after = items.push(item);
        assert forall|g: Seq<char>| #[trigger]
            after.contains(g) <==> items.contains(g) || g == item by {
            if items.contains(g) {
                let i = choose|i: int| 0 <= i < items.len() && items[i] == g;
                assert(after[i] == g);
            }
            assert(after[items.len() as int] == item);
            if after.contains(g) {
                let i = choose|i: int| 0 <= i < after.len() && after[i] == g;
                if i < items.len() {
                    assert(items[i] == g);
                }
            }
        }
    }
}

/// The groups of a process are the lines that are not blank, wherever they are, without the white space
/// around them.
pub proof fn law_every_line_is_a_group(lines: Seq<Seq<char>>, group: Seq<char>)
    ensures
        groups_in(lines).contains(group) <==> group.len() > 0 && exists|i: int|
            0 <= i < lines.len() && trimmed(#[trigger] lines[i]) == group,
    decreases lines.len(),
{
    if lines.len() > 0 {
        let rest = lines.drop_last();
        law_every_line_is_a_group(rest, group);
        lemma_put_in(groups_in(rest), trimmed(lines.last()));
        if exists|i: int| 0 <= i < rest.len() && trimmed(#[trigger] rest[i]) == group {
            let i = choose|i: int| 0 <= i < rest.len() && trimmed(#[trigger] rest[i]) == group;
            assert(lines[i] == rest[i]);
        }
        if exists|i: int| 0 <= i < lines.len() && trimmed(#[trigger] lines[i]) == group {
            let i = choose|i: int| 0 <= i < lines.len() && trimmed(#[trigger] lines[i]) == group;
            if i < rest.len() {
                assert(rest[i] == lines[i]);
            }
        }
        assert(lines[lines.len() - 1] == lines.last());
        assert(put_in(groups_in(rest), trimmed(lines.last())).contains(group) <==> groups_in(
            rest,
        ).contains(group) || group == trimmed(lines.last()));
    }
}

/// A socket is opened to its user only while it is the one that was tried.
pub proof fn law_only_the_same_socket_is_opened(
    log: Seq<Reply>,
    at: nat,
    path: Seq<char>,
    id: FileId,
    now: FileId,
)
    ensures
        log.len() == at ==> expose_run(log, at, path, id) == Run::<()>::Ask(
            RequestView::SocketEntry(path),
        ),
        log.len() == at + 1 && log[at as int] == Reply::Id(now) && now == id ==> expose_run(
            log,
            at,
            path,
            id,
        ) == Run::<()>::Ask(RequestView::SetMode { path, mode: 0o600 }),
        log.len() > at && log[at as int] == Reply::Id(now) && now != id ==> expose_run(
            log,
            at,
            path,
            id,
        ) is Fail,
        log.len() > at && log[at as int] is Missing ==> expose_run(log, at, path, id) is Fail,
{
}

/// Whether a socket was there, answered, belonged to the right process and spoke the right protocol.
pub open spec fn found_ready(
    log: Seq<Reply>,
    k: nat,
    owner: Owner,
    expected: u32,
    id: FileId,
    n: nat,
) -> bool {
    &&& n >= 1
    &&& log.len() >= n
    &&& log.len() > k + 1
    &&& log[k as int] == Reply::Id(id)
    &&& log[k as int + 1] == Reply::Probe(ProbeOutcome::Connected)
    &&& peer_run(log, k + 2, owner, expected) == Run::Done((), (n - 1) as nat)
    &&& log[n - 1] == Reply::Done
}

/// A socket is ready only once it was found, answered, belonged to the right process and spoke the
/// right protocol, however often it was tried.
pub proof fn law_a_ready_socket_was_tried(
    log: Seq<Reply>,
    at: nat,
    path: Seq<char>,
    owner: Owner,
    expected: u32,
    deadline: int,
)
    ensures
        ready_run(log, at, path, owner, expected, deadline) matches Run::Done(id, n) ==> exists|
            k: nat,
        | #[trigger] found_ready(log, k, owner, expected, id, n),
    decreases log.len() - at,
{
    if let Run::Done(id, n) = ready_run(log, at, path, owner, expected, deadline) {
        if log[at as int + 1] is Missing {
            law_a_ready_socket_was_tried(log, at + 3, path, owner, expected, deadline);
        } else if log[at as int + 2] == Reply::Probe(ProbeOutcome::Connected) {
            assert(found_ready(log, at + 1, owner, expected, id, n));
        } else {
            law_a_ready_socket_was_tried(log, at + 4, path, owner, expected, deadline);
        }
    }
}

/// A place that is prepared is taken from the user, cleared and given back, in this order.
pub proof fn law_a_place_is_prepared(
    log: Seq<Reply>,
    directory: Seq<char>,
    name: Seq<char>,
    user: u32,
    group: u32,
)
    requires
        log == seq![
            Reply::Number(user as u64),
            Reply::Number(group as u64),
            Reply::Done,
            (Reply::Owners { user, group }),
            Reply::Done,
            Reply::Done,
            Reply::Missing,
            Reply::Done,
            Reply::Done,
        ],
    ensures
        prepare_run(log.take(0), 0, directory, name) == Run::<()>::Ask(RequestView::UserId(name)),
        prepare_run(log.take(1), 0, directory, name) == Run::<()>::Ask(
            RequestView::GroupId("openclaw"@),
        ),
        prepare_run(log.take(2), 0, directory, name) == Run::<()>::Ask(
            RequestView::OpenDirectory(directory),
        ),
        prepare_run(log.take(3), 0, directory, name) == Run::<()>::Ask(
            RequestView::Owners(directory),
        ),
        prepare_run(log.take(4), 0, directory, name) == Run::<()>::Ask(
            RequestView::DirectoryMode(0o2500),
        ),
        prepare_run(log.take(5), 0, directory, name) == Run::<()>::Ask(
            RequestView::DirectoryOwner { user: 0, group },
        ),
        prepare_run(log.take(6), 0, directory, name) == Run::<()>::Ask(
            RequestView::SocketEntry(joined(directory, "app-server.sock"@)),
        ),
        prepare_run(log.take(7), 0, directory, name) == Run::<()>::Ask(
            RequestView::DirectoryMode(0o700),
        ),
        prepare_run(log.take(8), 0, directory, name) == Run::<()>::Ask(
            RequestView::DirectoryOwner { user, group },
        ),
        prepare_run(log, 0, directory, name) == Run::Done((), 9),
{
}

/// A directory that is recovered is given back to its user and its group.
pub proof fn law_a_directory_is_recovered(
    log: Seq<Reply>,
    name: Seq<char>,
    user: u32,
    group: u32,
)
    requires
        log == seq![
            Reply::Number(user as u64),
            Reply::Number(group as u64),
            Reply::Done,
            (Reply::Owners { user: 0, group }),
            Reply::Done,
            Reply::Done,
        ],
    ensures
        recover_run(log.take(2), 0, name) == Run::<()>::Ask(
            RequestView::OpenDirectory("/var/lib/codex-auth"@),
        ),
        recover_run(log.take(4), 0, name) == Run::<()>::Ask(RequestView::DirectoryMode(0o700)),
        recover_run(log.take(5), 0, name) == Run::<()>::Ask(
            RequestView::DirectoryOwner { user, group },
        ),
        recover_run(log, 0, name) == Run::Done((), 6),
{
}

// ---------------------------------------------------------------- the handshake

proof fn lemma_headers(lines: Seq<Seq<char>>, k: int, answer: Answer)
    requires
        k >= 0,
    ensures
        headers_from(lines, k, answer) matches Some(end) ==> ({
            &&& end.upgrade ==> answer.upgrade || exists|i: int|
                k <= i < lines.len() && header_name(#[trigger] lines[i]) == "upgrade"@ && has_token(
                    header_value(lines[i]),
                    "websocket"@,
                )
            &&& end.connection ==> answer.connection || exists|i: int|
                k <= i < lines.len() && header_name(#[trigger] lines[i]) == "connection"@
                    && has_token(header_value(lines[i]), "upgrade"@)
            &&& end.accept != answer.accept ==> exists|i: int|
                k <= i < lines.len() && header_name(#[trigger] lines[i])
                    == "sec-websocket-accept"@ && end.accept == Some(header_value(lines[i]))
        }),
    decreases lines.len() - k,
{
    if k < lines.len() && lines[k].len() != 0 && crate::text::first_at(lines[k], ':')
        < lines[k].len() {
        lemma_headers(lines, k + 1, with_header(answer, lines[k]));
        assert(lines[k] == lines[k]);
    }
}

/// An upgrade is accepted only with status 101, with headers, anywhere among them, that tell of it, and
/// with the one token that answers the key of the request.
pub proof fn law_an_upgrade_answers_its_key(response: Seq<u8>, key: Seq<char>)
    requires
        upgrade_fault(response, key) is None,
    ensures
        valid_utf8(response),
        ({
            let lines = lines_of(decode_utf8(response));
            &&& "HTTP/1."@.is_prefix_of(first_word(lines[0]))
            &&& first_word(after_word(lines[0])) == "101"@
            &&& exists|i: int|
                1 <= i < lines.len() && header_name(#[trigger] lines[i]) == "upgrade"@ && has_token(
                    header_value(lines[i]),
                    "websocket"@,
                )
            &&& exists|i: int|
                1 <= i < lines.len() && header_name(#[trigger] lines[i]) == "connection"@
                    && has_token(header_value(lines[i]), "upgrade"@)
            &&& exists|i: int|
                1 <= i < lines.len() && header_name(#[trigger] lines[i])
                    == "sec-websocket-accept"@ && header_value(lines[i]) == base64_standard(
                    digest(encode_utf8(key + "258EAFA5-E914-47DA-95CA-C5AB0DC85B11"@)),
                )
        }),
{
    let lines = lines_of(decode_utf8(response));
    lemma_headers(lines, 1, Answer { upgrade: false, connection: false, accept: None });
}

/// A token counts wherever it is in a list of tokens, in small or capital letters, with white space
/// around it or not.
pub proof fn law_a_token_counts_anywhere(value: Seq<char>, expected: Seq<char>, i: int)
    requires
        0 <= i < split_on(value, ',').len(),
        lowered(trimmed(split_on(value, ',')[i])) == lowered(expected),
    ensures
        has_token(value, expected),
{
}

/// The key of an upgrade is sixteen random bytes, and the request asks for the upgrade with it.
pub proof fn law_an_upgrade_is_asked_for(log: Seq<Reply>, at: nat, nonce: Vec<u8>, time: u64)
    requires
        log.len() == at + 2,
        log[at as int] == Reply::Bytes(nonce),
        nonce@.len() == 16,
        log[at as int + 1] == Reply::Number(time),
        time > 0,
        encode_utf8(upgrade_request_text(base64_standard(nonce@))).len() > 0,
    ensures
        upgrade_run(log.take(at as int), at) == Run::<()>::Ask(RequestView::Random(16)),
        upgrade_run(log, at) == Run::<()>::Ask(
            RequestView::WriteSome {
                bytes: encode_utf8(
                    "GET / HTTP/1.1\r\nHost: localhost\r\nUpgrade: websocket\r\nConnection: Upgrade\r\nSec-WebSocket-Key: "@
                        + base64_standard(nonce@) + "\r\nSec-WebSocket-Version: 13\r\n\r\n"@,
                ),
                timeout: time,
            },
        ),
{
}

// ---------------------------------------------------------------- bytes and frames

/// Bytes are read until there are as many as wanted, however they come; they stay in order, and never
/// more is asked for than is still wanted.
pub proof fn law_reading_joins_the_pieces(
    log: Seq<Reply>,
    at: nat,
    wanted: nat,
    first: Vec<u8>,
    second: Vec<u8>,
    time: u64,
    later: u64,
)
    requires
        log.len() == at + 4,
        log[at as int] == Reply::Number(time),
        log[at as int + 1] == Reply::Bytes(first),
        log[at as int + 2] == Reply::Number(later),
        log[at as int + 3] == Reply::Bytes(second),
        time > 0,
        later > 0,
        first@.len() > 0,
        second@.len() > 0,
        first@.len() + second@.len() == wanted,
        wanted <= usize::MAX,
    ensures
        read_run(log.take(at as int + 1), at, wanted, Seq::empty()) == Run::<Seq<u8>>::Ask(
            RequestView::ReadSome { limit: wanted as usize, timeout: time },
        ),
        read_run(log.take(at as int + 3), at, wanted, Seq::empty()) == Run::<Seq<u8>>::Ask(
            RequestView::ReadSome { limit: second@.len() as usize, timeout: later },
        ),
        read_run(log, at, wanted, Seq::empty()) == Run::Done(first@ + second@, at + 4),
        read_run(log, at, first@.len(), Seq::empty()) == Run::Done(first@, at + 2),
{
    let cut = log.take(at as int + 3);
    assert(cut[at as int] == log[at as int]);
    assert(cut[at as int + 1] == log[at as int + 1]);
    assert(cut[at as int + 2] == log[at as int + 2]);
    assert(log.take(at as int + 1)[at as int] == log[at as int]);
    let empty = Seq::<u8>::empty();
    assert(empty + first@ =~= first@);
    reveal_with_fuel(read_run, 3);
}

/// What a write left over is written next, from where it stopped, until nothing is left.
pub proof fn law_writing_goes_on(
    log: Seq<Reply>,
    at: nat,
    first: Seq<u8>,
    second: Seq<u8>,
    time: u64,
    later: u64,
)
    requires
        log.len() == at + 4,
        0 < first.len() <= u64::MAX,
        0 < second.len() <= u64::MAX,
        log[at as int] == Reply::Number(time),
        log[at as int + 1] == Reply::Number(first.len() as u64),
        log[at as int + 2] == Reply::Number(later),
        log[at as int + 3] == Reply::Number(second.len() as u64),
        time > 0,
        later > 0,
    ensures
        write_run(log.take(at as int + 1), at, first + second) == Run::<()>::Ask(
            RequestView::WriteSome { bytes: first + second, timeout: time },
        ),
        write_run(log.take(at as int + 3), at, first + second) == Run::<()>::Ask(
            RequestView::WriteSome { bytes: second, timeout: later },
        ),
        write_run(log, at, first + second) == Run::Done((), at + 4),
{
    let cut = log.take(at as int + 3);
    assert(cut[at as int] == log[at as int]);
    assert(cut[at as int + 1] == log[at as int + 1]);
    assert(cut[at as int + 2] == log[at as int + 2]);
    assert(log.take(at as int + 1)[at as int] == log[at as int]);
    let whole = first + second;
    assert(whole.skip(first.len() as int) =~= second);
    assert(second.skip(second.len() as int).len() == 0);
    reveal_with_fuel(write_run, 3);
}

/// With no time left, nothing is read or written any more.
pub proof fn law_time_runs_out(log: Seq<Reply>, at: nat, wanted: nat, bytes: Seq<u8>)
    requires
        log.len() > at,
        log[at as int] == Reply::Number(0),
        wanted > 0,
        bytes.len() > 0,
    ensures
        read_run(log, at, wanted, Seq::empty()) == Run::<Seq<u8>>::Fail(ErrorView::Timeout, at + 1),
        write_run(log, at, bytes) == Run::<()>::Fail(ErrorView::Timeout, at + 1),
{
}

/// A frame that comes in one piece has the payload, the opcode and the end that its bytes say.
pub proof fn law_a_frame_is_what_its_bytes_say(
    log: Seq<Reply>,
    at: nat,
    head: Vec<u8>,
    payload: Vec<u8>,
    time: u64,
    later: u64,
)
    requires
        log.len() == at + 4,
        log[at as int] == Reply::Number(time),
        log[at as int + 1] == Reply::Bytes(head),
        log[at as int + 2] == Reply::Number(later),
        log[at as int + 3] == Reply::Bytes(payload),
        time > 0,
        later > 0,
        head@.len() == 2,
        0 < payload@.len() <= 125,
        head@[1] == payload@.len(),
        (head@[0] / 16) % 8 == 0,
        head@[0] % 16 >= 8 ==> head@[0] >= 128,
    ensures
        frame_run(log, at) == Run::Done(
            FrameData {
                final_frame: head@[0] >= 128,
                opcode: head@[0] % 16,
                payload: payload@,
            },
            at + 4,
        ),
{
    let empty = Seq::<u8>::empty();
    assert(empty + head@ =~= head@);
    assert(empty + payload@ =~= payload@);
    reveal_with_fuel(read_run, 3);
    assert(read_run(log, at, 2, empty) == Run::Done(head@, at + 2));
    assert(read_run(log, at + 2, payload@.len(), empty) == Run::Done(payload@, at + 4));
}

/// A frame from the app server that is masked, or uses a bit that has no meaning, is refused.
pub proof fn law_frames_that_are_refused(log: Seq<Reply>, at: nat, head: Vec<u8>, time: u64)
    requires
        log.len() >= at + 2,
        log[at as int] == Reply::Number(time),
        log[at as int + 1] == Reply::Bytes(head),
        time > 0,
        head@.len() == 2,
        (head@[0] / 16) % 8 != 0 || head@[1] >= 128,
    ensures
        frame_run(log, at) is Fail,
{
    let empty = Seq::<u8>::empty();
    assert(empty + head@ =~= head@);
    reveal_with_fuel(read_run, 2);
    assert(read_run(log, at, 2, empty) == Run::Done(head@, at + 2));
}

/// The payloads of the frames of one message are put together in order.
pub proof fn law_fragments_are_put_together(
    log: Seq<Reply>,
    at: nat,
    first: Seq<u8>,
    second: Seq<u8>,
    n: nat,
    m: nat,
)
    requires
        frame_run(log, at) == Run::Done(
            FrameData { final_frame: false, opcode: 1, payload: first },
            n,
        ),
        frame_run(log, n) == Run::Done(
            FrameData { final_frame: true, opcode: 0, payload: second },
            m,
        ),
        at < n <= log.len(),
        first.len() + second.len() <= 4_194_304,
    ensures
        valid_utf8(first + second) ==> text_run(log, at, Seq::empty(), false) == Run::Done(
            first + second,
            m,
        ),
        !valid_utf8(first + second) ==> text_run(log, at, Seq::empty(), false) is Fail,
{
    assert(Seq::<u8>::empty() + first =~= first);
    reveal_with_fuel(text_run, 2);
}

/// A message of one frame is its payload.
pub proof fn law_a_whole_message(log: Seq<Reply>, at: nat, payload: Seq<u8>, n: nat)
    requires
        frame_run(log, at) == Run::Done(
            FrameData { final_frame: true, opcode: 1, payload },
            n,
        ),
        payload.len() <= 4_194_304,
        valid_utf8(payload),
    ensures
        text_run(log, at, Seq::empty(), false) == Run::Done(payload, n),
{
    assert(Seq::<u8>::empty() + payload =~= payload);
}

/// Frames out of turn, and binary ones, are refused.
pub proof fn law_frames_out_of_turn(
    log: Seq<Reply>,
    at: nat,
    message: Seq<u8>,
    fragmented: bool,
    frame: FrameData,
    n: nat,
)
    requires
        frame_run(log, at) == Run::Done(frame, n),
        (frame.opcode == 0 && !fragmented) || (frame.opcode == 1 && fragmented) || frame.opcode == 2
            || 3 <= frame.opcode <= 7 || 11 <= frame.opcode,
    ensures
        text_run(log, at, message, fragmented) is Fail,
{
}

/// A ping is answered by a pong with the same payload, and the message goes on as if it had not come; a
/// pong is passed over.
pub proof fn law_pings_are_answered(
    log: Seq<Reply>,
    at: nat,
    message: Seq<u8>,
    fragmented: bool,
    frame: FrameData,
    n: nat,
    m: nat,
)
    requires
        frame_run(log, at) == Run::Done(frame, n),
        at < n <= m <= log.len(),
    ensures
        frame.opcode == 9 && send_run(log, n, 10, frame.payload) == Run::Done((), m) ==> text_run(
            log,
            at,
            message,
            fragmented,
        ) == text_run(log, m, message, fragmented),
        frame.opcode == 10 ==> text_run(log, at, message, fragmented) == text_run(
            log,
            n,
            message,
            fragmented,
        ),
{
}

/// Every frame that is sent has a mask of its own, and its payload is masked with it: each byte with
/// the byte of the mask at its place modulo four.
pub proof fn law_what_is_sent_is_masked(
    log: Seq<Reply>,
    at: nat,
    opcode: u8,
    payload: Seq<u8>,
    mask: Vec<u8>,
    time: u64,
    later: u64,
)
    requires
        0 < payload.len() <= 125,
        opcode < 16,
        log.len() == at + 4,
        log[at as int] == Reply::Bytes(mask),
        mask@.len() == 4,
        log[at as int + 1] == Reply::Number(time),
        log[at as int + 2] == Reply::Number(6),
        log[at as int + 3] == Reply::Number(later),
        time > 0,
        later > 0,
    ensures
        send_run(log.take(at as int), at, opcode, payload) == Run::<()>::Ask(
            RequestView::Random(4),
        ),
        send_run(log.take(at as int + 2), at, opcode, payload) == Run::<()>::Ask(
            RequestView::WriteSome {
                bytes: seq![(128 + opcode) as u8, (128 + payload.len()) as u8] + mask@,
                timeout: time,
            },
        ),
        send_run(log, at, opcode, payload) matches Run::Ask(request) && (request matches
            RequestView::WriteSome { bytes, timeout } && timeout == later && bytes.len()
            == payload.len() && forall|i: int|
            0 <= i < payload.len() ==> #[trigger] bytes[i] == payload[i] ^ mask@[i % 4]),
{
    let cut = log.take(at as int + 2);
    assert(cut[at as int] == log[at as int]);
    assert(cut[at as int + 1] == log[at as int + 1]);
    let head = frame_head(opcode, payload.len()) + mask@;
    assert(head =~= seq![(128 + opcode) as u8, (128 + payload.len()) as u8] + mask@);
    assert(head.len() == 6);
    assert(head.skip(6).len() == 0);
    reveal_with_fuel(write_run, 3);
    assert(write_run(log, at + 1, head) == Run::Done((), at + 3));
    assert(masked(payload, mask@).len() == payload.len());
}

/// Which codes may close a connection: those from 1000 to 4999 but for four that never go over the wire.
pub proof fn law_closing_codes(high: u8, low: u8, reason: Seq<u8>)
    ensures
        ({
            let code = 256 * high + low;
            close_fault(seq![high, low] + reason) is None <==> 1000 <= code <= 4999 && code != 1004
                && code != 1005 && code != 1006 && code != 1015 && valid_utf8(reason)
        }),
        close_fault(Seq::empty()) is None,
        close_fault(seq![high]) is Some,
{
    assert((seq![high, low] + reason).skip(2) =~= reason);
}

// ---------------------------------------------------------------- the bridge

/// Only frames of data begin or end a message.
pub proof fn law_which_frames_leave_a_message_open(fragmented: bool, fin: bool, opcode: u8)
    ensures
        (opcode == 1 || opcode == 2) && fin ==> !after_frame(fragmented, fin, opcode),
        (opcode == 1 || opcode == 2) && !fin ==> after_frame(fragmented, fin, opcode),
        opcode == 0 && fin ==> !after_frame(fragmented, fin, opcode),
        opcode == 0 && !fin ==> after_frame(fragmented, fin, opcode) == fragmented,
        opcode >= 8 ==> after_frame(fragmented, fin, opcode) == fragmented,
{
}

/// A connection ends where nothing happened for five minutes, or where either side has left a frame or
/// a message unfinished for five seconds; and never before.
pub proof fn law_when_a_connection_is_over(bridge: Bridge, now: u64)
    ensures
        now - bridge.last_activity >= 300_000_000_000 ==> bridge.expired(now),
        (bridge.client_partial_since matches Some(since) && now - since >= 5_000_000_000)
            ==> bridge.expired(now),
        (bridge.server_partial_since matches Some(since) && now - since >= 5_000_000_000)
            ==> bridge.expired(now),
        now - bridge.last_activity < 300_000_000_000 && (bridge.client_partial_since matches Some(
            since,
        ) ==> now - since < 5_000_000_000) && (bridge.server_partial_since matches Some(since)
            ==> now - since < 5_000_000_000) ==> !bridge.expired(now),
{
}

/// An unfinished frame counts from when it was first seen unfinished, until a message is complete and
/// nothing is left over.
pub proof fn law_how_long_a_frame_is_unfinished(
    previous: Option<u64>,
    drained: Drained,
    now: u64,
)
    ensures
        drained.incomplete && previous is None ==> partial_after(previous, drained, now) == Some(now),
        drained.incomplete && previous is Some ==> partial_after(previous, drained, now)
            == previous,
        !drained.incomplete && drained.messages > 0 ==> partial_after(previous, drained, now)
            is None,
        !drained.incomplete && drained.messages == 0 ==> partial_after(previous, drained, now)
            == previous,
{
}

/// After the client, the app server has its turn where it has something to read; a farewell of either
/// ends both.
pub proof fn law_whose_turn_it_is(stage: Stage, relay: Relay, server_ready: bool)
    ensures
        relay == Relay::Close || relay == Relay::HangUp ==> stage_after(stage, relay) == Stage::End,
        relay != Relay::Close && relay != Relay::HangUp ==> ({
            &&& stage_after(Stage::Client { server_ready: true }, relay) == Stage::Server
            &&& stage_after(Stage::Client { server_ready: false }, relay) == Stage::Wait
            &&& stage_after(Stage::Server, relay) == Stage::Wait
        }),
{
}

/// One message is taken at a time. What has begun and has not all come is unfinished; an end without a
/// farewell is told as one.
pub proof fn law_one_message_at_a_time(taken: usize, partial: bool)
    ensures
        drained_by(taken, ReadOutcome::Message, partial) == (DrainStep::Stop {
            incomplete: false,
            closed: false,
        }),
        drained_by(taken, ReadOutcome::WouldBlock, partial) == (DrainStep::Stop {
            incomplete: partial,
            closed: false,
        }),
        drained_by(taken, ReadOutcome::Close, partial) == (DrainStep::Stop {
            incomplete: false,
            closed: false,
        }),
        drained_by(taken, ReadOutcome::Closed, partial) == (DrainStep::Stop {
            incomplete: false,
            closed: true,
        }),
        drained_by(taken, ReadOutcome::Failed, partial) == DrainStep::Fail,
{
}

/// The client is read from first; then the app server, where both have something to read.
pub proof fn law_the_client_is_read_from_first(server_ready: bool)
    ensures
        stage_of(true, server_ready) == (Stage::Client { server_ready }),
        stage_of(false, true) == Stage::Server,
        stage_of(false, false) == Stage::Wait,
{
}

/// At most sixteen clients are let in.
pub proof fn law_how_many_clients_are_let_in(clients: usize)
    ensures
        clients < 16 ==> (admitted(clients) matches Some(now) && now == clients + 1),
        clients >= 16 ==> admitted(clients) is None,
{
}

/// A connection is active whenever a message or a part of one comes, and only then.
pub proof fn law_what_counts_as_activity(previous: u64, drained: Drained, now: u64)
    ensures
        drained.messages > 0 ==> active_after(previous, drained, now) == now,
        drained.incomplete ==> active_after(previous, drained, now) == now,
        drained.messages == 0 && !drained.incomplete ==> active_after(previous, drained, now)
            == previous,
{
}

/// A connection without an offer is told nothing, one that offers the right protocol gets it, and one
/// that offers only others is refused.
pub proof fn law_which_protocol_is_chosen(headers: Seq<Option<String>>)
    ensures
        headers.len() == 0 ==> subprotocol_for(headers) == Subprotocol::NotOffered,
        headers.len() > 0 && offered(headers) ==> subprotocol_for(headers) == Subprotocol::Selected,
        headers.len() > 0 && !offered(headers) ==> subprotocol_for(headers) == Subprotocol::Refused,
{
}

/// A socket is taken over only where it is one, and meant for this process.
pub proof fn law_which_socket_is_taken_over(fds: String, pid: String, own_pid: u32, n: nat, m: nat)
    requires
        parsed(fds@, u32::MAX as nat) == Some(n),
        parsed(pid@, u32::MAX as nat) == Some(m),
    ensures
        handed_over(Some(fds), Some(pid), own_pid) <==> n == 1 && m == own_pid,
        !handed_over(None, Some(pid), own_pid),
        !handed_over(Some(fds), None, own_pid),
{
}

/// What the bridge does with what is no text is the same for both sides: a ping is answered with what
/// it held, a pong is dropped, a farewell is passed on, and anything else is refused; none of it changes
/// what is waited for.
pub proof fn law_what_the_bridge_does_with_control_messages(
    message: Wire,
    before: Seq<Seq<char>>,
    after: Seq<Seq<char>>,
    r: Result<Relay, Error>,
    payload: Vec<u8>,
)
    requires
        from_client_handled(message, before, after, r) || from_server_handled(
            message,
            before,
            after,
            r,
        ),
        !(message is Text),
    ensures
        after == before,
        message == Wire::Ping(payload) ==> r == Ok::<Relay, Error>(Relay::Answer(payload)),
        message == Wire::Pong ==> r == Ok::<Relay, Error>(Relay::Drop),
        message == Wire::Close ==> r == Ok::<Relay, Error>(Relay::Close),
        message == Wire::Other ==> r is Err,
{
}

/// A text from the app server reaches the client unchanged, or not at all; one from the client reaches
/// the app server or is answered.
pub proof fn law_what_the_bridge_does_with_texts(
    text: String,
    before: Seq<Seq<char>>,
    after: Seq<Seq<char>>,
    r: Result<Relay, Error>,
)
    ensures
        from_server_handled(Wire::Text(text), before, after, r) ==> r == Ok::<Relay, Error>(
            Relay::ToClient(text),
        ) || r == Ok::<Relay, Error>(Relay::Drop),
        from_client_handled(Wire::Text(text), before, after, r) ==> (r matches Ok(
            relay,
        ) && (relay is ToServer || relay is ToClient)),
{
}

/// The protocol of the app server counts as offered wherever it is in any header, with white space
/// around it or not.
pub proof fn law_a_protocol_is_offered_anywhere(
    headers: Seq<Option<String>>,
    text: String,
    i: int,
    j: int,
)
    requires
        0 <= i < headers.len(),
        headers[i] == Some(text),
        0 <= j < split_on(text@, ',').len(),
        trimmed(split_on(text@, ',')[j]) == "codex-app-server"@,
    ensures
        offered(headers),
{
}

// ---------------------------------------------------------------- connecting

/// A socket is connected to by its path, which has to fit; a connection that is under way is waited
/// for, and one that cannot be made yet is tried for again.
pub proof fn law_how_a_socket_is_connected_to(
    log: Seq<Reply>,
    at: nat,
    path: Seq<char>,
    capacity: usize,
    left: u64,
)
    ensures
        encode_utf8(path).len() == 0 || encode_utf8(path).len() >= capacity ==> connect_run(
            log,
            at,
            path,
            capacity,
        ) is Fail,
        0 < encode_utf8(path).len() < capacity && log.len() == at ==> connect_run(
            log,
            at,
            path,
            capacity,
        ) == Run::<()>::Ask(RequestView::OpenSocket),
        0 < encode_utf8(path).len() < capacity && log.len() == at + 1 && log[at as int]
            == Reply::Done ==> connect_run(log, at, path, capacity) == Run::<()>::Ask(
            RequestView::Connect(path),
        ),
        0 < encode_utf8(path).len() < capacity && log.len() > at + 1 && log[at as int]
            == Reply::Done && log[at as int + 1] == Reply::Connect(Attempt::Connected)
            ==> connect_run(log, at, path, capacity) == Run::Done((), at + 2),
        0 < encode_utf8(path).len() < capacity && log.len() == at + 2 && log[at as int]
            == Reply::Done && (log[at as int + 1] == Reply::Connect(Attempt::InProgress) || log[at
            as int + 1] == Reply::Connect(Attempt::TryAgain)) ==> connect_run(
            log,
            at,
            path,
            capacity,
        ) == Run::<()>::Ask(RequestView::Remaining),
        0 < encode_utf8(path).len() < capacity && log.len() == at + 3 && log[at as int]
            == Reply::Done && log[at as int + 1] == Reply::Connect(Attempt::TryAgain) && log[at
            as int + 2] == Reply::Number(left) && left > 0 ==> connect_run(log, at, path, capacity)
            == Run::<()>::Ask(
            RequestView::Sleep(
                if left < 5_000_000 {
                    left
                } else {
                    5_000_000
                },
            ),
        ),
        0 < encode_utf8(path).len() < capacity && log.len() == at + 3 && log[at as int]
            == Reply::Done && log[at as int + 1] == Reply::Connect(Attempt::InProgress) && log[at
            as int + 2] == Reply::Number(left) && 1_000_000 <= left && left / 1_000_000
            <= 0x7fff_ffff ==> connect_run(log, at, path, capacity) == Run::<()>::Ask(
            RequestView::PollWritable(left / 1_000_000),
        ),
{
}

/// A connection that was waited for is there where the socket says nothing else; where no event came in
/// time, it has timed out.
pub proof fn law_a_connection_is_waited_for(log: Seq<Reply>, at: nat, left: u64, events: u64)
    requires
        log.len() > at + 1,
        log[at as int] == Reply::Number(left),
        left > 0,
        log[at as int + 1] == Reply::Number(events),
    ensures
        events == 0 ==> writable_run(log, at) == Run::<()>::Fail(ErrorView::Timeout, at + 2),
        events > 0 && log.len() == at + 2 ==> writable_run(log, at) == Run::<()>::Ask(
            RequestView::SocketError,
        ),
        events > 0 && log.len() > at + 2 && log[at as int + 2] == Reply::Done ==> writable_run(
            log,
            at,
        ) == Run::Done((), at + 3),
{
}

/// The length of a longer frame comes in two bytes, or in eight, the higher ones first; one that would
/// have fitted in fewer is refused.
pub proof fn law_lengths_of_longer_frames(
    log: Seq<Reply>,
    at: nat,
    high: u8,
    low: u8,
    two: Vec<u8>,
    time: u64,
)
    requires
        log.len() == at + 2,
        log[at as int] == Reply::Number(time),
        time > 0,
        log[at as int + 1] == Reply::Bytes(two),
        two@ == seq![high, low],
    ensures
        256 * high + low >= 126 ==> length_run(log, at, 126) == Run::Done(
            (256 * high + low) as nat,
            at + 2,
        ),
        256 * high + low < 126 ==> length_run(log, at, 126) is Fail,
        length_run(log.take(at as int + 1), at, 126) == Run::<nat>::Ask(
            RequestView::ReadSome { limit: 2, timeout: time },
        ),
        length_run(log.take(at as int + 1), at, 127) == Run::<nat>::Ask(
            RequestView::ReadSome { limit: 8, timeout: time },
        ),
        length_run(log, at, 125) == Run::Done(125nat, at),
{
    let empty = Seq::<u8>::empty();
    assert(empty + two@ =~= two@);
    reveal_with_fuel(read_run, 3);
    assert(read_run(log, at, 2, empty) == Run::Done(two@, at + 2));
    reveal_with_fuel(big_endian, 4);
    assert(two@.drop_last() =~= seq![high]);
    assert(seq![high].drop_last() =~= empty);
    assert(log.take(at as int + 1)[at as int] == log[at as int]);
}

/// A client of a server introduces itself, and has its first number free for what is asked next.
pub proof fn law_a_client_introduces_itself(
    log: Seq<Reply>,
    at: nat,
    path: Seq<char>,
    capacity: usize,
    timeout: u64,
    now: u64,
    n: nat,
    m: nat,
)
    ensures
        now + timeout > u64::MAX ==> client_run(log, at, path, capacity, timeout, now) == Run::<
            ControlClient,
        >::Fail(ErrorView::Timeout, at),
        now + timeout <= u64::MAX && connect_run(log, at, path, capacity) == Run::Done((), n)
            && upgrade_run(log, n) == Run::Done((), m) && log.len() == m ==> client_run(
            log,
            at,
            path,
            capacity,
            timeout,
            now,
        ) == Run::<ControlClient>::Ask(
            RequestView::Send(
                JsonView::Object(
                    seq![
                        ("id"@, JsonView::Integer(0)),
                        ("method"@, JsonView::Text("initialize"@)),
                        (
                            "params"@,
                            JsonView::Object(
                                seq![
                                    (
                                        "capabilities"@,
                                        JsonView::Object(
                                            seq![("experimentalApi"@, JsonView::Bool(true))],
                                        ),
                                    ),
                                    (
                                        "clientInfo"@,
                                        JsonView::Object(
                                            seq![
                                                ("name"@, JsonView::Text("cxa"@)),
                                                (
                                                    "title"@,
                                                    JsonView::Text("Codex Account Switcher"@),
                                                ),
                                                ("version"@, JsonView::Text("1"@)),
                                            ],
                                        ),
                                    ),
                                ],
                            ),
                        ),
                    ],
                ),
            ),
        ),
        client_run(log, at, path, capacity, timeout, now) matches Run::Done(client, _)
            ==> client.next_id == 1 && client.timeout == timeout && client.deadline is None,
{
}

/// What goes wrong on a socket: too late is a timeout, an end is the server's, and anything else says
/// what it was.
pub proof fn law_what_goes_wrong_on_a_socket(detail: Seq<char>)
    ensures
        trouble_error(Trouble::TimedOut, detail) == ErrorView::Timeout,
        trouble_error(Trouble::WouldBlock, detail) == ErrorView::Timeout,
        trouble_error(Trouble::UnexpectedEof, detail) == ErrorView::Protocol(
            "app server closed the control socket"@,
        ),
{
}

// ---------------------------------------------------------------- following a connection

/// The first two bytes of a short frame without a mask say how long it is, whether it ends a message and
/// what it is.
pub proof fn law_how_a_frame_begins(fragmented: bool, first: u8, second: u8)
    requires
        second <= 125,
    ensures
        ({
            let start = Position { frame: FrameView::Header(Seq::empty()), fragmented };
            let after = track(start, seq![first, second]);
            &&& second > 0 ==> after == (Position {
                frame: FrameView::Payload {
                    remaining: second as int,
                    fin: first >= 128,
                    opcode: first % 16,
                },
                fragmented,
            })
            &&& second == 0 ==> after.frame == FrameView::Header(Seq::empty()) && after.fragmented
                == after_frame(fragmented, first >= 128, first % 16)
        }),
{
    let start = Position { frame: FrameView::Header(Seq::empty()), fragmented };
    reveal_with_fuel(track, 3);
    let both = seq![first, second];
    assert(both.drop_last() =~= seq![first]);
    assert(seq![first].drop_last() =~= Seq::<u8>::empty());
    let one = Seq::<u8>::empty().push(first);
    assert(one =~= seq![first]);
    assert(track(start, seq![first]) == step(start, first));
    assert(one.push(second) =~= both);
}

/// The payload of a frame is passed over byte by byte; after the last one the next frame begins.
pub proof fn law_how_a_payload_is_passed_over(
    remaining: int,
    fin: bool,
    opcode: u8,
    fragmented: bool,
    bytes: Seq<u8>,
)
    requires
        0 < remaining,
        bytes.len() <= remaining,
    ensures
        ({
            let start = Position {
                frame: FrameView::Payload { remaining, fin, opcode },
                fragmented,
            };
            let after = track(start, bytes);
            &&& bytes.len() < remaining ==> after == (Position {
                frame: FrameView::Payload { remaining: remaining - bytes.len(), fin, opcode },
                fragmented,
            })
            &&& bytes.len() == remaining ==> after.frame == FrameView::Header(Seq::empty())
                && after.fragmented == after_frame(fragmented, fin, opcode)
        }),
    decreases bytes.len(),
{
    if bytes.len() > 0 {
        law_how_a_payload_is_passed_over(remaining, fin, opcode, fragmented, bytes.drop_last());
    }
}

/// Publishing a socket waits for it for ten seconds, in the one place where it belongs.
pub proof fn law_how_long_a_socket_is_waited_for(
    log: Seq<Reply>,
    name: Seq<char>,
    expected: u32,
    user: u32,
    group: u32,
    now: u64,
    then: u64,
)
    requires
        log == seq![
            Reply::Number(user as u64),
            Reply::Number(group as u64),
            Reply::Done,
            (Reply::Owners { user, group }),
            Reply::Number(now),
            Reply::Number(then),
        ],
    ensures
        publish_run(log.take(2), 0, name, expected) == Run::<()>::Ask(
            RequestView::OpenDirectory("/var/lib/codex-auth"@),
        ),
        then >= now + 10_000_000_000 ==> publish_run(log, 0, name, expected) is Fail,
        then < now + 10_000_000_000 ==> publish_run(log, 0, name, expected) == Run::<()>::Ask(
            RequestView::SocketEntry(joined("/var/lib/codex-auth"@, "app-server.sock"@)),
        ),
{
}

}
