//! A control connection to a running app server: a WebSocket client on a Unix socket.
use crate::app_server::{
    call, call_run, client_info, client_information, initialized_message, MAX_MESSAGE_SIZE,
};
use crate::auth::copy_bytes;
use crate::effects::{
    ask, done, done_run, mismatch, mismatched, reply_run, told, told_json, Attempt, Halt, Reply,
    Request, RequestView, Run, Trouble,
};
use crate::error::{Error, ErrorView};
use crate::handshake::{
    base64_standard, encode_standard, upgrade_fault, upgrade_request, upgrade_request_text,
    validate_upgrade,
};
use crate::json::{
    field, json_parsed, object1, object2, parse, utf8_complaint, utf8_text, Json, JsonView,
};
use crate::sha1::{big_endian_bytes, push_big_endian};
use crate::text::{decimal, decimal_text};
use crate::wire::{big_endian, body_length, header_length, number};
use vstd::prelude::*;
use vstd::string::*;
use vstd::utf8::{encode_utf8, valid_utf8};

verus! {

/// How long an operation may take where nothing else is said, in nanoseconds.
pub const DEFAULT_TIMEOUT: u64 = 20_000_000_000;

/// How long the answer to the opening request may be.
pub const MAX_HANDSHAKE_SIZE: usize = 16_384;

// ---------------------------------------------------------------- bytes in and out

/// The failure that a socket's trouble amounts to.
pub open spec fn trouble_error(trouble: Trouble, detail: Seq<char>) -> ErrorView {
    match trouble {
        Trouble::TimedOut | Trouble::WouldBlock => ErrorView::Timeout,
        Trouble::UnexpectedEof => ErrorView::Protocol("app server closed the control socket"@),
        _ => ErrorView::Io { path: "app-server control socket"@, detail },
    }
}

/// The failure that a socket's trouble amounts to.
pub fn socket_error(trouble: Trouble, detail: &str) -> (r: Error)
    ensures
        r@ == trouble_error(trouble, detail@),
{
    match trouble {
        Trouble::TimedOut | Trouble::WouldBlock => Error::Timeout,
        Trouble::UnexpectedEof => Error::protocol("app server closed the control socket"),
        _ => Error::Io {
            path: "app-server control socket".to_owned(),
            detail: detail.to_owned(),
        },
    }
}

/// The time that is left; a failure where none is.
pub open spec fn remaining_run(log: Seq<Reply>, at: nat) -> Run<u64> {
    reply_run(log, at, RequestView::Remaining).bind(
        |reply: Reply, n: nat|
            match reply {
                Reply::Number(left) => if left == 0 {
                    Run::Fail(ErrorView::Timeout, n)
                } else {
                    Run::Done(left, n)
                },
                Reply::Failed(error) => Run::Fail(error@, n),
                _ => Run::Fail(mismatch(), n),
            },
    )
}

fn remaining(log: &Vec<Reply>, at: &mut usize) -> (r: Result<u64, Halt>)
    requires
        *old(at) <= log.len(),
    ensures
        *final(at) <= log.len(),
        told(r, *final(at), remaining_run(log@, *old(at) as nat)),
{
    match ask(log, at, Request::Remaining)? {
        Reply::Number(left) => if *left == 0 {
            Err(Halt::Fail(Error::Timeout))
        } else {
            Ok(*left)
        },
        Reply::Failed(error) => Err(Halt::Fail(error.clone())),
        _ => Err(mismatched()),
    }
}

/// Reads until there are `wanted` bytes, of which `got` are there.
pub open spec fn read_run(log: Seq<Reply>, at: nat, wanted: nat, got: Seq<u8>) -> Run<Seq<u8>>
    decreases log.len() - at,
{
    if got.len() >= wanted {
        Run::Done(got, at)
    } else {
        match remaining_run(log, at) {
            Run::Fail(error, n) => Run::Fail(error, n),
            Run::Ask(request) => Run::Ask(request),
            Run::Done(timeout, _) => if at + 1 >= log.len() {
                Run::Ask(
                    RequestView::ReadSome { limit: (wanted - got.len()) as usize, timeout },
                )
            } else {
                match log[at + 1int] {
                    Reply::Bytes(bytes) => if bytes@.len() == 0 {
                        Run::Fail(
                            ErrorView::Protocol("app server closed the control socket"@),
                            at + 2,
                        )
                    } else if bytes@.len() > wanted - got.len() {
                        Run::Fail(mismatch(), at + 2)
                    } else {
                        read_run(log, at + 2, wanted, got + bytes@)
                    },
                    Reply::Socket { trouble, detail } => if trouble == Trouble::Interrupted {
                        read_run(log, at + 2, wanted, got)
                    } else {
                        Run::Fail(trouble_error(trouble, detail@), at + 2)
                    },
                    Reply::Failed(error) => Run::Fail(error@, at + 2),
                    _ => Run::Fail(mismatch(), at + 2),
                }
            },
        }
    }
}

/// `told` for a procedure whose result is a byte string.
pub open spec fn told_bytes(r: Result<Vec<u8>, Halt>, at: usize, run: Run<Seq<u8>>) -> bool {
    match r {
        Ok(value) => run == Run::Done(value@, at as nat),
        Err(Halt::Fail(error)) => run == Run::<Seq<u8>>::Fail(error@, at as nat),
        Err(Halt::Ask(request)) => run == Run::<Seq<u8>>::Ask(request@),
    }
}

/// Reading uses up replies, and what it comes to has the length that was asked for.
pub proof fn lemma_read(log: Seq<Reply>, at: nat, wanted: nat, got: Seq<u8>)
    requires
        got.len() <= wanted,
    ensures
        read_run(log, at, wanted, got) matches Run::Done(bytes, n) ==> bytes.len() == wanted && n
            >= at && (got.len() < wanted ==> n > at) && (n == at || n <= log.len()),
    decreases log.len() - at,
{
    if got.len() < wanted && at + 1 < log.len() {
        match log[at + 1int] {
            Reply::Bytes(bytes) => {
                if 0 < bytes@.len() <= wanted - got.len() {
                    lemma_read(log, at + 2, wanted, got + bytes@);
                }
            },
            Reply::Socket { .. } => {
                lemma_read(log, at + 2, wanted, got);
            },
            _ => {},
        }
    }
}

/// Reads exactly so many bytes.
pub fn read_exact(wanted: usize, log: &Vec<Reply>, at: &mut usize) -> (r: Result<Vec<u8>, Halt>)
    requires
        *old(at) <= log.len(),
    ensures
        *final(at) <= log.len(),
        told_bytes(r, *final(at), read_run(log@, *old(at) as nat, wanted as nat, Seq::empty())),
        r matches Ok(bytes) ==> bytes@.len() == wanted,
{
    let mut got: Vec<u8> = Vec::new();
    proof {
        assert(got@ =~= Seq::<u8>::empty());
    }
    while got.len() < wanted
        invariant
            *at <= log.len(),
            got.len() <= wanted,
            read_run(log@, *old(at) as nat, wanted as nat, Seq::empty()) == read_run(
                log@,
                *at as nat,
                wanted as nat,
                got@,
            ),
        decreases log.len() - *at,
    {
        let timeout = remaining(log, at)?;
        let limit: usize = wanted - got.len();
        match ask(log, at, Request::ReadSome { limit, timeout })? {
            Reply::Bytes(bytes) => {
                if bytes.len() == 0 {
                    return Err(
                        Halt::Fail(Error::protocol("app server closed the control socket")),
                    );
                }
                if bytes.len() > limit {
                    return Err(mismatched());
                }
                push_all(&mut got, bytes);
            },
            Reply::Socket { trouble, detail } => {
                if *trouble != Trouble::Interrupted {
                    return Err(Halt::Fail(socket_error(*trouble, detail)));
                }
            },
            Reply::Failed(error) => {
                return Err(Halt::Fail(error.clone()));
            },
            _ => {
                return Err(mismatched());
            },
        }
    }
    Ok(got)
}

fn push_all(out: &mut Vec<u8>, bytes: &Vec<u8>)
    ensures
        final(out)@ == old(out)@ + bytes@,
{
    let mut i: usize = 0;
    proof {
        assert(old(out)@ + bytes@.take(0) =~= old(out)@);
    }
    while i < bytes.len()
        invariant
            i <= bytes.len(),
            out@ == old(out)@ + bytes@.take(i as int),
        decreases bytes.len() - i,
    {
        out.push(bytes[i]);
        i += 1;
        proof {
            assert(out@ =~= old(out)@ + bytes@.take(i as int));
        }
    }
    proof {
        assert(bytes@.take(i as int) =~= bytes@);
    }
}

/// Writes bytes, all of them.
pub open spec fn write_run(log: Seq<Reply>, at: nat, bytes: Seq<u8>) -> Run<()>
    decreases log.len() - at,
{
    if bytes.len() == 0 {
        Run::Done((), at)
    } else {
        match remaining_run(log, at) {
            Run::Fail(error, n) => Run::Fail(error, n),
            Run::Ask(request) => Run::Ask(request),
            Run::Done(timeout, _) => if at + 1 >= log.len() {
                Run::Ask(RequestView::WriteSome { bytes, timeout })
            } else {
                match log[at + 1int] {
                    Reply::Number(count) => if count == 0 {
                        Run::Fail(
                            ErrorView::Protocol("app server closed the control socket"@),
                            at + 2,
                        )
                    } else if count > bytes.len() {
                        Run::Fail(mismatch(), at + 2)
                    } else {
                        write_run(log, at + 2, bytes.skip(count as int))
                    },
                    Reply::Socket { trouble, detail } => if trouble == Trouble::Interrupted {
                        write_run(log, at + 2, bytes)
                    } else {
                        Run::Fail(trouble_error(trouble, detail@), at + 2)
                    },
                    Reply::Failed(error) => Run::Fail(error@, at + 2),
                    _ => Run::Fail(mismatch(), at + 2),
                }
            },
        }
    }
}

/// Writing uses replies in order.
pub proof fn lemma_write(log: Seq<Reply>, at: nat, bytes: Seq<u8>)
    ensures
        write_run(log, at, bytes) matches Run::Done(_, n) ==> n >= at && (n == at || n <= log.len()),
    decreases log.len() - at,
{
    if bytes.len() > 0 && at + 1 < log.len() {
        match log[at + 1int] {
            Reply::Number(count) => {
                if 0 < count <= bytes.len() {
                    lemma_write(log, at + 2, bytes.skip(count as int));
                }
            },
            Reply::Socket { .. } => {
                lemma_write(log, at + 2, bytes);
            },
            _ => {},
        }
    }
}

fn tail_of(bytes: &Vec<u8>, from: usize) -> (r: Vec<u8>)
    requires
        from <= bytes.len(),
    ensures
        r@ == bytes@.skip(from as int),
{
    let mut out: Vec<u8> = Vec::new();
    let mut i: usize = from;
    while i < bytes.len()
        invariant
            from <= i <= bytes.len(),
            out@ == bytes@.subrange(from as int, i as int),
        decreases bytes.len() - i,
    {
        out.push(bytes[i]);
        i += 1;
        proof {
            assert(out@ =~= bytes@.subrange(from as int, i as int));
        }
    }
    proof {
        assert(out@ =~= bytes@.skip(from as int));
    }
    out
}

/// Writes bytes, all of them.
pub fn write_all(bytes: &Vec<u8>, log: &Vec<Reply>, at: &mut usize) -> (r: Result<(), Halt>)
    requires
        *old(at) <= log.len(),
    ensures
        *final(at) <= log.len(),
        told(r, *final(at), write_run(log@, *old(at) as nat, bytes@)),
{
    let mut offset: usize = 0;
    proof {
        assert(bytes@.skip(0) =~= bytes@);
    }
    while offset < bytes.len()
        invariant
            *at <= log.len(),
            offset <= bytes.len(),
            write_run(log@, *old(at) as nat, bytes@) == write_run(
                log@,
                *at as nat,
                bytes@.skip(offset as int),
            ),
        decreases log.len() - *at,
    {
        let timeout = remaining(log, at)?;
        let rest = tail_of(bytes, offset);
        match ask(log, at, Request::WriteSome { bytes: rest, timeout })? {
            Reply::Number(count) => {
                if *count == 0 {
                    return Err(
                        Halt::Fail(Error::protocol("app server closed the control socket")),
                    );
                }
                if *count > (bytes.len() - offset) as u64 {
                    return Err(mismatched());
                }
                proof {
                    assert(bytes@.skip(offset as int).skip(*count as int) =~= bytes@.skip(
                        offset + *count,
                    ));
                }
                offset = offset + *count as usize;
            },
            Reply::Socket { trouble, detail } => {
                if *trouble != Trouble::Interrupted {
                    return Err(Halt::Fail(socket_error(*trouble, detail)));
                }
            },
            Reply::Failed(error) => {
                return Err(Halt::Fail(error.clone()));
            },
            _ => {
                return Err(mismatched());
            },
        }
    }
    Ok(())
}

/// Random bytes.
pub open spec fn random_run(log: Seq<Reply>, at: nat, count: usize) -> Run<Seq<u8>> {
    reply_run(log, at, RequestView::Random(count)).bind(
        |reply: Reply, n: nat|
            match reply {
                Reply::Bytes(bytes) => if bytes@.len() == count {
                    Run::Done(bytes@, n)
                } else {
                    Run::Fail(mismatch(), n)
                },
                Reply::Failed(error) => Run::Fail(error@, n),
                _ => Run::Fail(mismatch(), n),
            },
    )
}

fn random(count: usize, log: &Vec<Reply>, at: &mut usize) -> (r: Result<Vec<u8>, Halt>)
    requires
        *old(at) <= log.len(),
    ensures
        *final(at) <= log.len(),
        told_bytes(r, *final(at), random_run(log@, *old(at) as nat, count)),
        r matches Ok(bytes) ==> bytes@.len() == count,
{
    match ask(log, at, Request::Random(count))? {
        Reply::Bytes(bytes) => if bytes.len() == count {
            Ok(copy_bytes(bytes))
        } else {
            Err(mismatched())
        },
        Reply::Failed(error) => Err(Halt::Fail(error.clone())),
        _ => Err(mismatched()),
    }
}

// ---------------------------------------------------------------- opening

/// Whether bytes end with an empty line.
pub open spec fn ends_headers(bytes: Seq<u8>) -> bool {
    bytes.len() >= 4 && bytes[bytes.len() - 4] == 13 && bytes[bytes.len() - 3] == 10 && bytes[
        bytes.len() - 2] == 13 && bytes[bytes.len() - 1] == 10
}

/// Reads an answer byte by byte up to its empty line.
pub open spec fn response_run(log: Seq<Reply>, at: nat, got: Seq<u8>) -> Run<Seq<u8>>
    decreases log.len() - at,
{
    if ends_headers(got) {
        Run::Done(got, at)
    } else if got.len() >= MAX_HANDSHAKE_SIZE {
        Run::Fail(ErrorView::Protocol("oversized WebSocket handshake"@), at)
    } else {
        proof {
            lemma_read(log, at, 1, Seq::empty());
        }
        match read_run(log, at, 1, Seq::empty()) {
            Run::Fail(error, n) => Run::Fail(error, n),
            Run::Ask(request) => Run::Ask(request),
            Run::Done(byte, n) => response_run(log, n, got + byte),
        }
    }
}

fn headers_end(bytes: &Vec<u8>) -> (r: bool)
    ensures
        r == ends_headers(bytes@),
{
    let n: usize = bytes.len();
    n >= 4 && bytes[n - 4] == 13 && bytes[n - 3] == 10 && bytes[n - 2] == 13 && bytes[n - 1] == 10
}

/// Opens the WebSocket connection.
pub open spec fn upgrade_run(log: Seq<Reply>, at: nat) -> Run<()> {
    random_run(log, at, 16).bind(
        |nonce: Seq<u8>, n: nat|
            {
                let key = base64_standard(nonce);
                write_run(log, n, encode_utf8(upgrade_request_text(key))).next(
                    |m: nat|
                        response_run(log, m, Seq::empty()).bind(
                            |response: Seq<u8>, k: nat|
                                match upgrade_fault(response, key) {
                                    None => Run::Done((), k),
                                    Some(fault) => Run::Fail(ErrorView::Protocol(fault), k),
                                },
                        ),
                )
            },
    )
}

fn response(log: &Vec<Reply>, at: &mut usize) -> (r: Result<Vec<u8>, Halt>)
    requires
        *old(at) <= log.len(),
    ensures
        *final(at) <= log.len(),
        told_bytes(r, *final(at), response_run(log@, *old(at) as nat, Seq::empty())),
{
    let mut got: Vec<u8> = Vec::new();
    proof {
        assert(got@ =~= Seq::<u8>::empty());
    }
    while !headers_end(&got)
        invariant
            *at <= log.len(),
            response_run(log@, *old(at) as nat, Seq::empty()) == response_run(
                log@,
                *at as nat,
                got@,
            ),
        decreases log.len() - *at,
    {
        if got.len() >= MAX_HANDSHAKE_SIZE {
            return Err(Halt::Fail(Error::protocol("oversized WebSocket handshake")));
        }
        proof {
            lemma_read(log@, *at as nat, 1, Seq::empty());
        }
        let byte = read_exact(1, log, at)?;
        push_all(&mut got, &byte);
    }
    Ok(got)
}

/// Opens the WebSocket connection.
pub fn upgrade(log: &Vec<Reply>, at: &mut usize) -> (r: Result<(), Halt>)
    requires
        *old(at) <= log.len(),
    ensures
        *final(at) <= log.len(),
        told(r, *final(at), upgrade_run(log@, *old(at) as nat)),
{
    let nonce = random(16, log, at)?;
    let key = encode_standard(&nonce);
    write_all(&upgrade_request(&key).as_str().as_bytes_vec(), log, at)?;
    let answer = response(log, at)?;
    match validate_upgrade(&answer, &key) {
        Ok(_) => Ok(()),
        Err(error) => Err(Halt::Fail(error)),
    }
}

// ---------------------------------------------------------------- sending

/// The head of a frame that is the whole of its message, without the mask.
pub open spec fn frame_head(opcode: u8, length: nat) -> Seq<u8> {
    seq![(128 + opcode) as u8] + (if length <= 125 {
        seq![(128 + length) as u8]
    } else if length <= 65535 {
        seq![254u8] + big_endian_bytes(length, 2)
    } else {
        seq![255u8] + big_endian_bytes(length, 8)
    })
}

/// Bytes under a mask of four bytes.
pub open spec fn masked(payload: Seq<u8>, mask: Seq<u8>) -> Seq<u8> {
    Seq::new(payload.len(), |i: int| payload[i] ^ mask[i % 4])
}

/// Sends one frame.
pub open spec fn send_run(log: Seq<Reply>, at: nat, opcode: u8, payload: Seq<u8>) -> Run<()> {
    if payload.len() > MAX_MESSAGE_SIZE {
        Run::Fail(ErrorView::Protocol("oversized app-server request"@), at)
    } else if opcode >= 8 && payload.len() > 125 {
        Run::Fail(ErrorView::Protocol("oversized WebSocket control frame"@), at)
    } else {
        random_run(log, at, 4).bind(
            |mask: Seq<u8>, n: nat|
                write_run(log, n, frame_head(opcode, payload.len()) + mask).next(
                    |m: nat| write_run(log, m, masked(payload, mask)),
                ),
        )
    }
}

/// Sending uses replies in order.
pub proof fn lemma_send(log: Seq<Reply>, at: nat, opcode: u8, payload: Seq<u8>)
    ensures
        send_run(log, at, opcode, payload) matches Run::Done(_, n) ==> n >= at && (n == at || n
            <= log.len()),
{
    if let Run::Done(mask, n) = random_run(log, at, 4) {
        lemma_write(log, n, frame_head(opcode, payload.len()) + mask);
        if let Run::Done(_, m) = write_run(log, n, frame_head(opcode, payload.len()) + mask) {
            lemma_write(log, m, masked(payload, mask));
        }
    }
}

fn head_of(opcode: u8, length: usize) -> (r: Vec<u8>)
    requires
        opcode < 16,
        length <= MAX_MESSAGE_SIZE,
    ensures
        r@ == frame_head(opcode, length as nat),
{
    let mut head: Vec<u8> = Vec::new();
    head.push(128 + opcode);
    if length <= 125 {
        head.push(128 + length as u8);
    } else if length <= 65535 {
        head.push(254);
        push_big_endian(&mut head, length as u64, 2);
    } else {
        head.push(255);
        push_big_endian(&mut head, length as u64, 8);
    }
    proof {
        assert(head@ =~= frame_head(opcode, length as nat));
    }
    head
}

fn under_mask(payload: &Vec<u8>, mask: &Vec<u8>) -> (r: Vec<u8>)
    requires
        mask.len() == 4,
    ensures
        r@ == masked(payload@, mask@),
{
    let mut out: Vec<u8> = Vec::new();
    let mut i: usize = 0;
    while i < payload.len()
        invariant
            mask.len() == 4,
            i <= payload.len(),
            out@ == masked(payload@, mask@).take(i as int),
        decreases payload.len() - i,
    {
        out.push(payload[i] ^ mask[i % 4]);
        i += 1;
        proof {
            assert(out@ =~= masked(payload@, mask@).take(i as int));
        }
    }
    proof {
        assert(masked(payload@, mask@).take(i as int) =~= masked(payload@, mask@));
    }
    out
}

/// Sends one frame.
pub fn send_frame(opcode: u8, payload: &Vec<u8>, log: &Vec<Reply>, at: &mut usize) -> (r: Result<
    (),
    Halt,
>)
    requires
        opcode < 16,
        *old(at) <= log.len(),
    ensures
        *final(at) <= log.len(),
        told(r, *final(at), send_run(log@, *old(at) as nat, opcode, payload@)),
{
    if payload.len() > MAX_MESSAGE_SIZE {
        return Err(Halt::Fail(Error::protocol("oversized app-server request")));
    }
    if opcode >= 8 && payload.len() > 125 {
        return Err(Halt::Fail(Error::protocol("oversized WebSocket control frame")));
    }
    let mut head = head_of(opcode, payload.len());
    let mask = random(4, log, at)?;
    push_all(&mut head, &mask);
    write_all(&head, log, at)?;
    write_all(&under_mask(payload, &mask), log, at)
}

/// Taking the same mask off again gives the bytes back.
pub proof fn law_mask_undoes_itself(payload: Seq<u8>, mask: Seq<u8>)
    requires
        mask.len() == 4,
    ensures
        masked(masked(payload, mask), mask) == payload,
{
    assert forall|i: int| 0 <= i < payload.len() implies masked(masked(payload, mask), mask)[i]
        == payload[i] by {
        let a = payload[i];
        let b = mask[i % 4];
        assert((a ^ b) ^ b == a) by (bit_vector);
    }
    assert(masked(masked(payload, mask), mask) =~= payload);
}

proof fn lemma_big_endian_reads(n: nat, count: nat, limit: nat)
    requires
        n < limit,
        limit == big_limit(count),
    ensures
        big_endian(big_endian_bytes(n, count)) == n,
        big_endian_bytes(n, count).len() == count,
    decreases count,
{
    if count > 0 {
        let rest = big_endian_bytes(n / 256, (count - 1) as nat);
        lemma_big_endian_reads(n / 256, (count - 1) as nat, big_limit((count - 1) as nat));
        assert(big_endian_bytes(n, count).drop_last() =~= rest);
    }
}

/// How many numbers fit in so many bytes.
spec fn big_limit(count: nat) -> nat
    decreases count,
{
    if count == 0 {
        1
    } else {
        256 * big_limit((count - 1) as nat)
    }
}

/// The head of a frame that is sent, read by the rules of the wire, announces the mask and the
/// length of the payload.
pub proof fn law_head_announces_payload(opcode: u8, length: nat, mask: Seq<u8>)
    requires
        opcode < 16,
        length <= MAX_MESSAGE_SIZE,
        mask.len() == 4,
    ensures
        ({
            let head = frame_head(opcode, length) + mask;
            &&& head[0] == 128 + opcode
            &&& head[1] >= 128
            &&& header_length(head) == head.len()
            &&& body_length(head) == length
        }),
{
    let head = frame_head(opcode, length) + mask;
    if length <= 125 {
        assert(head[1] == (128 + length) as u8);
    } else if length <= 65535 {
        assert(big_limit(2) == 65536) by {
            reveal_with_fuel(big_limit, 4);
        }
        lemma_big_endian_reads(length, 2, 65536);
        assert(head[1] == 254u8);
        assert(head.subrange(2, 4) =~= big_endian_bytes(length, 2));
    } else {
        assert(big_limit(8) == 0x1_0000_0000_0000_0000) by {
            reveal_with_fuel(big_limit, 10);
        }
        lemma_big_endian_reads(length, 8, 0x1_0000_0000_0000_0000);
        assert(head[1] == 255u8);
        assert(head.subrange(2, 10) =~= big_endian_bytes(length, 8));
    }
}

// ---------------------------------------------------------------- receiving

/// A frame.
pub struct Frame {
    pub final_frame: bool,
    pub opcode: u8,
    pub payload: Vec<u8>,
}

/// What a frame holds.
pub struct FrameData {
    pub final_frame: bool,
    pub opcode: u8,
    pub payload: Seq<u8>,
}

impl View for Frame {
    type V = FrameData;

    open spec fn view(&self) -> FrameData {
        FrameData {
            final_frame: self.final_frame,
            opcode: self.opcode,
            payload: self.payload@,
        }
    }
}

/// `told` for a procedure whose result is a frame.
pub open spec fn told_frame(r: Result<Frame, Halt>, at: usize, run: Run<FrameData>) -> bool {
    match r {
        Ok(frame) => run == Run::Done(frame@, at as nat),
        Err(Halt::Fail(error)) => run == Run::<FrameData>::Fail(error@, at as nat),
        Err(Halt::Ask(request)) => run == Run::<FrameData>::Ask(request@),
    }
}

/// The length that a frame announces in its second byte and what may follow it.
pub open spec fn length_run(log: Seq<Reply>, at: nat, second: u8) -> Run<nat> {
    let short = second % 128;
    if short == 126 {
        read_run(log, at, 2, Seq::empty()).bind(
            |bytes: Seq<u8>, n: nat|
                if big_endian(bytes) < 126 {
                    Run::Fail(ErrorView::Protocol("non-canonical WebSocket frame length"@), n)
                } else {
                    Run::Done(big_endian(bytes), n)
                },
        )
    } else if short == 127 {
        read_run(log, at, 8, Seq::empty()).bind(
            |bytes: Seq<u8>, n: nat|
                if big_endian(bytes) >= 0x8000_0000_0000_0000 {
                    Run::Fail(ErrorView::Protocol("invalid WebSocket frame length"@), n)
                } else if big_endian(bytes) <= 65535 {
                    Run::Fail(ErrorView::Protocol("non-canonical WebSocket frame length"@), n)
                } else {
                    Run::Done(big_endian(bytes), n)
                },
        )
    } else {
        Run::Done(short as nat, at)
    }
}

/// Reads one frame.
pub open spec fn frame_run(log: Seq<Reply>, at: nat) -> Run<FrameData> {
    read_run(log, at, 2, Seq::empty()).bind(
        |prefix: Seq<u8>, n: nat|
            if (prefix[0] / 16) % 8 != 0 {
                Run::Fail(ErrorView::Protocol("WebSocket frame uses reserved bits"@), n)
            } else if prefix[1] >= 128 {
                Run::Fail(ErrorView::Protocol("app server sent a masked WebSocket frame"@), n)
            } else {
                let final_frame = prefix[0] >= 128;
                let opcode = prefix[0] % 16;
                length_run(log, n, prefix[1]).bind(
                    |length: nat, m: nat|
                        if opcode >= 8 && (!final_frame || length > 125) {
                            Run::Fail(ErrorView::Protocol("invalid WebSocket control frame"@), m)
                        } else if length > MAX_MESSAGE_SIZE {
                            Run::Fail(
                                ErrorView::Protocol("oversized app-server WebSocket frame"@),
                                m,
                            )
                        } else {
                            read_run(log, m, length, Seq::empty()).bind(
                                |payload: Seq<u8>, k: nat|
                                    Run::Done(FrameData { final_frame, opcode, payload }, k),
                            )
                        },
                )
            },
    )
}

/// Reading a frame uses up replies, and a frame is as long as it may be.
pub proof fn lemma_frame(log: Seq<Reply>, at: nat)
    ensures
        frame_run(log, at) matches Run::Done(frame, n) ==> at < n <= log.len() && frame.opcode < 16
            && frame.payload.len() <= MAX_MESSAGE_SIZE && (frame.opcode >= 8 ==> frame.payload.len()
            <= 125),
{
    lemma_read(log, at, 2, Seq::empty());
    if let Run::Done(prefix, n) = read_run(log, at, 2, Seq::empty()) {
        lemma_read(log, n, 2, Seq::empty());
        lemma_read(log, n, 8, Seq::empty());
        if let Run::Done(length, m) = length_run(log, n, prefix[1]) {
            lemma_read(log, m, length, Seq::empty());
        }
    }
}

fn announced_length(second: u8, log: &Vec<Reply>, at: &mut usize) -> (r: Result<u64, Halt>)
    requires
        *old(at) <= log.len(),
    ensures
        *final(at) <= log.len(),
        match r {
            Ok(length) => length_run(log@, *old(at) as nat, second) == Run::Done(
                length as nat,
                *final(at) as nat,
            ),
            Err(Halt::Fail(error)) => length_run(log@, *old(at) as nat, second) == Run::<nat>::Fail(
                error@,
                *final(at) as nat,
            ),
            Err(Halt::Ask(request)) => length_run(log@, *old(at) as nat, second) == Run::<nat>::Ask(
                request@,
            ),
        },
{
    let short: u8 = second % 128;
    if short == 126 {
        let bytes = read_exact(2, log, at)?;
        let length: u64 = number(&bytes, 0, 2);
        proof {
            assert(bytes@.subrange(0, 2) =~= bytes@);
        }
        if length < 126 {
            return Err(Halt::Fail(Error::protocol("non-canonical WebSocket frame length")));
        }
        Ok(length)
    } else if short == 127 {
        let bytes = read_exact(8, log, at)?;
        let length: u64 = number(&bytes, 0, 8);
        proof {
            assert(bytes@.subrange(0, 8) =~= bytes@);
        }
        if length >= 0x8000_0000_0000_0000 {
            return Err(Halt::Fail(Error::protocol("invalid WebSocket frame length")));
        }
        if length <= 65535 {
            return Err(Halt::Fail(Error::protocol("non-canonical WebSocket frame length")));
        }
        Ok(length)
    } else {
        Ok(short as u64)
    }
}

/// Reads one frame. Its payload is asked for only once its length is known to be allowed.
pub fn read_frame(log: &Vec<Reply>, at: &mut usize) -> (r: Result<Frame, Halt>)
    requires
        *old(at) <= log.len(),
    ensures
        *final(at) <= log.len(),
        told_frame(r, *final(at), frame_run(log@, *old(at) as nat)),
{
    let prefix = read_exact(2, log, at)?;
    if (prefix[0] / 16) % 8 != 0 {
        return Err(Halt::Fail(Error::protocol("WebSocket frame uses reserved bits")));
    }
    if prefix[1] >= 128 {
        return Err(Halt::Fail(Error::protocol("app server sent a masked WebSocket frame")));
    }
    let final_frame = prefix[0] >= 128;
    let opcode: u8 = prefix[0] % 16;
    let length: u64 = announced_length(prefix[1], log, at)?;
    if opcode >= 8 && (!final_frame || length > 125) {
        return Err(Halt::Fail(Error::protocol("invalid WebSocket control frame")));
    }
    if length > MAX_MESSAGE_SIZE as u64 {
        return Err(Halt::Fail(Error::protocol("oversized app-server WebSocket frame")));
    }
    let payload = read_exact(length as usize, log, at)?;
    Ok(Frame { final_frame, opcode, payload })
}

/// What is wrong with a close frame's payload, if anything.
pub open spec fn close_fault(payload: Seq<u8>) -> Option<Seq<char>> {
    if payload.len() == 0 {
        None
    } else if payload.len() == 1 {
        Some("invalid WebSocket close payload"@)
    } else {
        let code = 256 * payload[0] + payload[1];
        if code < 1000 || code >= 5000 || code == 1004 || code == 1005 || code == 1006 || code
            == 1015 {
            Some("invalid WebSocket close code "@ + decimal_text(code as nat))
        } else if !valid_utf8(payload.skip(2)) {
            Some("invalid WebSocket close reason: "@ + utf8_complaint(payload.skip(2)))
        } else {
            None
        }
    }
}

/// Checks a close frame's payload.
pub fn validate_close_payload(payload: &Vec<u8>) -> (r: Result<(), Error>)
    ensures
        match r {
            Ok(_) => close_fault(payload@) is None,
            Err(error) => match close_fault(payload@) {
                Some(fault) => error@ == ErrorView::Protocol(fault),
                None => false,
            },
        },
{
    if payload.len() == 0 {
        return Ok(());
    }
    if payload.len() == 1 {
        return Err(Error::protocol("invalid WebSocket close payload"));
    }
    let code: u64 = 256 * payload[0] as u64 + payload[1] as u64;
    if code < 1000 || code >= 5000 || code == 1004 || code == 1005 || code == 1006 || code == 1015 {
        return Err(
            Error::Protocol("invalid WebSocket close code ".to_owned().concat(&decimal(code))),
        );
    }
    match utf8_text(tail_of(payload, 2)) {
        Ok(_) => Ok(()),
        Err(complaint) => Err(
            Error::Protocol("invalid WebSocket close reason: ".to_owned().concat(&complaint)),
        ),
    }
}

/// A hexadecimal digit.
pub open spec fn hex_digit(d: u8) -> char {
    if d < 10 {
        (48 + d) as char
    } else {
        (87 + d) as char
    }
}

/// The text that a complete message holds.
pub open spec fn text_verdict(message: Seq<u8>, at: nat) -> Run<Seq<u8>> {
    if valid_utf8(message) {
        Run::Done(message, at)
    } else {
        Run::Fail(
            ErrorView::Protocol(
                "invalid UTF-8 WebSocket message: "@ + utf8_complaint(message),
            ),
            at,
        )
    }
}

/// Receives a text message, of which `message` is there already where `fragmented` says that it
/// has begun. Pings are answered on the way.
pub open spec fn text_run(
    log: Seq<Reply>,
    at: nat,
    message: Seq<u8>,
    fragmented: bool,
) -> Run<Seq<u8>>
    decreases log.len() - at,
{
    proof {
        lemma_frame(log, at);
    }
    match frame_run(log, at) {
        Run::Fail(error, n) => Run::Fail(error, n),
        Run::Ask(request) => Run::Ask(request),
        Run::Done(frame, n) => {
            let opcode = frame.opcode;
            if opcode == 0 && !fragmented {
                Run::Fail(ErrorView::Protocol("unexpected WebSocket continuation frame"@), n)
            } else if opcode == 1 && fragmented {
                Run::Fail(
                    ErrorView::Protocol("new WebSocket data frame during fragmented message"@),
                    n,
                )
            } else if opcode == 0 || opcode == 1 {
                if message.len() + frame.payload.len() > MAX_MESSAGE_SIZE {
                    Run::Fail(ErrorView::Protocol("oversized app-server WebSocket message"@), n)
                } else if frame.final_frame {
                    text_verdict(message + frame.payload, n)
                } else {
                    text_run(log, n, message + frame.payload, true)
                }
            } else if opcode == 2 {
                Run::Fail(
                    ErrorView::Protocol("binary app-server WebSocket message is unsupported"@),
                    n,
                )
            } else if opcode == 8 {
                match close_fault(frame.payload) {
                    Some(fault) => Run::Fail(ErrorView::Protocol(fault), n),
                    None => send_run(log, n, 8, frame.payload).attempt().next(
                        |m: nat|
                            Run::Fail(
                                ErrorView::Protocol("app server closed the control socket"@),
                                m,
                            ),
                    ),
                }
            } else if opcode == 9 {
                proof {
                    lemma_send(log, n, 10, frame.payload);
                }
                match send_run(log, n, 10, frame.payload) {
                    Run::Fail(error, m) => Run::Fail(error, m),
                    Run::Ask(request) => Run::Ask(request),
                    Run::Done(_, m) => text_run(log, m, message, fragmented),
                }
            } else if opcode == 10 {
                text_run(log, n, message, fragmented)
            } else {
                Run::Fail(
                    ErrorView::Protocol(
                        ("unsupported WebSocket opcode 0x"@).push(hex_digit(opcode)),
                    ),
                    n,
                )
            }
        },
    }
}

fn hex(d: u8) -> (r: char)
    requires
        d < 16,
    ensures
        r == hex_digit(d),
{
    if d < 10 {
        (48 + d) as char
    } else {
        (87 + d) as char
    }
}

/// Checks that a message is text.
pub fn valid_text(message: Vec<u8>) -> (r: Result<Vec<u8>, Error>)
    ensures
        match r {
            Ok(text) => valid_utf8(message@) && text@ == message@,
            Err(error) => !valid_utf8(message@) && error@ == ErrorView::Protocol(
                "invalid UTF-8 WebSocket message: "@ + utf8_complaint(message@),
            ),
        },
{
    match utf8_text(copy_bytes(&message)) {
        Ok(_) => Ok(message),
        Err(complaint) => Err(
            Error::Protocol("invalid UTF-8 WebSocket message: ".to_owned().concat(&complaint)),
        ),
    }
}

/// Appends to a message, unless it grows too long.
pub fn append_payload(message: &mut Vec<u8>, payload: &Vec<u8>) -> (r: Result<(), Error>)
    ensures
        match r {
            Ok(_) => old(message)@.len() + payload@.len() <= MAX_MESSAGE_SIZE && final(message)@
                == old(message)@ + payload@,
            Err(error) => old(message)@.len() + payload@.len() > MAX_MESSAGE_SIZE
                && final(message)@ == old(message)@ && error@ == ErrorView::Protocol(
                "oversized app-server WebSocket message"@,
            ),
        },
{
    if message.len() > MAX_MESSAGE_SIZE || payload.len() > MAX_MESSAGE_SIZE - message.len() {
        return Err(Error::protocol("oversized app-server WebSocket message"));
    }
    push_all(message, payload);
    Ok(())
}

/// Receives a text message. Pings are answered on the way.
pub fn receive_text(log: &Vec<Reply>, at: &mut usize) -> (r: Result<Vec<u8>, Halt>)
    requires
        *old(at) <= log.len(),
    ensures
        *final(at) <= log.len(),
        told_bytes(r, *final(at), text_run(log@, *old(at) as nat, Seq::empty(), false)),
{
    let mut message: Vec<u8> = Vec::new();
    let mut fragmented = false;
    proof {
        assert(message@ =~= Seq::<u8>::empty());
    }
    loop
        invariant
            *at <= log.len(),
            text_run(log@, *old(at) as nat, Seq::empty(), false) == text_run(
                log@,
                *at as nat,
                message@,
                fragmented,
            ),
        decreases log.len() - *at,
    {
        proof {
            lemma_frame(log@, *at as nat);
        }
        let frame = read_frame(log, at)?;
        let opcode: u8 = frame.opcode;
        if opcode == 0 && !fragmented {
            return Err(Halt::Fail(Error::protocol("unexpected WebSocket continuation frame")));
        } else if opcode == 1 && fragmented {
            return Err(
                Halt::Fail(
                    Error::protocol("new WebSocket data frame during fragmented message"),
                ),
            );
        } else if opcode == 0 || opcode == 1 {
            match append_payload(&mut message, &frame.payload) {
                Ok(_) => {},
                Err(error) => return Err(Halt::Fail(error)),
            }
            if frame.final_frame {
                return match valid_text(message) {
                    Ok(text) => Ok(text),
                    Err(error) => Err(Halt::Fail(error)),
                };
            }
            fragmented = true;
        } else if opcode == 2 {
            return Err(
                Halt::Fail(
                    Error::protocol("binary app-server WebSocket message is unsupported"),
                ),
            );
        } else if opcode == 8 {
            match validate_close_payload(&frame.payload) {
                Ok(_) => {},
                Err(error) => return Err(Halt::Fail(error)),
            }
            if let Err(Halt::Ask(request)) = send_frame(8, &frame.payload, log, at) {
                return Err(Halt::Ask(request));
            }
            return Err(Halt::Fail(Error::protocol("app server closed the control socket")));
        } else if opcode == 9 {
            proof {
                lemma_send(log@, *at as nat, 10, frame.payload@);
            }
            send_frame(10, &frame.payload, log, at)?;
        } else if opcode != 10 {
            let mut text = "unsupported WebSocket opcode 0x".to_owned();
            text.push(hex(opcode));
            return Err(Halt::Fail(Error::Protocol(text)));
        }
    }
}

/// The message that a text holds.
pub fn read_message(payload: &Vec<u8>) -> (r: Result<Json, Error>)
    ensures
        match r {
            Ok(message) => json_parsed(payload@) == Ok::<JsonView, Seq<char>>(message@),
            Err(error) => match json_parsed(payload@) {
                Err(complaint) => error@ == ErrorView::Protocol(
                    "invalid app-server JSON: "@ + complaint,
                ),
                Ok(_) => false,
            },
        },
{
    match parse(payload.as_slice()) {
        Ok(message) => Ok(message),
        Err(complaint) => Err(
            Error::Protocol("invalid app-server JSON: ".to_owned().concat(&complaint)),
        ),
    }
}

// ---------------------------------------------------------------- connecting

/// The number of milliseconds to wait, at least one and no more than the system can count.
pub open spec fn poll_time(left: u64) -> u64 {
    let ms = left / 1_000_000;
    if ms < 1 {
        1
    } else if ms > 0x7fff_ffff {
        0x7fff_ffff
    } else {
        ms
    }
}

/// Waits until a connection that is under way stands or has failed.
pub open spec fn writable_run(log: Seq<Reply>, at: nat) -> Run<()>
    decreases log.len() - at,
{
    match remaining_run(log, at) {
        Run::Fail(error, n) => Run::Fail(error, n),
        Run::Ask(request) => Run::Ask(request),
        Run::Done(left, _) => if at + 1 >= log.len() {
            Run::Ask(RequestView::PollWritable(poll_time(left)))
        } else {
            match log[at + 1int] {
                Reply::Number(events) => if events == 0 {
                    Run::Fail(ErrorView::Timeout, at + 2)
                } else {
                    done_run(log, at + 2, RequestView::SocketError)
                },
                Reply::Socket { trouble: Trouble::Interrupted, .. } => writable_run(log, at + 2),
                Reply::Failed(error) => Run::Fail(error@, at + 2),
                _ => Run::Fail(mismatch(), at + 2),
            }
        },
    }
}

/// Waits until a connection that is under way stands or has failed.
pub fn wait_for_connect(log: &Vec<Reply>, at: &mut usize) -> (r: Result<(), Halt>)
    requires
        *old(at) <= log.len(),
    ensures
        *final(at) <= log.len(),
        told(r, *final(at), writable_run(log@, *old(at) as nat)),
{
    loop
        invariant
            *at <= log.len(),
            writable_run(log@, *old(at) as nat) == writable_run(log@, *at as nat),
        decreases log.len() - *at,
    {
        let left: u64 = remaining(log, at)?;
        let ms: u64 = left / 1_000_000;
        let time: u64 = if ms < 1 {
            1
        } else if ms > 0x7fff_ffff {
            0x7fff_ffff
        } else {
            ms
        };
        match ask(log, at, Request::PollWritable(time))? {
            Reply::Number(events) => {
                if *events == 0 {
                    return Err(Halt::Fail(Error::Timeout));
                }
                return done(log, at, Request::SocketError);
            },
            Reply::Socket { trouble: Trouble::Interrupted, .. } => {},
            Reply::Failed(error) => {
                return Err(Halt::Fail(error.clone()));
            },
            _ => {
                return Err(mismatched());
            },
        }
    }
}

/// How long to wait before the next attempt to connect: five milliseconds, or what is left.
pub open spec fn pause(left: u64) -> u64 {
    if left < 5_000_000 {
        left
    } else {
        5_000_000
    }
}

/// Tries to connect until it works or fails.
pub open spec fn dial_run(log: Seq<Reply>, at: nat, path: Seq<char>) -> Run<()>
    decreases log.len() - at,
{
    if at >= log.len() {
        Run::Ask(RequestView::Connect(path))
    } else {
        match log[at as int] {
            Reply::Connect(attempt) => match attempt {
                Attempt::Connected | Attempt::AlreadyConnected => Run::Done((), at + 1),
                Attempt::InProgress | Attempt::AlreadyInProgress => writable_run(log, at + 1),
                Attempt::TryAgain => match remaining_run(log, at + 1) {
                    Run::Fail(error, n) => Run::Fail(error, n),
                    Run::Ask(request) => Run::Ask(request),
                    Run::Done(left, _) => match done_run(
                        log,
                        at + 2,
                        RequestView::Sleep(pause(left)),
                    ) {
                        Run::Fail(error, n) => Run::Fail(error, n),
                        Run::Ask(request) => Run::Ask(request),
                        Run::Done(_, n) => dial_run(log, at + 3, path),
                    },
                },
            },
            Reply::Failed(error) => Run::Fail(error@, at + 1),
            _ => Run::Fail(mismatch(), at + 1),
        }
    }
}

/// Connects to a socket, whose path has to fit in `capacity` bytes with a terminator.
pub open spec fn connect_run(log: Seq<Reply>, at: nat, path: Seq<char>, capacity: usize) -> Run<()> {
    if encode_utf8(path).len() == 0 || encode_utf8(path).len() >= capacity {
        Run::Fail(
            ErrorView::Protocol("app-server socket path is too long: "@ + path),
            at,
        )
    } else {
        done_run(log, at, RequestView::OpenSocket).next(|n: nat| dial_run(log, n, path))
    }
}

fn dial(path: &str, log: &Vec<Reply>, at: &mut usize) -> (r: Result<(), Halt>)
    requires
        *old(at) <= log.len(),
    ensures
        *final(at) <= log.len(),
        told(r, *final(at), dial_run(log@, *old(at) as nat, path@)),
{
    loop
        invariant
            *at <= log.len(),
            dial_run(log@, *old(at) as nat, path@) == dial_run(log@, *at as nat, path@),
        decreases log.len() - *at,
    {
        match ask(log, at, Request::Connect(path.to_owned()))? {
            Reply::Connect(attempt) => match attempt {
                Attempt::Connected | Attempt::AlreadyConnected => return Ok(()),
                Attempt::InProgress | Attempt::AlreadyInProgress => {
                    return wait_for_connect(log, at);
                },
                Attempt::TryAgain => {
                    let left: u64 = remaining(log, at)?;
                    let time: u64 = if left < 5_000_000 {
                        left
                    } else {
                        5_000_000
                    };
                    done(log, at, Request::Sleep(time))?;
                },
            },
            Reply::Failed(error) => {
                return Err(Halt::Fail(error.clone()));
            },
            _ => {
                return Err(mismatched());
            },
        }
    }
}

/// Connects to a socket, whose path has to fit in `capacity` bytes with a terminator.
pub fn connect_socket(path: &str, capacity: usize, log: &Vec<Reply>, at: &mut usize) -> (r: Result<
    (),
    Halt,
>)
    requires
        *old(at) <= log.len(),
    ensures
        *final(at) <= log.len(),
        told(r, *final(at), connect_run(log@, *old(at) as nat, path@, capacity)),
{
    let bytes = path.as_bytes_vec();
    if bytes.len() == 0 || bytes.len() >= capacity {
        return Err(
            Halt::Fail(
                Error::Protocol("app-server socket path is too long: ".to_owned().concat(path)),
            ),
        );
    }
    done(log, at, Request::OpenSocket)?;
    dial(path, log, at)
}

// ---------------------------------------------------------------- the client

/// How this program introduces itself on a control connection.
pub open spec fn control_parameters() -> JsonView {
    JsonView::Object(
        seq![
            (
                "capabilities"@,
                JsonView::Object(seq![("experimentalApi"@, JsonView::Bool(true))]),
            ),
            ("clientInfo"@, client_info()),
        ],
    )
}

/// Opens the conversation on a control connection.
pub open spec fn introduce_run(log: Seq<Reply>, at: nat) -> Run<()> {
    call_run(0, "initialize"@, Some(control_parameters()), true, log, at).next(
        |n: nat| done_run(log, n, RequestView::Send(initialized_message())),
    )
}

fn introduce(log: &Vec<Reply>, at: &mut usize) -> (r: Result<(), Halt>)
    requires
        *old(at) <= log.len(),
    ensures
        *final(at) <= log.len(),
        told(r, *final(at), introduce_run(log@, *old(at) as nat)),
{
    let params = object2(
        field("capabilities", object1(field("experimentalApi", Json::Bool(true)))),
        field("clientInfo", client_information()),
    );
    let _ = call(0, "initialize", Some(params), true, log, at)?;
    done(log, at, Request::Send(object1(field("method", Json::of("initialized")))))
}

/// A control connection. Times are in nanoseconds.
#[derive(Clone, Copy, PartialEq, Eq, Structural, Debug)]
pub struct ControlClient {
    pub next_id: i64,
    pub timeout: u64,
    pub deadline: Option<u64>,
}

/// Connects, upgrades and opens the conversation.
pub open spec fn client_run(
    log: Seq<Reply>,
    at: nat,
    path: Seq<char>,
    capacity: usize,
    timeout: u64,
    now: u64,
) -> Run<ControlClient> {
    if now + timeout > u64::MAX {
        Run::Fail(ErrorView::Timeout, at)
    } else {
        connect_run(log, at, path, capacity).next(
            |n: nat|
                upgrade_run(log, n).next(
                    |m: nat|
                        introduce_run(log, m).next(
                            |k: nat|
                                Run::Done(ControlClient { next_id: 1, timeout, deadline: None }, k),
                        ),
                ),
        )
    }
}

impl ControlClient {
    /// Connects to the app server on a socket.
    pub fn connect(
        path: &str,
        capacity: usize,
        now: u64,
        log: &Vec<Reply>,
        at: &mut usize,
    ) -> (r: Result<ControlClient, Halt>)
        requires
            *old(at) <= log.len(),
        ensures
            *final(at) <= log.len(),
            told(
                r,
                *final(at),
                client_run(log@, *old(at) as nat, path@, capacity, DEFAULT_TIMEOUT, now),
            ),
    {
        ControlClient::connect_with_timeout(path, capacity, DEFAULT_TIMEOUT, now, log, at)
    }

    /// Connects to the app server on a socket, where each operation may take `timeout`.
    pub fn connect_with_timeout(
        path: &str,
        capacity: usize,
        timeout: u64,
        now: u64,
        log: &Vec<Reply>,
        at: &mut usize,
    ) -> (r: Result<ControlClient, Halt>)
        requires
            *old(at) <= log.len(),
        ensures
            *final(at) <= log.len(),
            told(
                r,
                *final(at),
                client_run(log@, *old(at) as nat, path@, capacity, timeout, now),
            ),
    {
        if now > u64::MAX - timeout {
            return Err(Halt::Fail(Error::Timeout));
        }
        connect_socket(path, capacity, log, at)?;
        upgrade(log, at)?;
        introduce(log, at)?;
        Ok(ControlClient { next_id: 1, timeout, deadline: None })
    }

    /// Changes how long each operation may take.
    pub fn set_timeout(&mut self, timeout: u64)
        ensures
            *final(self) == (ControlClient { timeout, ..*old(self) }),
    {
        self.timeout = timeout;
    }

    /// Sets the moment after which no operation goes on.
    pub fn set_deadline(&mut self, deadline: u64)
        ensures
            *final(self) == (ControlClient { deadline: Some(deadline), ..*old(self) }),
    {
        self.deadline = Some(deadline);
    }

    /// The moment by which an operation that starts now has to end.
    pub open spec fn end_of_operation(self, now: u64) -> Option<int> {
        let own = now + self.timeout;
        let end = match self.deadline {
            Some(deadline) if deadline < own => deadline as int,
            _ => own,
        };
        if own > u64::MAX || end <= now {
            None
        } else {
            Some(end)
        }
    }

    /// The moment by which an operation that starts now has to end.
    pub fn operation_deadline(&self, now: u64) -> (r: Result<u64, Error>)
        ensures
            match r {
                Ok(end) => self.end_of_operation(now) == Some(end as int),
                Err(error) => self.end_of_operation(now) is None && error@ == ErrorView::Timeout,
            },
    {
        if now > u64::MAX - self.timeout {
            return Err(Error::Timeout);
        }
        let own: u64 = now + self.timeout;
        let end: u64 = match self.deadline {
            Some(deadline) => if deadline < own {
                deadline
            } else {
                own
            },
            None => own,
        };
        if end <= now {
            Err(Error::Timeout)
        } else {
            Ok(end)
        }
    }

    /// Takes the number of the next request.
    pub fn next_request(&mut self) -> (r: Result<i64, Error>)
        ensures
            match r {
                Ok(id) => id == old(self).next_id && old(self).next_id < i64::MAX && *final(self)
                    == (ControlClient { next_id: (id + 1) as i64, ..*old(self) }),
                Err(error) => old(self).next_id == i64::MAX && *final(self) == *old(self) && error@
                    == ErrorView::Protocol("app-server request id exhausted"@),
            },
    {
        if self.next_id == i64::MAX {
            return Err(Error::protocol("app-server request id exhausted"));
        }
        let id: i64 = self.next_id;
        self.next_id = id + 1;
        Ok(id)
    }

    /// Makes request number `id` and waits for its response. Requests that the app server makes
    /// in between are refused.
    pub fn request(
        &self,
        id: i64,
        method: &str,
        params: Json,
        log: &Vec<Reply>,
        at: &mut usize,
    ) -> (r: Result<Json, Halt>)
        requires
            *old(at) <= log.len(),
        ensures
            *final(at) <= log.len(),
            told_json(
                r,
                *final(at),
                call_run(id as int, method@, Some(params@), true, log@, *old(at) as nat),
            ),
    {
        call(id, method, Some(params), true, log, at)
    }
}

/// Whether sending a message begins the wait for an answer. A notification has none, and a refusal
/// changes nothing about the answer that is waited for.
pub fn expects_answer(message: &Json) -> (r: bool)
    ensures
        r == (message@.get("method"@) is Some && message@.get("id"@) is Some),
{
    message.get("method").is_some() && message.get("id").is_some()
}

/// No operation outlasts its timeout or the deadline.
pub proof fn law_operation_is_bounded(client: ControlClient, now: u64)
    ensures
        client.end_of_operation(now) matches Some(end) ==> now < end <= now + client.timeout && (
        client.deadline matches Some(deadline) ==> end <= deadline),
{
}

}
