//! Following WebSocket frames on the wire, and the life of a bridged connection.
use crate::error::{Error, ErrorView};
use crate::proxy::{
    client_action, decision_on, key_of, message_of, passes, pending_after, pending_left,
    server_message_allowed, ClientAction, DecisionView, Pending, CODEX_SUBPROTOCOL, FRAME_TIMEOUT,
    IDLE_CONNECTION_TIMEOUT, MAX_CLIENTS, MAX_DRAIN_MESSAGES,
};
use crate::json::json_text;
use crate::text::{parse_u32, parsed, same, split, split_on, texts, trim, trimmed};
use vstd::prelude::*;

verus! {

// ---------------------------------------------------------------- frames

/// Where the reader stands: in the head of a frame, of which some bytes are there, or in its
/// body.
pub enum FrameReadState {
    Header { bytes: Vec<u8> },
    Payload { remaining: u64, fin: bool, opcode: u8 },
}

/// Where the reader stands, with the bytes as a sequence.
pub enum FrameView {
    Header(Seq<u8>),
    Payload { remaining: int, fin: bool, opcode: u8 },
}

impl View for FrameReadState {
    type V = FrameView;

    open spec fn view(&self) -> FrameView {
        match self {
            FrameReadState::Header { bytes } => FrameView::Header(bytes@),
            FrameReadState::Payload { remaining, fin, opcode } => FrameView::Payload {
                remaining: *remaining as int,
                fin: *fin,
                opcode: *opcode,
            },
        }
    }
}

/// How long the head of a frame is, as far as its bytes say: two bytes, the longer length where
/// the short one stands for it, and a mask where there is one.
pub open spec fn header_length(header: Seq<u8>) -> nat {
    if header.len() < 2 {
        2
    } else {
        let short = header[1] % 128;
        2 + (if short == 126 {
            2nat
        } else if short == 127 {
            8
        } else {
            0
        }) + (if header[1] >= 128 {
            4nat
        } else {
            0
        })
    }
}

/// The number that bytes stand for, most significant first.
pub open spec fn big_endian(bytes: Seq<u8>) -> nat
    decreases bytes.len(),
{
    if bytes.len() == 0 {
        0
    } else {
        (256 * big_endian(bytes.drop_last()) + bytes.last()) as nat
    }
}

/// The length of the body that a complete head announces.
pub open spec fn body_length(header: Seq<u8>) -> nat {
    let short = header[1] % 128;
    if short == 126 {
        big_endian(header.subrange(2, 4))
    } else if short == 127 {
        big_endian(header.subrange(2, 10))
    } else {
        short as nat
    }
}

/// Where the reader stands, and whether a message is unfinished between two frames.
pub struct Position {
    pub frame: FrameView,
    pub fragmented: bool,
}

/// What a complete frame does to an unfinished message: the last frame of a message finishes it,
/// a first one that is not the last leaves it unfinished, a control frame changes nothing.
pub open spec fn after_frame(fragmented: bool, fin: bool, opcode: u8) -> bool {
    if opcode == 0 && fin {
        false
    } else if opcode == 1 || opcode == 2 {
        !fin
    } else {
        fragmented
    }
}

/// One byte further.
pub open spec fn step(state: Position, byte: u8) -> Position {
    match state.frame {
        FrameView::Header(before) => {
            let header = before.push(byte);
            if header.len() < 2 || header.len() < header_length(header) {
                Position { frame: FrameView::Header(header), ..state }
            } else {
                let fin = header[0] >= 128;
                let opcode = header[0] % 16;
                if body_length(header) == 0 {
                    Position {
                        frame: FrameView::Header(Seq::empty()),
                        fragmented: after_frame(state.fragmented, fin, opcode),
                    }
                } else {
                    Position {
                        frame: FrameView::Payload {
                            remaining: body_length(header) as int,
                            fin,
                            opcode,
                        },
                        ..state
                    }
                }
            }
        },
        FrameView::Payload { remaining, fin, opcode } => if remaining <= 1 {
            Position {
                frame: FrameView::Header(Seq::empty()),
                fragmented: after_frame(state.fragmented, fin, opcode),
            }
        } else {
            Position { frame: FrameView::Payload { remaining: remaining - 1, fin, opcode }, ..state }
        },
    }
}

/// Any number of bytes further.
pub open spec fn track(state: Position, bytes: Seq<u8>) -> Position
    decreases bytes.len(),
{
    if bytes.len() == 0 {
        state
    } else {
        step(track(state, bytes.drop_last()), bytes.last())
    }
}

/// How many bytes may be read without reading past the part of the frame that the reader is in.
pub open spec fn room(frame: FrameView) -> int {
    match frame {
        FrameView::Header(header) => header_length(header) - header.len(),
        FrameView::Payload { remaining, .. } => remaining,
    }
}

/// Follows the frames of one direction of a connection.
pub struct FrameTracker {
    pub frame: FrameReadState,
    pub fragmented: bool,
}

impl View for FrameTracker {
    type V = Position;

    open spec fn view(&self) -> Position {
        Position { frame: self.frame@, fragmented: self.fragmented }
    }
}

impl FrameTracker {
    /// A head that is not complete yet, or a body of which something is left.
    pub open spec fn wf(&self) -> bool {
        match self.frame@ {
            FrameView::Header(header) => header.len() < header_length(header),
            FrameView::Payload { remaining, .. } => remaining >= 1,
        }
    }

    /// A reader before the first frame.
    pub fn start_frames() -> (r: FrameTracker)
        ensures
            r.wf(),
            r@ == (Position { frame: FrameView::Header(Seq::empty()), fragmented: false }),
    {
        let r = FrameTracker {
            frame: FrameReadState::Header { bytes: Vec::new() },
            fragmented: false,
        };
        proof {
            assert(r.frame@->Header_0 =~= Seq::<u8>::empty());
        }
        r
    }

    /// Whether a frame or a message has begun and is not finished.
    pub fn has_partial_frame(&self) -> (r: bool)
        ensures
            r == (self.fragmented || self.frame@ != FrameView::Header(Seq::empty())),
    {
        let partial = match &self.frame {
            FrameReadState::Header { bytes } => {
                proof {
                    if bytes.len() == 0 {
                        assert(bytes@ =~= Seq::<u8>::empty());
                    }
                }
                bytes.len() != 0
            },
            FrameReadState::Payload { .. } => true,
        };
        self.fragmented || partial
    }

    /// How many bytes to ask for, where a buffer has room for `size`.
    pub fn limit(&self, size: usize) -> (r: usize)
        requires
            self.wf(),
        ensures
            r == (if room(self.frame@) <= size {
                room(self.frame@)
            } else {
                size as int
            }),
    {
        match &self.frame {
            FrameReadState::Header { bytes } => {
                let left: usize = head_length(bytes) - bytes.len();
                if left <= size {
                    left
                } else {
                    size
                }
            },
            FrameReadState::Payload { remaining, .. } => if *remaining <= size as u64 {
                *remaining as usize
            } else {
                size
            },
        }
    }

    fn advance_one(&mut self, byte: u8)
        requires
            old(self).wf(),
        ensures
            final(self).wf(),
            final(self)@ == step(old(self)@, byte),
    {
        let mut completed: Option<(bool, u8)> = None;
        let next = match &self.frame {
            FrameReadState::Header { bytes } => {
                let mut header = crate::auth::copy_bytes(bytes);
                header.push(byte);
                proof {
                    assert(header@ == bytes@.push(byte));
                }
                if header.len() < 2 || header.len() < head_length(&header) {
                    FrameReadState::Header { bytes: header }
                } else {
                    proof {
                        lemma_header_full(bytes@, byte);
                    }
                    let fin = header[0] >= 128;
                    let opcode: u8 = header[0] % 16;
                    let length: u64 = announced(&header);
                    if length == 0 {
                        completed = Some((fin, opcode));
                        FrameReadState::Header { bytes: Vec::new() }
                    } else {
                        FrameReadState::Payload { remaining: length, fin, opcode }
                    }
                }
            },
            FrameReadState::Payload { remaining, fin, opcode } => if *remaining <= 1 {
                completed = Some((*fin, *opcode));
                FrameReadState::Header { bytes: Vec::new() }
            } else {
                FrameReadState::Payload { remaining: *remaining - 1, fin: *fin, opcode: *opcode }
            },
        };
        self.frame = next;
        if let Some((fin, opcode)) = completed {
            if opcode == 0 && fin {
                self.fragmented = false;
            } else if opcode == 1 || opcode == 2 {
                self.fragmented = !fin;
            }
        }
        proof {
            if self.frame is Header && completed is Some {
                assert(self.frame@->Header_0 =~= Seq::<u8>::empty());
            }
        }
    }

    /// Follows bytes that were read.
    pub fn advance(&mut self, bytes: &Vec<u8>)
        requires
            old(self).wf(),
        ensures
            final(self).wf(),
            final(self)@ == track(old(self)@, bytes@),
    {
        let mut i: usize = 0;
        proof {
            assert(bytes@.take(0) =~= Seq::<u8>::empty());
        }
        while i < bytes.len()
            invariant
                i <= bytes.len(),
                self.wf(),
                self@ == track(old(self)@, bytes@.take(i as int)),
            decreases bytes.len() - i,
        {
            self.advance_one(bytes[i]);
            i += 1;
            proof {
                assert(bytes@.take(i as int).drop_last() =~= bytes@.take(i - 1));
            }
        }
        proof {
            assert(bytes@.take(i as int) =~= bytes@);
        }
    }
}

proof fn lemma_header_full(before: Seq<u8>, byte: u8)
    requires
        before.len() < header_length(before),
        before.push(byte).len() >= 2,
        before.push(byte).len() >= header_length(before.push(byte)),
    ensures
        before.push(byte).len() == header_length(before.push(byte)),
{
    let header = before.push(byte);
    if before.len() >= 2 {
        assert(header[1] == before[1]);
    }
}

fn head_length(header: &Vec<u8>) -> (r: usize)
    ensures
        r == header_length(header@),
        2 <= r <= 14,
{
    if header.len() < 2 {
        return 2;
    }
    let short: u8 = header[1] % 128;
    let extended: usize = if short == 126 {
        2
    } else if short == 127 {
        8
    } else {
        0
    };
    let mask: usize = if header[1] >= 128 {
        4
    } else {
        0
    };
    2 + extended + mask
}

pub(crate) fn number(bytes: &Vec<u8>, from: usize, to: usize) -> (r: u64)
    requires
        from <= to <= bytes.len(),
        to - from <= 8,
    ensures
        r == big_endian(bytes@.subrange(from as int, to as int)),
{
    let mut n: u64 = 0;
    let mut i: usize = from;
    let ghost mut bound: int = 1;
    proof {
        assert(bytes@.subrange(from as int, from as int) =~= Seq::<u8>::empty());
    }
    while i < to
        invariant
            from <= i <= to <= bytes.len(),
            to - from <= 8,
            n == big_endian(bytes@.subrange(from as int, i as int)),
            n < bound,
            bound == scale(i - from),
        decreases to - i,
    {
        proof {
            assert(bytes@.subrange(from as int, i + 1).drop_last() =~= bytes@.subrange(
                from as int,
                i as int,
            ));
            lemma_scale(i - from + 1);
        }
        n = 256 * n + bytes[i] as u64;
        i += 1;
        proof {
            bound = 256 * bound;
        }
    }
    n
}

spec fn scale(k: int) -> int
    decreases k,
{
    if k <= 0 {
        1
    } else {
        256 * scale(k - 1)
    }
}

proof fn lemma_scale(k: int)
    requires
        k <= 8,
    ensures
        scale(k) <= 0x1_0000_0000_0000_0000,
{
    reveal_with_fuel(scale, 10);
}

fn announced(header: &Vec<u8>) -> (r: u64)
    requires
        header.len() >= 2,
        header.len() == header_length(header@),
    ensures
        r == body_length(header@),
{
    let short: u8 = header[1] % 128;
    if short == 126 {
        number(header, 2, 4)
    } else if short == 127 {
        number(header, 2, 10)
    } else {
        short as u64
    }
}

/// It makes no difference in how many pieces the bytes are read.
pub proof fn law_frames_come_in_any_pieces(state: Position, a: Seq<u8>, b: Seq<u8>)
    ensures
        track(state, a + b) == track(track(state, a), b),
    decreases b.len(),
{
    if b.len() == 0 {
        assert(a + b =~= a);
    } else {
        law_frames_come_in_any_pieces(state, a, b.drop_last());
        assert((a + b).drop_last() =~= a + b.drop_last());
    }
}

/// Control frames between the frames of a message leave it unfinished.
pub proof fn law_control_frames_change_nothing(fragmented: bool, fin: bool, opcode: u8)
    requires
        opcode >= 8,
    ensures
        after_frame(fragmented, fin, opcode) == fragmented,
{
}

// ---------------------------------------------------------------- silence

/// What is left of a time span, at least a millisecond.
pub open spec fn left(span: u64, since: u64, now: u64) -> int {
    let passed = if now >= since {
        now - since
    } else {
        0
    };
    let rest = if passed >= span {
        0
    } else {
        span - passed
    };
    if rest < 1_000_000 {
        1_000_000
    } else {
        rest
    }
}

pub open spec fn shorter(a: int, b: Option<int>) -> int {
    match b {
        Some(b) if b < a => b,
        _ => a,
    }
}

/// What is left for an unfinished frame.
pub open spec fn frame_left(since: Option<u64>, now: u64) -> Option<int> {
    match since {
        Some(since) => Some(left(FRAME_TIMEOUT, since, now)),
        None => None,
    }
}

fn time_left(span: u64, since: u64, now: u64) -> (r: u64)
    requires
        span >= 1_000_000,
    ensures
        r == left(span, since, now),
        r <= span,
{
    let passed: u64 = if now >= since {
        now - since
    } else {
        0
    };
    let rest: u64 = if passed >= span {
        0
    } else {
        span - passed
    };
    if rest < 1_000_000 {
        1_000_000
    } else {
        rest
    }
}

/// How long to wait for either side, in nanoseconds: until the first unfinished frame or the
/// silence of the connection has lasted too long, and at least a millisecond.
pub fn connection_timeout(
    client_partial_since: Option<u64>,
    server_partial_since: Option<u64>,
    last_activity: u64,
    now: u64,
) -> (r: u64)
    ensures
        r == shorter(
            shorter(
                left(IDLE_CONNECTION_TIMEOUT, last_activity, now),
                frame_left(client_partial_since, now),
            ),
            frame_left(server_partial_since, now),
        ),
{
    let mut shortest: u64 = time_left(IDLE_CONNECTION_TIMEOUT, last_activity, now);
    if let Some(since) = client_partial_since {
        let rest: u64 = time_left(FRAME_TIMEOUT, since, now);
        if rest < shortest {
            shortest = rest;
        }
    }
    if let Some(since) = server_partial_since {
        let rest: u64 = time_left(FRAME_TIMEOUT, since, now);
        if rest < shortest {
            shortest = rest;
        }
    }
    shortest
}

/// Whether a time span has passed.
pub open spec fn over(span: u64, since: u64, now: u64) -> bool {
    now >= since && now - since >= span
}

pub open spec fn frame_over(since: Option<u64>, now: u64) -> bool {
    match since {
        Some(since) => over(FRAME_TIMEOUT, since, now),
        None => false,
    }
}

/// What was taken from one side.
pub struct Drained {
    /// How many messages were complete.
    pub messages: usize,
    /// A frame or a message has begun and is not finished.
    pub incomplete: bool,
    /// The side closed the connection.
    pub closed: bool,
}

/// When something last happened: now, where a message or a part of one came.
pub open spec fn active_after(previous: u64, drained: Drained, now: u64) -> u64 {
    if drained.messages > 0 || drained.incomplete {
        now
    } else {
        previous
    }
}

/// Since when a frame has been unfinished, after more was taken from its side.
pub open spec fn partial_after(previous: Option<u64>, drained: Drained, now: u64) -> Option<u64> {
    if drained.incomplete {
        match previous {
            Some(_) => previous,
            None => Some(now),
        }
    } else if drained.messages > 0 {
        None
    } else {
        previous
    }
}

/// Since when a frame has been unfinished, after more was taken from its side.
pub fn update_partial_deadline(previous: Option<u64>, drained: &Drained, now: u64) -> (r: Option<
    u64,
>)
    ensures
        r == partial_after(previous, *drained, now),
{
    if drained.incomplete {
        match previous {
            Some(since) => Some(since),
            None => Some(now),
        }
    } else if drained.messages > 0 {
        None
    } else {
        previous
    }
}

/// What reading a message came to.
#[derive(Clone, Copy, PartialEq, Eq, Structural, Debug)]
pub enum ReadOutcome {
    /// A message.
    Message,
    /// A message that closes the connection.
    Close,
    /// Nothing is there yet.
    WouldBlock,
    /// The connection is closed, with or without a farewell.
    Closed,
    /// The connection failed.
    Failed,
}

/// How taking messages from one side goes on.
#[derive(Clone, Copy, PartialEq, Eq, Structural, Debug)]
pub enum DrainStep {
    /// Another message may be read.
    Continue,
    /// Enough for now.
    Stop { incomplete: bool, closed: bool },
    /// The connection failed.
    Fail,
}

/// How taking messages goes on: until as many are there as may be taken at once, or no more come.
pub open spec fn drained_by(taken: usize, outcome: ReadOutcome, partial: bool) -> DrainStep {
    match outcome {
        ReadOutcome::Message => if taken + 1 >= MAX_DRAIN_MESSAGES {
            DrainStep::Stop { incomplete: false, closed: false }
        } else {
            DrainStep::Continue
        },
        ReadOutcome::Close => DrainStep::Stop { incomplete: false, closed: false },
        ReadOutcome::WouldBlock => DrainStep::Stop { incomplete: partial, closed: false },
        ReadOutcome::Closed => DrainStep::Stop { incomplete: false, closed: true },
        ReadOutcome::Failed => DrainStep::Fail,
    }
}

/// How taking messages goes on after one attempt to read, where `taken` messages were there
/// before it and `partial` says whether a frame has begun.
pub fn drain_step(taken: usize, outcome: ReadOutcome, partial: bool) -> (r: DrainStep)
    requires
        taken < MAX_DRAIN_MESSAGES,
    ensures
        r == (match outcome {
            ReadOutcome::Message => if taken + 1 >= MAX_DRAIN_MESSAGES {
                DrainStep::Stop { incomplete: false, closed: false }
            } else {
                DrainStep::Continue
            },
            ReadOutcome::Close => DrainStep::Stop { incomplete: false, closed: false },
            ReadOutcome::WouldBlock => DrainStep::Stop { incomplete: partial, closed: false },
            ReadOutcome::Closed => DrainStep::Stop { incomplete: false, closed: true },
            ReadOutcome::Failed => DrainStep::Fail,
        }),
        r == drained_by(taken, outcome, partial),
{
    match outcome {
        ReadOutcome::Message => if taken + 1 >= MAX_DRAIN_MESSAGES {
            DrainStep::Stop { incomplete: false, closed: false }
        } else {
            DrainStep::Continue
        },
        ReadOutcome::Close => DrainStep::Stop { incomplete: false, closed: false },
        ReadOutcome::WouldBlock => DrainStep::Stop { incomplete: partial, closed: false },
        ReadOutcome::Closed => DrainStep::Stop { incomplete: false, closed: true },
        ReadOutcome::Failed => DrainStep::Fail,
    }
}

// ---------------------------------------------------------------- the bridge

/// A WebSocket message.
pub enum Wire {
    Text(String),
    Ping(Vec<u8>),
    Pong,
    Close,
    Other,
}

/// What the bridge does about a message.
pub enum Relay {
    /// Sends a text to the app server.
    ToServer(String),
    /// Sends a text to the client.
    ToClient(String),
    /// Answers a ping of the side that it came from.
    Answer(Vec<u8>),
    /// Nothing.
    Drop,
    /// Closes the other side with the farewell that came, and ends.
    Close,
    /// Closes the other side as well as it can, and ends.
    HangUp,
}

/// Where a bridged connection stands in its round.
#[derive(Clone, Copy, PartialEq, Eq, Structural, Debug)]
pub enum Stage {
    /// Waiting for either side.
    Wait,
    /// The client has something to read, and the app server may have too.
    Client { server_ready: bool },
    /// The app server has something to read.
    Server,
    /// The connection is over.
    End,
}

/// The state of a bridged connection.
pub struct Bridge {
    pub pending: Pending,
    pub client_partial_since: Option<u64>,
    pub server_partial_since: Option<u64>,
    pub last_activity: u64,
}

/// What becomes of a client's message, where `before` and `after` are the requests that wait for
/// an answer.
pub open spec fn from_client_handled(
    message: Wire,
    before: Seq<Seq<char>>,
    after: Seq<Seq<char>>,
    r: Result<Relay, Error>,
) -> bool {
    match message {
        Wire::Text(text) => {
            let read = message_of(text@);
            &&& after == pending_after(read, key_of(read), before)
            &&& match decision_on(read, key_of(read), before) {
                DecisionView::Forward(value) => r matches Ok(Relay::ToServer(sent)) && sent@
                    == json_text(value),
                DecisionView::Reply(value) => r matches Ok(Relay::ToClient(sent)) && sent@
                    == json_text(value),
            }
        },
        Wire::Ping(payload) => r == Ok::<Relay, Error>(Relay::Answer(payload)) && after == before,
        Wire::Pong => r == Ok::<Relay, Error>(Relay::Drop) && after == before,
        Wire::Close => r == Ok::<Relay, Error>(Relay::Close) && after == before,
        Wire::Other => r matches Err(error) && error@ == ErrorView::Protocol(
            "unsupported client WebSocket message"@,
        ) && after == before,
    }
}

/// What becomes of a message from the app server.
pub open spec fn from_server_handled(
    message: Wire,
    before: Seq<Seq<char>>,
    after: Seq<Seq<char>>,
    r: Result<Relay, Error>,
) -> bool {
    match message {
        Wire::Text(text) => {
            let read = message_of(text@);
            &&& after == pending_left(read, key_of(read), before)
            &&& r == Ok::<Relay, Error>(
                if passes(read, key_of(read), before) {
                    Relay::ToClient(text)
                } else {
                    Relay::Drop
                },
            )
        },
        Wire::Ping(payload) => r == Ok::<Relay, Error>(Relay::Answer(payload)) && after == before,
        Wire::Pong => r == Ok::<Relay, Error>(Relay::Drop) && after == before,
        Wire::Close => r == Ok::<Relay, Error>(Relay::Close) && after == before,
        Wire::Other => r matches Err(error) && error@ == ErrorView::Protocol(
            "unsupported server WebSocket message"@,
        ) && after == before,
    }
}

impl Bridge {
    /// Whether the connection has lasted too long without a message, or with an unfinished frame.
    pub open spec fn expired(&self, now: u64) -> bool {
        over(IDLE_CONNECTION_TIMEOUT, self.last_activity, now) || frame_over(
            self.client_partial_since,
            now,
        ) || frame_over(self.server_partial_since, now)
    }

    /// A connection that begins now.
    pub fn new(now: u64) -> (r: Bridge)
        ensures
            r.pending.wf(),
            r.pending@ == Seq::<Seq<char>>::empty(),
            r.client_partial_since is None,
            r.server_partial_since is None,
            r.last_activity == now,
    {
        Bridge {
            pending: Pending::new(),
            client_partial_since: None,
            server_partial_since: None,
            last_activity: now,
        }
    }

    /// How long to wait for either side; a failure where it has been too long already.
    pub fn wait(&self, now: u64) -> (r: Result<u64, Error>)
        ensures
            match r {
                Ok(timeout) => !self.expired(now) && timeout == next_wait(*self, now),
                Err(error) => self.expired(now) && error@ == ErrorView::Timeout,
            },
    {
        if is_over(IDLE_CONNECTION_TIMEOUT, self.last_activity, now) {
            return Err(Error::Timeout);
        }
        if let Some(since) = self.client_partial_since {
            if is_over(FRAME_TIMEOUT, since, now) {
                return Err(Error::Timeout);
            }
        }
        if let Some(since) = self.server_partial_since {
            if is_over(FRAME_TIMEOUT, since, now) {
                return Err(Error::Timeout);
            }
        }
        Ok(
            connection_timeout(
                self.client_partial_since,
                self.server_partial_since,
                self.last_activity,
                now,
            ),
        )
    }

    /// Takes note of what was taken from the client.
    pub fn client_drained(&mut self, drained: &Drained, now: u64)
        ensures
            *final(self) == (Bridge {
                client_partial_since: partial_after(old(self).client_partial_since, *drained, now),
                last_activity: if drained.messages > 0 || drained.incomplete {
                    now
                } else {
                    old(self).last_activity
                },
                ..*old(self)
            }),
            final(self).last_activity == active_after(old(self).last_activity, *drained, now),
    {
        self.client_partial_since = update_partial_deadline(
            self.client_partial_since,
            drained,
            now,
        );
        if drained.messages > 0 || drained.incomplete {
            self.last_activity = now;
        }
    }

    /// Takes note of what was taken from the app server.
    pub fn server_drained(&mut self, drained: &Drained, now: u64)
        ensures
            *final(self) == (Bridge {
                server_partial_since: partial_after(old(self).server_partial_since, *drained, now),
                last_activity: if drained.messages > 0 || drained.incomplete {
                    now
                } else {
                    old(self).last_activity
                },
                ..*old(self)
            }),
            final(self).last_activity == active_after(old(self).last_activity, *drained, now),
    {
        self.server_partial_since = update_partial_deadline(
            self.server_partial_since,
            drained,
            now,
        );
        if drained.messages > 0 || drained.incomplete {
            self.last_activity = now;
        }
    }

    /// What to do about a client's message.
    pub fn handle_client_message(&mut self, message: Wire) -> (r: Result<Relay, Error>)
        requires
            old(self).pending.wf(),
        ensures
            final(self).pending.wf(),
            final(self).client_partial_since == old(self).client_partial_since,
            final(self).server_partial_since == old(self).server_partial_since,
            final(self).last_activity == old(self).last_activity,
            from_client_handled(message, old(self).pending@, final(self).pending@, r),
    {
        match message {
            Wire::Text(text) => match client_action(&text, &mut self.pending) {
                ClientAction::Forward(sent) => Ok(Relay::ToServer(sent)),
                ClientAction::Reply(sent) => Ok(Relay::ToClient(sent)),
            },
            Wire::Ping(payload) => Ok(Relay::Answer(payload)),
            Wire::Pong => Ok(Relay::Drop),
            Wire::Close => Ok(Relay::Close),
            Wire::Other => Err(Error::protocol("unsupported client WebSocket message")),
        }
    }

    /// What to do about a message from the app server.
    pub fn handle_server_message(&mut self, message: Wire) -> (r: Result<Relay, Error>)
        requires
            old(self).pending.wf(),
        ensures
            final(self).pending.wf(),
            final(self).client_partial_since == old(self).client_partial_since,
            final(self).server_partial_since == old(self).server_partial_since,
            final(self).last_activity == old(self).last_activity,
            from_server_handled(message, old(self).pending@, final(self).pending@, r),
    {
        match message {
            Wire::Text(text) => if server_message_allowed(&text, &mut self.pending) {
                Ok(Relay::ToClient(text))
            } else {
                Ok(Relay::Drop)
            },
            Wire::Ping(payload) => Ok(Relay::Answer(payload)),
            Wire::Pong => Ok(Relay::Drop),
            Wire::Close => Ok(Relay::Close),
            Wire::Other => Err(Error::protocol("unsupported server WebSocket message")),
        }
    }

    /// Deals with what was taken from the side that the round has come to: the silence starts
    /// anew where something came, a side that is gone ends the connection, and a message is
    /// relayed as its kind demands.
    pub fn turn(
        &mut self,
        from_client: bool,
        drained: &Drained,
        message: Option<Wire>,
        now: u64,
    ) -> (r: Result<Relay, Error>)
        requires
            old(self).pending.wf(),
            message is Some <==> drained.messages > 0,
        ensures
            final(self).pending.wf(),
            final(self).last_activity == (if drained.messages > 0 || drained.incomplete {
                now
            } else {
                old(self).last_activity
            }),
            final(self).last_activity == active_after(old(self).last_activity, *drained, now),
            final(self).client_partial_since == (if from_client {
                partial_after(old(self).client_partial_since, *drained, now)
            } else {
                old(self).client_partial_since
            }),
            final(self).server_partial_since == (if from_client {
                old(self).server_partial_since
            } else {
                partial_after(old(self).server_partial_since, *drained, now)
            }),
            if drained.closed {
                r == Ok::<Relay, Error>(Relay::HangUp) && final(self).pending@ == old(
                    self,
                ).pending@
            } else {
                match message {
                    None => r == Ok::<Relay, Error>(Relay::Drop) && final(self).pending@ == old(
                        self,
                    ).pending@,
                    Some(message) => if from_client {
                        from_client_handled(message, old(self).pending@, final(self).pending@, r)
                    } else {
                        from_server_handled(message, old(self).pending@, final(self).pending@, r)
                    },
                }
            },
    {
        if from_client {
            self.client_drained(drained, now);
        } else {
            self.server_drained(drained, now);
        }
        if drained.closed {
            return Ok(Relay::HangUp);
        }
        match message {
            None => Ok(Relay::Drop),
            Some(message) => if from_client {
                self.handle_client_message(message)
            } else {
                self.handle_server_message(message)
            },
        }
    }
}

/// Who is read from first, of those that have something to read.
pub open spec fn stage_of(client_ready: bool, server_ready: bool) -> Stage {
    if client_ready {
        Stage::Client { server_ready }
    } else if server_ready {
        Stage::Server
    } else {
        Stage::Wait
    }
}

/// What to read after both sides were waited for: the client first. A wait that ends with nothing
/// to read has taken too long.
pub fn polled(events: usize, client_ready: bool, server_ready: bool) -> (r: Result<Stage, Error>)
    ensures
        match r {
            Ok(stage) => events != 0 && stage == (if client_ready {
                Stage::Client { server_ready }
            } else if server_ready {
                Stage::Server
            } else {
                Stage::Wait
            }),
            Err(error) => events == 0 && error@ == ErrorView::Timeout,
        },
        r matches Ok(stage) ==> stage_of(client_ready, server_ready) == stage,
{
    if events == 0 {
        Err(Error::Timeout)
    } else if client_ready {
        Ok(Stage::Client { server_ready })
    } else if server_ready {
        Ok(Stage::Server)
    } else {
        Ok(Stage::Wait)
    }
}

/// Where the round goes on once what was read has been dealt with.
pub open spec fn stage_after(stage: Stage, relay: Relay) -> Stage {
    match relay {
        Relay::Close | Relay::HangUp => Stage::End,
        _ => match stage {
            Stage::Client { server_ready: true } => Stage::Server,
            Stage::End => Stage::End,
            _ => Stage::Wait,
        },
    }
}

/// Where the round goes on once what was read has been dealt with.
pub fn next_stage(stage: Stage, relay: &Relay) -> (r: Stage)
    ensures
        r == stage_after(stage, *relay),
{
    match relay {
        Relay::Close | Relay::HangUp => Stage::End,
        _ => match stage {
            Stage::Client { server_ready: true } => Stage::Server,
            Stage::End => Stage::End,
            _ => Stage::Wait,
        },
    }
}

fn is_over(span: u64, since: u64, now: u64) -> (r: bool)
    ensures
        r == over(span, since, now),
{
    now >= since && now - since >= span
}

/// How long the next wait is.
pub open spec fn next_wait(bridge: Bridge, now: u64) -> int {
    shorter(
        shorter(
            left(IDLE_CONNECTION_TIMEOUT, bridge.last_activity, now),
            frame_left(bridge.client_partial_since, now),
        ),
        frame_left(bridge.server_partial_since, now),
    )
}

/// Waiting takes at least a millisecond and never longer than the longest silence allowed, and
/// where a wait has run its full length, the connection has lasted too long.
pub proof fn law_full_wait_ends_connection(bridge: Bridge, now: u64, later: u64)
    requires
        bridge.last_activity <= now,
        bridge.client_partial_since matches Some(since) ==> since <= now,
        bridge.server_partial_since matches Some(since) ==> since <= now,
    ensures
        1_000_000 <= next_wait(bridge, now) <= IDLE_CONNECTION_TIMEOUT,
        later >= now + next_wait(bridge, now) ==> bridge.expired(later),
{
}

// ---------------------------------------------------------------- accepting connections

/// What a client offers to speak, and what it is told.
#[derive(Clone, Copy, PartialEq, Eq, Structural, Debug)]
pub enum Subprotocol {
    /// It offers nothing, and is told nothing.
    NotOffered,
    /// It offers the app server's protocol, which is chosen.
    Selected,
    /// It offers only others, and is refused.
    Refused,
}

/// Whether a header offers the app server's protocol.
pub open spec fn offers(header: Seq<char>) -> bool {
    exists|i: int|
        0 <= i < split_on(header, ',').len() && trimmed(#[trigger] split_on(header, ',')[i])
            == CODEX_SUBPROTOCOL@
}

/// Whether one of the headers that are text offers the app server's protocol.
pub open spec fn offered(headers: Seq<Option<String>>) -> bool {
    exists|i: int|
        0 <= i < headers.len() && match #[trigger] headers[i] {
            Some(text) => offers(text@),
            None => false,
        }
}

fn header_offers(header: &str) -> (r: bool)
    ensures
        r == offers(header@),
{
    let pieces = split(header, ',');
    let ghost all = split_on(header@, ',');
    let mut i: usize = 0;
    while i < pieces.len()
        invariant
            i <= pieces.len(),
            all == texts(pieces@),
            all == split_on(header@, ','),
            forall|k: int| 0 <= k < i ==> trimmed(#[trigger] all[k]) != CODEX_SUBPROTOCOL@,
        decreases pieces.len() - i,
    {
        assert(all[i as int] == pieces@[i as int]@);
        if same(&trim(&pieces[i]), CODEX_SUBPROTOCOL) {
            return true;
        }
        i += 1;
    }
    assert(all.len() == pieces.len());
    false
}

/// The protocol of a connection: none where none is offered, and only the app server's otherwise.
pub open spec fn subprotocol_for(headers: Seq<Option<String>>) -> Subprotocol {
    if headers.len() == 0 {
        Subprotocol::NotOffered
    } else if offered(headers) {
        Subprotocol::Selected
    } else {
        Subprotocol::Refused
    }
}

/// Chooses the protocol of a connection from the headers that offer one; `None` stands for a
/// header that is not text.
pub fn select_codex_subprotocol(headers: &Vec<Option<String>>) -> (r: Subprotocol)
    ensures
        r == (if headers@.len() == 0 {
            Subprotocol::NotOffered
        } else if offered(headers@) {
            Subprotocol::Selected
        } else {
            Subprotocol::Refused
        }),
        r == subprotocol_for(headers@),
{
    if headers.len() == 0 {
        return Subprotocol::NotOffered;
    }
    let mut i: usize = 0;
    while i < headers.len()
        invariant
            i <= headers.len(),
            headers@.len() > 0,
            forall|k: int|
                0 <= k < i ==> !(match #[trigger] headers@[k] {
                    Some(text) => offers(text@),
                    None => false,
                }),
        decreases headers.len() - i,
    {
        if let Some(header) = &headers[i] {
            if header_offers(header) {
                return Subprotocol::Selected;
            }
        }
        i += 1;
    }
    Subprotocol::Refused
}

/// How many clients there are with one more, as long as there are fewer than may be.
pub open spec fn admitted(clients: usize) -> Option<usize> {
    if clients < MAX_CLIENTS {
        Some((clients + 1) as usize)
    } else {
        None
    }
}

/// How many clients there are with one more, if there is room for it.
pub fn admit_client(clients: usize) -> (r: Option<usize>)
    ensures
        r == (if clients < MAX_CLIENTS {
            Some((clients + 1) as usize)
        } else {
            None
        }),
        r == admitted(clients),
{
    if clients < MAX_CLIENTS {
        Some(clients + 1)
    } else {
        None
    }
}

/// The number that an optional variable holds.
pub open spec fn variable_number(value: Option<String>) -> Option<nat> {
    match value {
        Some(text) => parsed(text@, u32::MAX as nat),
        None => None,
    }
}

/// Whether exactly one socket was handed to this very process.
pub open spec fn handed_over(
    listen_fds: Option<String>,
    listen_pid: Option<String>,
    own_pid: u32,
) -> bool {
    variable_number(listen_fds) == Some(1nat) && variable_number(listen_pid) == Some(own_pid as nat)
}

/// Requires that exactly one socket was handed to this very process.
pub fn require_activation(
    listen_fds: &Option<String>,
    listen_pid: &Option<String>,
    own_pid: u32,
) -> (r: Result<(), Error>)
    ensures
        match r {
            Ok(_) => variable_number(*listen_fds) == Some(1nat) && variable_number(*listen_pid)
                == Some(own_pid as nat),
            Err(error) => !(variable_number(*listen_fds) == Some(1nat) && variable_number(
                *listen_pid,
            ) == Some(own_pid as nat)) && error@ == ErrorView::Message(
                "codex-quota-proxy requires one systemd-activated socket"@,
            ),
        },
        r is Ok <==> handed_over(*listen_fds, *listen_pid, own_pid),
{
    let sockets = match listen_fds {
        Some(text) => parse_u32(text),
        None => None,
    };
    let process = match listen_pid {
        Some(text) => parse_u32(text),
        None => None,
    };
    if sockets == Some(1u32) && process == Some(own_pid) {
        Ok(())
    } else {
        Err(Error::message("codex-quota-proxy requires one systemd-activated socket"))
    }
}

}
