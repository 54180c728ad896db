//! The replica side of replication: the handshake with the primary.
//!
//! The handshake is a state machine that is fed whatever arrives from the
//! primary and answers with what to do next. It sends nothing itself: the
//! caller owns the connection, writes the frames it is handed and feeds back
//! the bytes it reads, in chunks of any size.

use vstd::prelude::*;
use vstd::slice::{slice_subrange, slice_to_vec};
use vstd::string::StringSliceAdditionalSpecFns;
use crate::lines::{bytes_eq, crlf_at, find_crlf, split_once};
use crate::decimal::{decimal, parse_u64, parse_unsigned, push_decimal};
use crate::resp::{array, slices_bytes, texts_bytes, Resp};
use crate::commands::{encode, Command, CommandView};

verus! {

/// How far the handshake has got. Each state is named after what was sent
/// last; `Streaming` is the steady state, `Failed` the end after a deviation.
#[derive(Debug, PartialEq, Eq, Clone, Copy, Structural)]
pub enum HandshakeState {
    Connected,
    PingSent,
    ListeningPortSent,
    CapaSent,
    PsyncSent,
    Streaming,
    Failed,
}

/// What is awaited after `PSYNC` was sent.
#[derive(Debug, PartialEq, Eq, Clone, Copy, Structural)]
pub enum Transfer {
    /// The `+FULLRESYNC` line.
    Line,
    /// The `$<len>` header of the snapshot.
    Header,
    /// That many bytes of the snapshot.
    Body(u64),
}

/// The deviation that ended a handshake.
#[derive(Debug, PartialEq, Eq, Clone, Copy, Structural)]
pub enum HandshakeError {
    /// Input arrived before `PING` was sent.
    NotStarted,
    /// The reply to `PING` is not `+PONG`.
    BadPong,
    /// The reply to `REPLCONF listening-port` is not `+OK`.
    BadListeningPort,
    /// The reply to `REPLCONF capa` is not `+OK`.
    BadCapa,
    /// The reply to `PSYNC` is not a `+FULLRESYNC <id> <offset>` line.
    BadFullResync,
    /// The snapshot does not start with a `$<len>` header.
    BadSnapshotHeader,
    /// The handshake had failed before.
    AlreadyFailed,
}

impl HandshakeError {
    /// The text of the message that describes the error.
    pub open spec fn text(self) -> Seq<char> {
        match self {
            HandshakeError::NotStarted => "handshake not started"@,
            HandshakeError::BadPong => "bad pong handshake"@,
            HandshakeError::BadListeningPort => "bad REPLCONF listening-port handshake"@,
            HandshakeError::BadCapa => "bad capa handshake"@,
            HandshakeError::BadFullResync => "bad PSYNC handshake"@,
            HandshakeError::BadSnapshotHeader => "bad snapshot header"@,
            HandshakeError::AlreadyFailed => "handshake failed"@,
        }
    }

    /// The message that describes the error.
    pub fn message(&self) -> (r: &'static str)
        ensures
            r@ == self.text(),
    {
        match self {
            HandshakeError::NotStarted => "handshake not started",
            HandshakeError::BadPong => "bad pong handshake",
            HandshakeError::BadListeningPort => "bad REPLCONF listening-port handshake",
            HandshakeError::BadCapa => "bad capa handshake",
            HandshakeError::BadFullResync => "bad PSYNC handshake",
            HandshakeError::BadSnapshotHeader => "bad snapshot header",
            HandshakeError::AlreadyFailed => "handshake failed",
        }
    }
}

/// What the caller does after it has fed the handshake.
pub enum Step {
    /// Read more: the awaited reply is not complete.
    Wait,
    /// Write this frame to the primary.
    Send(Resp),
    /// The snapshot is in. These bytes arrived after it: the beginning of the
    /// stream of commands to apply.
    Streaming(Vec<u8>),
}

/// A step with its frame and bytes as sequences.
pub enum StepView {
    Wait,
    Send(Seq<u8>),
    Streaming(Seq<u8>),
}

impl View for Step {
    type V = StepView;

    open spec fn view(&self) -> StepView {
        match self {
            Step::Wait => StepView::Wait,
            Step::Send(frame) => StepView::Send(frame@),
            Step::Streaming(rest) => StepView::Streaming(rest@),
        }
    }
}

/// The state of a handshake as contracts see it.
pub struct HandshakeView {
    pub state: HandshakeState,
    /// The port this replica listens on, announced to the primary.
    pub port: u16,
    /// What is awaited in state `PsyncSent`.
    pub transfer: Transfer,
    /// Input that arrived and is not consumed yet.
    pub pending: Seq<u8>,
}

/// The replica's handshake with its primary.
pub struct Handshake {
    state: HandshakeState,
    port: u16,
    transfer: Transfer,
    pending: Vec<u8>,
}

impl View for Handshake {
    type V = HandshakeView;

    closed spec fn view(&self) -> HandshakeView {
        HandshakeView {
            state: self.state,
            port: self.port,
            transfer: self.transfer,
            pending: self.pending@,
        }
    }
}

/// The frame `PING`.
pub open spec fn ping_frame() -> Seq<u8> {
    encode(CommandView::Ping)
}

/// The frame `REPLCONF listening-port <port>`.
pub open spec fn listening_port_frame(port: u16) -> Seq<u8> {
    array(seq!["REPLCONF".spec_bytes(), "listening-port".spec_bytes(), decimal(port as nat)])
}

/// The frame `REPLCONF capa psync2`.
pub open spec fn capa_frame() -> Seq<u8> {
    array(seq!["REPLCONF".spec_bytes(), "capa".spec_bytes(), "psync2".spec_bytes()])
}

/// The frame `PSYNC ? -1`, which asks for a full resynchronisation.
pub open spec fn psync_frame() -> Seq<u8> {
    encode(CommandView::Psync(None, -1i32))
}

/// `i` is where the first space of `s` stands.
pub open spec fn is_first_space(s: Seq<u8>, i: int) -> bool {
    0 <= i < s.len() && s[i] == ' ' as u8 && forall|j: int| 0 <= j < i ==> s[j] != ' ' as u8
}

/// The replication id and the offset that a `+FULLRESYNC <id> <offset>` line
/// carries (`line` comes without its CRLF). The id is not empty and holds no
/// space; the offset is an unsigned 64-bit number.
pub open spec fn parse_full_resync(line: Seq<u8>) -> Option<(Seq<u8>, u64)> {
    let prefix = "+FULLRESYNC ".spec_bytes();
    if prefix.is_prefix_of(line) {
        let tail = line.skip(prefix.len() as int);
        if exists|i: int| is_first_space(tail, i) {
            let i = choose|i: int| is_first_space(tail, i);
            match parse_unsigned(tail.skip(i + 1), u64::MAX as nat) {
                Some(offset) => if i > 0 {
                    Some((tail.subrange(0, i), offset as u64))
                } else {
                    None
                },
                None => None,
            }
        } else {
            None
        }
    } else {
        None
    }
}

/// The length that a snapshot header `$<len>` announces (`line` comes
/// without its CRLF).
pub open spec fn parse_snapshot_header(line: Seq<u8>) -> Option<u64> {
    if line.len() > 0 && line[0] == '$' as u8 {
        match parse_unsigned(line.skip(1), u64::MAX as nat) {
            Some(len) => Some(len as u64),
            None => None,
        }
    } else {
        None
    }
}

/// The handshake after a deviation.
pub open spec fn failed(h: HandshakeView) -> HandshakeView {
    HandshakeView { state: HandshakeState::Failed, pending: Seq::empty(), ..h }
}

/// A state that awaits one exact reply: `expected` moves on to `next` and
/// has `frame` sent; a proper beginning of `expected` waits for more; anything
/// else fails with `error`.
pub open spec fn reply_step(
    h: HandshakeView,
    input: Seq<u8>,
    expected: Seq<u8>,
    next: HandshakeState,
    frame: Seq<u8>,
    error: HandshakeError,
) -> (HandshakeView, Result<StepView, HandshakeError>) {
    if input == expected {
        (
            HandshakeView { state: next, pending: Seq::empty(), transfer: Transfer::Line, ..h },
            Ok(StepView::Send(frame)),
        )
    } else if input.len() < expected.len() && input.is_prefix_of(expected) {
        (HandshakeView { pending: input, ..h }, Ok(StepView::Wait))
    } else {
        (failed(h), Err(error))
    }
}

/// Reading the snapshot: `left` bytes of it are still to come, `input` is at
/// hand. What exceeds the snapshot belongs to the command stream.
pub open spec fn body_step(h: HandshakeView, left: u64, input: Seq<u8>) -> (
    HandshakeView,
    Result<StepView, HandshakeError>,
) {
    if input.len() >= left {
        (
            HandshakeView {
                state: HandshakeState::Streaming,
                pending: Seq::empty(),
                transfer: Transfer::Body(0),
                ..h
            },
            Ok(StepView::Streaming(input.skip(left as int))),
        )
    } else {
        (
            HandshakeView {
                pending: Seq::empty(),
                transfer: Transfer::Body((left - input.len()) as u64),
                ..h
            },
            Ok(StepView::Wait),
        )
    }
}

/// Awaiting the snapshot's header: once its line is complete it must
/// announce a length, and the snapshot follows.
pub open spec fn header_step(h: HandshakeView, input: Seq<u8>) -> (
    HandshakeView,
    Result<StepView, HandshakeError>,
) {
    match split_once(input) {
        None => (
            HandshakeView { pending: input, transfer: Transfer::Header, ..h },
            Ok(StepView::Wait),
        ),
        Some((line, rest)) => match parse_snapshot_header(line) {
            None => (failed(h), Err(HandshakeError::BadSnapshotHeader)),
            Some(len) => body_step(h, len, rest),
        },
    }
}

/// Awaiting the `+FULLRESYNC` line: once it is complete it must be well
/// formed, and the snapshot's header follows.
pub open spec fn line_step(h: HandshakeView, input: Seq<u8>) -> (
    HandshakeView,
    Result<StepView, HandshakeError>,
) {
    match split_once(input) {
        None => (HandshakeView { pending: input, ..h }, Ok(StepView::Wait)),
        Some((line, rest)) => match parse_full_resync(line) {
            None => (failed(h), Err(HandshakeError::BadFullResync)),
            Some(_) => header_step(h, rest),
        },
    }
}

/// The handshake after `chunk` has arrived, and what the caller is to do.
///
/// Every transition is gated on the exact reply that the state awaits. The
/// input is what was pending together with `chunk`, so a reply may arrive in
/// pieces.
pub open spec fn spec_receive(h: HandshakeView, chunk: Seq<u8>) -> (
    HandshakeView,
    Result<StepView, HandshakeError>,
) {
    let input = h.pending + chunk;
    match h.state {
        HandshakeState::Connected => (failed(h), Err(HandshakeError::NotStarted)),
        HandshakeState::PingSent => reply_step(
            h,
            input,
            "+PONG\r\n".spec_bytes(),
            HandshakeState::ListeningPortSent,
            listening_port_frame(h.port),
            HandshakeError::BadPong,
        ),
        HandshakeState::ListeningPortSent => reply_step(
            h,
            input,
            "+OK\r\n".spec_bytes(),
            HandshakeState::CapaSent,
            capa_frame(),
            HandshakeError::BadListeningPort,
        ),
        HandshakeState::CapaSent => reply_step(
            h,
            input,
            "+OK\r\n".spec_bytes(),
            HandshakeState::PsyncSent,
            psync_frame(),
            HandshakeError::BadCapa,
        ),
        HandshakeState::PsyncSent => match h.transfer {
            Transfer::Line => line_step(h, input),
            Transfer::Header => header_step(h, input),
            Transfer::Body(left) => body_step(h, left, input),
        },
        HandshakeState::Streaming => (h, Ok(StepView::Streaming(chunk))),
        HandshakeState::Failed => (h, Err(HandshakeError::AlreadyFailed)),
    }
}

/// Whether `b` starts with `prefix`.
pub fn starts_with(b: &[u8], prefix: &[u8]) -> (r: bool)
    ensures
        r == prefix@.is_prefix_of(b@),
{
    if prefix.len() > b.len() {
        return false;
    }
    let head = slice_subrange(b, 0, prefix.len());
    let r = bytes_eq(head, prefix);
    proof {
        if r {
            assert(prefix@ =~= b@.subrange(0, prefix@.len() as int));
        }
    }
    r
}

/// The position of the first space of `b`, if there is one.
fn find_space(b: &[u8]) -> (r: Option<usize>)
    ensures
        match r {
            Some(i) => is_first_space(b@, i as int),
            None => forall|j: int| !is_first_space(b@, j),
        },
{
    let mut i: usize = 0;
    while i < b.len()
        invariant
            i <= b@.len(),
            forall|j: int| 0 <= j < i ==> b@[j] != ' ' as u8,
        decreases b@.len() - i,
    {
        if b[i] == ' ' as u8 {
            return Some(i);
        }
        i = i + 1;
    }
    None
}

/// Whether `line` is a well-formed `+FULLRESYNC <id> <offset>` line.
pub fn is_full_resync(line: &[u8]) -> (r: bool)
    ensures
        r == parse_full_resync(line@).is_some(),
{
    let prefix = "+FULLRESYNC ".as_bytes();
    if !starts_with(line, prefix) {
        return false;
    }
    let tail = slice_subrange(line, prefix.len(), line.len());
    assert(tail@ =~= line@.skip(prefix@.len() as int));
    match find_space(tail) {
        None => false,
        Some(i) => {
            proof {
                let k = choose|k: int| is_first_space(tail@, k);
                if k < i {
                    assert(tail@[k] != ' ' as u8);
                }
                if i < k {
                    assert(tail@[i as int] != ' ' as u8);
                }
            }
            let digits = slice_subrange(tail, i + 1, tail.len());
            assert(digits@ =~= tail@.skip(i + 1));
            i > 0 && parse_u64(digits).is_some()
        },
    }
}

/// The length that the snapshot header `line` announces.
pub fn snapshot_len(line: &[u8]) -> (r: Option<u64>)
    ensures
        r == parse_snapshot_header(line@),
{
    if line.len() > 0 && line[0] == '$' as u8 {
        let digits = slice_subrange(line, 1, line.len());
        assert(digits@ =~= line@.skip(1));
        parse_u64(digits)
    } else {
        None
    }
}

/// The frame `REPLCONF listening-port <port>`.
fn listening_port_message(port: u16) -> (r: Resp)
    ensures
        r@ == listening_port_frame(port),
{
    let mut digits: Vec<u8> = Vec::new();
    push_decimal(&mut digits, port as u64);
    let items: [&[u8]; 3] = [
        "REPLCONF".as_bytes(),
        "listening-port".as_bytes(),
        digits.as_slice(),
    ];
    let r = Resp::array(items.as_slice());
    assert(slices_bytes(items@) =~= seq![
        "REPLCONF".spec_bytes(),
        "listening-port".spec_bytes(),
        decimal(port as nat),
    ]);
    r
}

/// The frame `REPLCONF capa psync2`.
fn capa_message() -> (r: Resp)
    ensures
        r@ == capa_frame(),
{
    let items: [&str; 3] = ["REPLCONF", "capa", "psync2"];
    assert(texts_bytes(items@) =~= seq![
        "REPLCONF".spec_bytes(),
        "capa".spec_bytes(),
        "psync2".spec_bytes(),
    ]);
    Resp::from(items)
}

impl Handshake {
    /// A handshake on a fresh connection, for a replica that listens on
    /// `port`.
    pub fn new(port: u16) -> (h: Handshake)
        ensures
            h@ == (HandshakeView {
                state: HandshakeState::Connected,
                port,
                transfer: Transfer::Line,
                pending: Seq::empty(),
            }),
    {
        Handshake {
            state: HandshakeState::Connected,
            port,
            transfer: Transfer::Line,
            pending: Vec::new(),
        }
    }

    /// The state the handshake is in.
    pub fn state(&self) -> (s: HandshakeState)
        ensures
            s == self@.state,
    {
        self.state
    }

    /// Opens the handshake: on a fresh connection, hands out the `PING` to
    /// send and moves to `PingSent`. In any other state nothing happens.
    pub fn start(&mut self) -> (r: Option<Resp>)
        ensures
            old(self)@.state == HandshakeState::Connected ==> (r matches Some(frame) && frame@
                == ping_frame()) && final(self)@ == (HandshakeView {
                state: HandshakeState::PingSent,
                ..old(self)@
            }),
            old(self)@.state != HandshakeState::Connected ==> r is None && final(self)@ == old(
                self,
            )@,
    {
        match self.state {
            HandshakeState::Connected => {
                self.state = HandshakeState::PingSent;
                Some(Command::Ping.encode())
            },
            _ => None,
        }
    }

    /// Ends the handshake after a deviation.
    fn fail(&mut self, error: HandshakeError) -> (r: Result<Step, HandshakeError>)
        ensures
            final(self)@ == failed(old(self)@),
            r == Err::<Step, HandshakeError>(error),
    {
        self.state = HandshakeState::Failed;
        self.pending = Vec::new();
        Err(error)
    }

    /// One of the states that await an exact reply.
    fn receive_reply(
        &mut self,
        input: Vec<u8>,
        expected: &[u8],
        next: HandshakeState,
        frame: Resp,
        error: HandshakeError,
    ) -> (r: Result<Step, HandshakeError>)
        ensures
            match r {
                Ok(step) => (final(self)@, Ok::<StepView, HandshakeError>(step@)) == reply_step(
                    old(self)@,
                    input@,
                    expected@,
                    next,
                    frame@,
                    error,
                ),
                Err(e) => (final(self)@, Err::<StepView, HandshakeError>(e)) == reply_step(
                    old(self)@,
                    input@,
                    expected@,
                    next,
                    frame@,
                    error,
                ),
            },
    {
        if bytes_eq(input.as_slice(), expected) {
            self.state = next;
            self.pending = Vec::new();
            self.transfer = Transfer::Line;
            Ok(Step::Send(frame))
        } else if input.len() < expected.len() && starts_with(expected, input.as_slice()) {
            self.pending = input;
            Ok(Step::Wait)
        } else {
            self.fail(error)
        }
    }

    /// Reading the snapshot, of which `left` bytes are still to come.
    fn receive_body(&mut self, left: u64, input: &[u8]) -> (r: Result<Step, HandshakeError>)
        ensures
            r matches Ok(step) && (final(self)@, Ok::<StepView, HandshakeError>(step@))
                == body_step(old(self)@, left, input@),
    {
        let n: usize = input.len();
        if n as u64 >= left {
            self.state = HandshakeState::Streaming;
            self.pending = Vec::new();
            self.transfer = Transfer::Body(0);
            let rest = slice_subrange(input, left as usize, n);
            assert(rest@ =~= input@.skip(left as int));
            Ok(Step::Streaming(slice_to_vec(rest)))
        } else {
            self.pending = Vec::new();
            self.transfer = Transfer::Body(left - n as u64);
            Ok(Step::Wait)
        }
    }

    /// Awaiting the snapshot's header.
    fn receive_header(&mut self, input: &[u8]) -> (r: Result<Step, HandshakeError>)
        ensures
            match r {
                Ok(step) => (final(self)@, Ok::<StepView, HandshakeError>(step@)) == header_step(
                    old(self)@,
                    input@,
                ),
                Err(e) => (final(self)@, Err::<StepView, HandshakeError>(e)) == header_step(
                    old(self)@,
                    input@,
                ),
            },
    {
        match find_crlf(input) {
            None => {
                self.pending = slice_to_vec(input);
                self.transfer = Transfer::Header;
                Ok(Step::Wait)
            },
            Some(i) => {
                let n: usize = input.len();
                assert(crlf_at(input@, i as int));
                let line = slice_subrange(input, 0, i);
                let rest = slice_subrange(input, i + 2, n);
                assert(rest@ =~= input@.skip(i + 2));
                match snapshot_len(line) {
                    None => self.fail(HandshakeError::BadSnapshotHeader),
                    Some(len) => self.receive_body(len, rest),
                }
            },
        }
    }

    /// Awaiting the `+FULLRESYNC` line.
    fn receive_line(&mut self, input: &[u8]) -> (r: Result<Step, HandshakeError>)
        ensures
            match r {
                Ok(step) => (final(self)@, Ok::<StepView, HandshakeError>(step@)) == line_step(
                    old(self)@,
                    input@,
                ),
                Err(e) => (final(self)@, Err::<StepView, HandshakeError>(e)) == line_step(
                    old(self)@,
                    input@,
                ),
            },
    {
        match find_crlf(input) {
            None => {
                self.pending = slice_to_vec(input);
                Ok(Step::Wait)
            },
            Some(i) => {
                let n: usize = input.len();
                assert(crlf_at(input@, i as int));
                let line = slice_subrange(input, 0, i);
                let rest = slice_subrange(input, i + 2, n);
                assert(rest@ =~= input@.skip(i + 2));
                if is_full_resync(line) {
                    self.receive_header(rest)
                } else {
                    self.fail(HandshakeError::BadFullResync)
                }
            },
        }
    }

    /// Feeds the handshake what was read from the primary and tells what to
    /// do next: wait for more, send a frame, or start applying the command
    /// stream. A reply that is not the awaited one ends the handshake.
    pub fn receive(&mut self, chunk: &[u8]) -> (r: Result<Step, HandshakeError>)
        ensures
            match r {
                Ok(step) => (final(self)@, Ok::<StepView, HandshakeError>(step@)) == spec_receive(
                    old(self)@,
                    chunk@,
                ),
                Err(e) => (final(self)@, Err::<StepView, HandshakeError>(e)) == spec_receive(
                    old(self)@,
                    chunk@,
                ),
            },
    {
        match self.state {
            HandshakeState::Connected => {
                return self.fail(HandshakeError::NotStarted);
            },
            HandshakeState::Streaming => {
                return Ok(Step::Streaming(slice_to_vec(chunk)));
            },
            HandshakeState::Failed => {
                return Err(HandshakeError::AlreadyFailed);
            },
            _ => {},
        }
        let mut input: Vec<u8> = Vec::new();
        core::mem::swap(&mut input, &mut self.pending);
        input.extend_from_slice(chunk);
        assert(input@ == old(self)@.pending + chunk@);
        match self.state {
            HandshakeState::PingSent => {
                let frame = listening_port_message(self.port);
                self.receive_reply(
                    input,
                    "+PONG\r\n".as_bytes(),
                    HandshakeState::ListeningPortSent,
                    frame,
                    HandshakeError::BadPong,
                )
            },
            HandshakeState::ListeningPortSent => self.receive_reply(
                input,
                "+OK\r\n".as_bytes(),
                HandshakeState::CapaSent,
                capa_message(),
                HandshakeError::BadListeningPort,
            ),
            HandshakeState::CapaSent => self.receive_reply(
                input,
                "+OK\r\n".as_bytes(),
                HandshakeState::PsyncSent,
                Command::Psync(None, -1).encode(),
                HandshakeError::BadCapa,
            ),
            _ => match self.transfer {
                Transfer::Line => self.receive_line(input.as_slice()),
                Transfer::Header => self.receive_header(input.as_slice()),
                Transfer::Body(left) => self.receive_body(left, input.as_slice()),
            },
        }
    }
}

impl HandshakeState {
    /// The place of a state in the order of the handshake.
    pub open spec fn rank(self) -> nat {
        match self {
            HandshakeState::Connected => 0,
            HandshakeState::PingSent => 1,
            HandshakeState::ListeningPortSent => 2,
            HandshakeState::CapaSent => 3,
            HandshakeState::PsyncSent => 4,
            HandshakeState::Streaming => 5,
            HandshakeState::Failed => 6,
        }
    }
}

/// The frame that is sent on entering `state`, by a replica that listens on
/// `port`.
pub open spec fn frame_on_entering(state: HandshakeState, port: u16) -> Option<Seq<u8>> {
    match state {
        HandshakeState::PingSent => Some(ping_frame()),
        HandshakeState::ListeningPortSent => Some(listening_port_frame(port)),
        HandshakeState::CapaSent => Some(capa_frame()),
        HandshakeState::PsyncSent => Some(psync_frame()),
        _ => None,
    }
}

/// The handshake keeps its order. Whatever arrives, the handshake fails
/// exactly when an error is reported; a frame is sent exactly when the
/// handshake moves to the next state, and it is the frame of that state; while
/// it waits it stays where it is; and it starts streaming only after `PSYNC`
/// was sent.
pub proof fn thm_handshake_keeps_order(h: HandshakeView, chunk: Seq<u8>)
    ensures
        ({
            let (next, step) = spec_receive(h, chunk);
            &&& next.port == h.port
            &&& step is Err <==> next.state == HandshakeState::Failed
            &&& step matches Ok(StepView::Send(frame)) ==> next.state.rank() == h.state.rank() + 1
                && frame_on_entering(next.state, h.port) == Some(frame)
            &&& step matches Ok(StepView::Wait) ==> next.state == h.state
            &&& step matches Ok(StepView::Streaming(_)) ==> next.state == HandshakeState::Streaming
                && (h.state == HandshakeState::PsyncSent || h.state == HandshakeState::Streaming)
        }),
{
}

} // verus!
