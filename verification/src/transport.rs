//! What every part of the transport shares: endpoints, the events that the
//! socket reports and the actions asked of it, errors, and the primitive that
//! sends one datagram until a fitting answer comes back.
//!
//! No function here touches a socket. Each operation is a state machine: the
//! caller performs the [`Action`] a step returns and hands the outcome back
//! as the next [`Event`], until a step returns [`Step::Done`].

use crate::packet::{spec_decode, Packet, PacketType, PacketView};
use vstd::prelude::*;

verus! {

/// Per-operation timeout of the data path, in milliseconds.
pub const TIMEOUT: u64 = 100;

/// Default timeout of a handshake leg, in milliseconds.
pub const DEFAULT_TIMEOUT: u64 = 50;

/// How often the data path retries before it gives up.
pub const RELIABLE_SEND_MAX_ATTEMPTS: usize = 16384;

/// How often a handshake leg is retried before it gives up.
pub const HANDSHAKE_MAX_ATTEMPTS: usize = 30;

/// How long to wait after an answer of the wrong type, in milliseconds.
pub const WRONG_TYPE_PAUSE: u64 = 1;

/// How long to wait after the socket would have blocked, in milliseconds.
pub const WOULD_BLOCK_PAUSE: u64 = 10;

/// The length of an endpoint written into a payload.
pub const ADDR_SIZE: usize = 6;

/// An IPv4 address and a port.
#[derive(Debug, Clone, Copy, PartialEq, Eq, Hash)]
pub struct Endpoint {
    pub ip: [u8; 4],
    pub port: u16,
}

/// An endpoint as it travels in a SYN or SYN-ACK payload: the four address
/// bytes, then the port with its low byte first.
pub open spec fn spec_serialize_addr(e: Endpoint) -> Seq<u8> {
    e.ip@ + seq![(e.port % 0x100) as u8, (e.port / 0x100) as u8]
}

/// The endpoint that the first six bytes of a payload stand for.
pub open spec fn spec_deserialize_addr(b: Seq<u8>) -> Endpoint {
    Endpoint { ip: [b[0], b[1], b[2], b[3]], port: (b[4] + b[5] * 0x100) as u16 }
}

/// Reading an endpoint back from its six bytes gives the endpoint.
pub proof fn lemma_addr_round_trip(e: Endpoint)
    ensures
        spec_serialize_addr(e).len() == ADDR_SIZE,
        spec_deserialize_addr(spec_serialize_addr(e)) == e,
{
    let b = spec_serialize_addr(e);
    let d = spec_deserialize_addr(b);
    assert(d.ip =~= e.ip);
}

impl Endpoint {
    /// Whether two endpoints are the same address and port.
    pub fn same(&self, other: &Endpoint) -> (r: bool)
        ensures
            r == (*self == *other),
    {
        let r = self.ip[0] == other.ip[0] && self.ip[1] == other.ip[1] && self.ip[2] == other.ip[2]
            && self.ip[3] == other.ip[3] && self.port == other.port;
        proof {
            if r {
                assert(self.ip =~= other.ip);
            } else if self.port == other.port {
                assert(self.ip@ != other.ip@);
            }
        }
        r
    }
}

/// Writes an endpoint as six bytes.
pub fn serialize_addr(addr: Endpoint) -> (body: [u8; 6])
    ensures
        body@ == spec_serialize_addr(addr),
{
    let body: [u8; 6] = [
        addr.ip[0],
        addr.ip[1],
        addr.ip[2],
        addr.ip[3],
        (addr.port % 0x100) as u8,
        (addr.port / 0x100) as u8,
    ];
    assert(body@ =~= spec_serialize_addr(addr));
    body
}

/// Reads an endpoint from the first six bytes of a payload.
pub fn deserialize_addr(buf: &[u8]) -> (addr: Endpoint)
    requires
        buf@.len() >= ADDR_SIZE,
    ensures
        addr == spec_deserialize_addr(buf@),
{
    let addr = Endpoint {
        ip: [buf[0], buf[1], buf[2], buf[3]],
        port: (buf[4] as u16) + (buf[5] as u16) * 0x100,
    };
    assert(addr.ip =~= spec_deserialize_addr(buf@).ip);
    addr
}

/// Reads an endpoint from a payload, if the payload is long enough to hold
/// one.
pub fn try_deserialize_addr(buf: &[u8]) -> (r: Option<Endpoint>)
    ensures
        r == if buf@.len() >= ADDR_SIZE {
            Some(spec_deserialize_addr(buf@))
        } else {
            None
        },
{
    if buf.len() >= ADDR_SIZE {
        Some(deserialize_addr(buf))
    } else {
        None
    }
}

/// The ways in which a socket call fails, as far as the transport tells them
/// apart.
#[derive(Debug, Clone, Copy, PartialEq, Eq, Structural)]
pub enum IoErrorKind {
    /// The call did not finish within its timeout.
    TimedOut,
    /// The non-blocking socket had nothing to give or no room to take.
    WouldBlock,
    /// The call was interrupted before it did anything.
    Interrupted,
    /// Any other failure; the transport does not recover from it.
    Other,
}

/// A failed socket call: its kind, and the error code of the operating
/// system (0 where there is none).
#[derive(Debug, Clone, Copy, PartialEq, Eq, Structural)]
pub struct IoFailure {
    pub kind: IoErrorKind,
    pub code: i32,
}

impl IoFailure {
    /// A failure that a retry may cure: timed out, would block, interrupted.
    pub open spec fn transient(self) -> bool {
        self.kind != IoErrorKind::Other
    }

    /// Whether a retry may cure this failure.
    pub fn is_transient(&self) -> (r: bool)
        ensures
            r == self.transient(),
    {
        match self.kind {
            IoErrorKind::Other => false,
            _ => true,
        }
    }
}

/// What goes wrong in the transport.
#[derive(Debug)]
pub enum TransportError {
    /// A datagram shorter than a packet header.
    Malformed { size: usize },
    /// The first packet of a handshake is not a SYN.
    NotSyn { ptyp: PacketType },
    /// The SYN carries a sequence number that leaves no room for the
    /// handshake and the data behind it.
    SeqOutOfRange { seq: u32 },
    /// A SYN or SYN-ACK whose payload is too short to hold an endpoint.
    MissingAddress,
    /// The ACK that ends the handshake carries the wrong sequence number.
    BadAckSeq { got: u32, expected: u32 },
    /// The same SYN was accepted less than two seconds ago.
    DuplicateSyn,
    /// No answer came within the attempts allowed.
    TimedOut,
    /// Answers came within the attempts allowed, but none of an accepted
    /// type; these are their types, in the order of arrival.
    InvalidResponses { seen: Vec<PacketType> },
    /// The socket failed.
    Io(IoFailure),
    /// The stream is closed.
    Closed,
}

/// What the socket reports back after an action.
#[derive(Debug)]
pub enum Event {
    /// Nothing yet: the first step of an operation.
    Start,
    /// The datagram left.
    Sent,
    /// The datagram could not be sent.
    SendFailed(IoFailure),
    /// A datagram arrived from `from`.
    Received { datagram: Vec<u8>, from: Endpoint },
    /// No datagram could be received.
    ReceiveFailed(IoFailure),
    /// The pause is over.
    Woke,
    /// A fresh socket is bound at this address.
    Bound(Endpoint),
    /// No fresh socket could be bound.
    BindFailed(IoFailure),
    /// The socket is connected.
    Connected,
    /// The socket could not be connected.
    ConnectFailed(IoFailure),
}

/// What an operation asks of the socket.
#[derive(Debug)]
pub enum Action {
    /// Send `datagram` to `to`, waiting at most `timeout_ms` for room.
    Send { datagram: Vec<u8>, to: Endpoint, timeout_ms: u64 },
    /// Receive one datagram, waiting at most `wait_ms` for it, or as long as
    /// the socket is set to wait where no time is given.
    Receive { wait_ms: Option<u64> },
    /// Pause for `ms` milliseconds.
    Sleep { ms: u64 },
    /// Bind a fresh socket at a port of the system's choosing and use it for
    /// everything that follows.
    Bind,
    /// Connect the socket to `to`.
    Connect { to: Endpoint },
}

/// The outcome of one step of an operation: something to do, or the result.
#[derive(Debug)]
pub enum Step<T> {
    Io(Action),
    Done(T),
}

/// Whether `t` is among `types`.
pub fn type_among(types: &Vec<PacketType>, t: PacketType) -> (r: bool)
    ensures
        r == types@.contains(t),
{
    let mut i: usize = 0;
    while i < types.len()
        invariant
            i <= types@.len(),
            forall|j: int| 0 <= j < i ==> types@[j] != t,
        decreases types@.len() - i,
    {
        if types[i] == t {
            return true;
        }
        i += 1;
    }
    false
}

/// A copy of a list of packet types.
pub fn copy_types(types: &Vec<PacketType>) -> (out: Vec<PacketType>)
    ensures
        out@ == types@,
{
    let mut out: Vec<PacketType> = Vec::new();
    let mut i: usize = 0;
    while i < types.len()
        invariant
            i <= types@.len(),
            out@ == types@.subrange(0, i as int),
        decreases types@.len() - i,
    {
        out.push(types[i]);
        i += 1;
        assert(out@ =~= types@.subrange(0, i as int));
    }
    assert(types@.subrange(0, types@.len() as int) =~= types@);
    out
}

/// Where a reliable send stands.
#[derive(Debug, Clone, Copy, PartialEq, Eq, Structural)]
pub enum SendPhase {
    /// Nothing has been sent yet.
    Idle,
    /// The datagram is on its way to the socket.
    Sending,
    /// Waiting for an answer.
    Receiving,
    /// Pausing after an answer of the wrong type.
    PausingAfterAnswer,
    /// Pausing after the socket would have blocked.
    PausingAfterBlock,
    /// Over: the result has been handed out.
    Finished,
}

/// Sends one datagram, again and again, until an answer of an accepted type
/// arrives or the attempts run out.
#[derive(Debug)]
pub struct ReliableSend {
    datagram: Vec<u8>,
    peer: Endpoint,
    dest: Endpoint,
    timeout_ms: u64,
    accepted: Vec<PacketType>,
    tolerate_mismatch: bool,
    tolerate_would_block: bool,
    attempts_left: usize,
    blocks_left: usize,
    seen: Vec<PacketType>,
    phase: SendPhase,
}

/// A reliable send as a mathematical value.
pub struct ReliableSendView {
    /// The datagram that is sent.
    pub datagram: Seq<u8>,
    /// The endpoint whose answer is awaited.
    pub peer: Endpoint,
    /// Where the datagram goes: the proxy if there is one, else the peer.
    pub dest: Endpoint,
    /// How long to wait for each answer, in milliseconds.
    pub timeout_ms: u64,
    /// The packet types that count as an answer.
    pub accepted: Seq<PacketType>,
    /// Whether a datagram from another source than `peer` is passed over.
    pub tolerate_mismatch: bool,
    /// Whether a socket that would block is waited for.
    pub tolerate_would_block: bool,
    /// How many more attempts may fail.
    pub attempts_left: nat,
    /// How many more times the socket may block.
    pub blocks_left: nat,
    /// The types of the answers that were not accepted, in order.
    pub seen: Seq<PacketType>,
    pub phase: SendPhase,
}

/// How a reliable send ends.
pub enum Verdict {
    /// This packet answered; with it comes the endpoint of the other side.
    Answer(PacketView, Endpoint),
    /// The attempts ran out after these unaccepted answers.
    Exhausted(Seq<PacketType>),
    /// The socket failed.
    Broken(IoFailure),
}

impl ReliableSendView {
    /// Starts the next attempt, or ends if none is left.
    pub open spec fn retry(self) -> ReliableSendView {
        if self.attempts_left == 0 {
            ReliableSendView { phase: SendPhase::Finished, ..self }
        } else {
            ReliableSendView { phase: SendPhase::Sending, ..self }
        }
    }

    /// Counts one failed attempt and starts the next.
    pub open spec fn fail_attempt(self) -> ReliableSendView {
        ReliableSendView {
            attempts_left: if self.attempts_left > 0 {
                (self.attempts_left - 1) as nat
            } else {
                0
            },
            ..self
        }.retry()
    }

    /// Whether the packet `p` that came from `from` ends the send.
    pub open spec fn answers(self, p: PacketView) -> bool {
        &&& self.accepted.contains(p.ptyp)
        &&& (p.ptyp == PacketType::Syn || p.ptyp == PacketType::SynAck) ==> p.data.len()
            >= ADDR_SIZE
    }

    /// The endpoint that an accepted answer speaks for: the one written in
    /// the payload of a SYN or SYN-ACK, else the source of the datagram.
    pub open spec fn observed(p: PacketView, from: Endpoint) -> Endpoint {
        if p.ptyp == PacketType::Syn || p.ptyp == PacketType::SynAck {
            spec_deserialize_addr(p.data)
        } else {
            from
        }
    }

    /// The state after `event`.
    pub open spec fn next(self, event: Event) -> ReliableSendView {
        match self.phase {
            SendPhase::Idle => self.retry(),
            SendPhase::Sending => match event {
                Event::SendFailed(_) => ReliableSendView { phase: SendPhase::Finished, ..self },
                _ => ReliableSendView { phase: SendPhase::Receiving, ..self },
            },
            SendPhase::Receiving => match event {
                Event::Received { datagram, from } => {
                    if self.tolerate_mismatch && from != self.peer {
                        self.fail_attempt()
                    } else {
                        match spec_decode(datagram@) {
                            None => self.fail_attempt(),
                            Some(p) => {
                                if self.answers(p) {
                                    ReliableSendView { phase: SendPhase::Finished, ..self }
                                } else if self.accepted.contains(p.ptyp) {
                                    self.fail_attempt()
                                } else {
                                    ReliableSendView {
                                        phase: SendPhase::PausingAfterAnswer,
                                        seen: self.seen.push(p.ptyp),
                                        ..self
                                    }
                                }
                            },
                        }
                    }
                },
                Event::ReceiveFailed(f) => match f.kind {
                    IoErrorKind::TimedOut | IoErrorKind::Interrupted => self.fail_attempt(),
                    IoErrorKind::WouldBlock => {
                        if self.tolerate_would_block && self.blocks_left > 0 {
                            ReliableSendView {
                                phase: SendPhase::PausingAfterBlock,
                                blocks_left: (self.blocks_left - 1) as nat,
                                ..self
                            }
                        } else {
                            ReliableSendView { phase: SendPhase::Finished, ..self }
                        }
                    },
                    IoErrorKind::Other => ReliableSendView { phase: SendPhase::Finished, ..self },
                },
                _ => self.fail_attempt(),
            },
            SendPhase::PausingAfterAnswer => self.fail_attempt(),
            SendPhase::PausingAfterBlock => self.retry(),
            SendPhase::Finished => self,
        }
    }

    /// How the send ends, if `event` ends it.
    pub open spec fn verdict(self, event: Event) -> Verdict {
        match (self.phase, event) {
            (SendPhase::Sending, Event::SendFailed(f)) => Verdict::Broken(f),
            (SendPhase::Receiving, Event::Received { datagram, from }) => {
                if (self.tolerate_mismatch && from != self.peer) || spec_decode(datagram@) is None
                    || !self.answers(spec_decode(datagram@).unwrap()) {
                    Verdict::Exhausted(self.seen)
                } else {
                    Verdict::Answer(
                        spec_decode(datagram@).unwrap(),
                        Self::observed(spec_decode(datagram@).unwrap(), from),
                    )
                }
            },
            (SendPhase::Receiving, Event::ReceiveFailed(f)) => {
                if f.kind == IoErrorKind::TimedOut || f.kind == IoErrorKind::Interrupted {
                    Verdict::Exhausted(self.seen)
                } else {
                    Verdict::Broken(f)
                }
            },
            _ => Verdict::Exhausted(self.seen),
        }
    }

    /// A bound on the steps that are left: every step that does not end the
    /// send lowers it.
    pub open spec fn fuel(self) -> nat {
        4 * self.attempts_left + 4 * self.blocks_left + match self.phase {
            SendPhase::Idle => 4nat,
            SendPhase::Sending => 3nat,
            SendPhase::Receiving => 2nat,
            SendPhase::PausingAfterAnswer => 1nat,
            SendPhase::PausingAfterBlock => 4nat,
            SendPhase::Finished => 0nat,
        }
    }
}

/// Whether the error `e` is the one that the verdict `v` stands for.
pub open spec fn error_is(e: TransportError, v: Verdict) -> bool {
    match v {
        Verdict::Answer(_, _) => false,
        Verdict::Exhausted(seen) => if seen.len() == 0 {
            e is TimedOut
        } else {
            e matches TransportError::InvalidResponses { seen: s } && s@ == seen
        },
        Verdict::Broken(f) => e matches TransportError::Io(g) && g == f,
    }
}

/// Whether the result `r` of a finished send is what `v` says.
pub open spec fn result_is(r: Result<(Packet, Endpoint), TransportError>, v: Verdict) -> bool {
    match v {
        Verdict::Answer(p, e) => r matches Ok((q, f)) && q@ == p && f == e,
        _ => r matches Err(e) && error_is(e, v),
    }
}

/// Whether the step `r` asks for what a send in the state `m` waits for.
pub open spec fn io_is<T>(r: Step<T>, m: ReliableSendView) -> bool {
    match m.phase {
        SendPhase::Sending => r matches Step::Io(Action::Send { datagram, to, timeout_ms })
            && datagram@ == m.datagram && to == m.dest && timeout_ms == m.timeout_ms,
        SendPhase::Receiving => r matches Step::Io(Action::Receive { wait_ms }) && wait_ms == Some(
            m.timeout_ms,
        ),
        SendPhase::PausingAfterAnswer => r matches Step::Io(Action::Sleep { ms }) && ms
            == WRONG_TYPE_PAUSE,
        SendPhase::PausingAfterBlock => r matches Step::Io(Action::Sleep { ms }) && ms
            == WOULD_BLOCK_PAUSE,
        _ => false,
    }
}

/// Whether the step `r` is what a send in the state `m`, reached by `event`
/// from `before`, asks for.
pub open spec fn step_is(
    r: Step<Result<(Packet, Endpoint), TransportError>>,
    before: ReliableSendView,
    event: Event,
    m: ReliableSendView,
) -> bool {
    if m.phase == SendPhase::Finished {
        r matches Step::Done(res) && result_is(res, before.verdict(event))
    } else {
        io_is(r, m)
    }
}

impl View for ReliableSend {
    type V = ReliableSendView;

    closed spec fn view(&self) -> ReliableSendView {
        ReliableSendView {
            datagram: self.datagram@,
            peer: self.peer,
            dest: self.dest,
            timeout_ms: self.timeout_ms,
            accepted: self.accepted@,
            tolerate_mismatch: self.tolerate_mismatch,
            tolerate_would_block: self.tolerate_would_block,
            attempts_left: self.attempts_left as nat,
            blocks_left: self.blocks_left as nat,
            seen: self.seen@,
            phase: self.phase,
        }
    }
}

impl ReliableSend {
    /// Prepares to send `datagram` to `peer`, or to `proxy` in its place, and
    /// to wait up to `timeout_ms` for each answer, `max_attempts` times at
    /// most.
    pub fn new(
        datagram: Vec<u8>,
        peer: Endpoint,
        timeout_ms: u64,
        accepted: Vec<PacketType>,
        tolerate_mismatch: bool,
        tolerate_would_block: bool,
        proxy: Option<Endpoint>,
        max_attempts: usize,
    ) -> (s: ReliableSend)
        ensures
            s@ == (ReliableSendView {
                datagram: datagram@,
                peer,
                dest: match proxy {
                    Some(p) => p,
                    None => peer,
                },
                timeout_ms,
                accepted: accepted@,
                tolerate_mismatch,
                tolerate_would_block,
                attempts_left: max_attempts as nat,
                blocks_left: max_attempts as nat,
                seen: Seq::empty(),
                phase: SendPhase::Idle,
            }),
    {
        ReliableSend {
            datagram,
            peer,
            dest: match proxy {
                Some(p) => p,
                None => peer,
            },
            timeout_ms,
            accepted,
            tolerate_mismatch,
            tolerate_would_block,
            attempts_left: max_attempts,
            blocks_left: max_attempts,
            seen: Vec::new(),
            phase: SendPhase::Idle,
        }
    }

    /// How long each answer is waited for, in milliseconds.
    pub fn timeout_ms(&self) -> (t: u64)
        ensures
            t == self@.timeout_ms,
    {
        self.timeout_ms
    }

    /// Whether the send is over.
    pub fn finished(&self) -> (r: bool)
        ensures
            r == (self@.phase == SendPhase::Finished),
    {
        self.phase == SendPhase::Finished
    }

    fn retry(&mut self) -> (r: Step<Result<(Packet, Endpoint), TransportError>>)
        ensures
            final(self)@ == old(self)@.retry(),
            match final(self)@.phase {
                SendPhase::Sending => r matches Step::Io(Action::Send { datagram, to, timeout_ms })
                    && datagram@ == old(self)@.datagram && to == old(self)@.dest && timeout_ms
                    == old(self)@.timeout_ms,
                _ => r matches Step::Done(res) && result_is(
                    res,
                    Verdict::Exhausted(old(self)@.seen),
                ),
            },
    {
        if self.attempts_left == 0 {
            self.phase = SendPhase::Finished;
            if self.seen.len() == 0 {
                Step::Done(Err(TransportError::TimedOut))
            } else {
                Step::Done(Err(TransportError::InvalidResponses { seen: copy_types(&self.seen) }))
            }
        } else {
            self.phase = SendPhase::Sending;
            Step::Io(
                Action::Send {
                    datagram: crate::packet::copy_range(
                        self.datagram.as_slice(),
                        0,
                        self.datagram.len(),
                    ),
                    to: self.dest,
                    timeout_ms: self.timeout_ms,
                },
            )
        }
    }

    fn fail_attempt(&mut self) -> (r: Step<Result<(Packet, Endpoint), TransportError>>)
        ensures
            final(self)@ == old(self)@.fail_attempt(),
            match final(self)@.phase {
                SendPhase::Sending => r matches Step::Io(Action::Send { datagram, to, timeout_ms })
                    && datagram@ == old(self)@.datagram && to == old(self)@.dest && timeout_ms
                    == old(self)@.timeout_ms,
                _ => r matches Step::Done(res) && result_is(
                    res,
                    Verdict::Exhausted(old(self)@.seen),
                ),
            },
    {
        if self.attempts_left > 0 {
            self.attempts_left = self.attempts_left - 1;
        }
        self.retry()
    }

    /// Takes the outcome of the last action and says what to do next.
    ///
    /// Each attempt sends the datagram and waits for one answer. An answer
    /// of an accepted type ends the send; with a SYN or SYN-ACK comes the
    /// endpoint written in its payload, with any other packet the source of
    /// the datagram. An answer from another source (where that is passed
    /// over), a datagram that is no packet, a SYN or SYN-ACK without an
    /// endpoint, a timeout and an interruption each cost one attempt; so does
    /// an answer of another type, which is recorded. A socket that would
    /// block is waited for, where that is tolerated, and costs no attempt.
    /// Any other failure ends the send at once. An event that does not fit
    /// the action asked for counts as a send that left, or as an answer that
    /// did not come.
    pub fn step(&mut self, event: Event) -> (r: Step<Result<(Packet, Endpoint), TransportError>>)
        requires
            old(self)@.phase != SendPhase::Finished,
        ensures
            final(self)@ == old(self)@.next(event),
            step_is(r, old(self)@, event, final(self)@),
            !(r is Done) ==> final(self)@.fuel() < old(self)@.fuel(),
    {
        match self.phase {
            SendPhase::Idle => self.retry(),
            SendPhase::Sending => match event {
                Event::SendFailed(f) => {
                    self.phase = SendPhase::Finished;
                    Step::Done(Err(TransportError::Io(f)))
                },
                _ => {
                    self.phase = SendPhase::Receiving;
                    Step::Io(Action::Receive { wait_ms: Some(self.timeout_ms) })
                },
            },
            SendPhase::Receiving => match event {
                Event::Received { datagram, from } => {
                    if self.tolerate_mismatch && !from.same(&self.peer) {
                        return self.fail_attempt();
                    }
                    match Packet::try_from(datagram.as_slice()) {
                        Err(_) => self.fail_attempt(),
                        Ok(p) => {
                            if !type_among(&self.accepted, p.ptyp) {
                                self.seen.push(p.ptyp);
                                self.phase = SendPhase::PausingAfterAnswer;
                                return Step::Io(Action::Sleep { ms: WRONG_TYPE_PAUSE });
                            }
                            match p.ptyp {
                                PacketType::Syn | PacketType::SynAck => {
                                    match try_deserialize_addr(p.data.as_slice()) {
                                        Some(addr) => {
                                            self.phase = SendPhase::Finished;
                                            Step::Done(Ok((p, addr)))
                                        },
                                        None => self.fail_attempt(),
                                    }
                                },
                                _ => {
                                    self.phase = SendPhase::Finished;
                                    Step::Done(Ok((p, from)))
                                },
                            }
                        },
                    }
                },
                Event::ReceiveFailed(f) => match f.kind {
                    IoErrorKind::TimedOut | IoErrorKind::Interrupted => self.fail_attempt(),
                    IoErrorKind::WouldBlock => {
                        if self.tolerate_would_block && self.blocks_left > 0 {
                            self.blocks_left = self.blocks_left - 1;
                            self.phase = SendPhase::PausingAfterBlock;
                            Step::Io(Action::Sleep { ms: WOULD_BLOCK_PAUSE })
                        } else {
                            self.phase = SendPhase::Finished;
                            Step::Done(Err(TransportError::Io(f)))
                        }
                    },
                    IoErrorKind::Other => {
                        self.phase = SendPhase::Finished;
                        Step::Done(Err(TransportError::Io(f)))
                    },
                },
                _ => self.fail_attempt(),
            },
            SendPhase::PausingAfterAnswer => self.fail_attempt(),
            SendPhase::PausingAfterBlock => self.retry(),
            SendPhase::Finished => Step::Done(Err(TransportError::TimedOut)),
        }
    }
}

/// Builds the machine that sends `send` until an answer of one of the types
/// `recv_packet_types` arrives. See [`ReliableSend::step`].
pub fn reliable_send(
    send: &[u8],
    peer: Endpoint,
    timeout_ms: u64,
    recv_packet_types: &[PacketType],
    skip_address_mismatch: bool,
    skip_would_block: bool,
    proxy: Option<Endpoint>,
    max_attempts: usize,
) -> (s: ReliableSend)
    ensures
        s@ == (ReliableSendView {
            datagram: send@,
            peer,
            dest: match proxy {
                Some(p) => p,
                None => peer,
            },
            timeout_ms,
            accepted: recv_packet_types@,
            tolerate_mismatch: skip_address_mismatch,
            tolerate_would_block: skip_would_block,
            attempts_left: max_attempts as nat,
            blocks_left: max_attempts as nat,
            seen: Seq::empty(),
            phase: SendPhase::Idle,
        }),
{
    let mut accepted: Vec<PacketType> = Vec::new();
    let mut i: usize = 0;
    while i < recv_packet_types.len()
        invariant
            i <= recv_packet_types@.len(),
            accepted@ == recv_packet_types@.subrange(0, i as int),
        decreases recv_packet_types@.len() - i,
    {
        accepted.push(recv_packet_types[i]);
        i += 1;
        assert(accepted@ =~= recv_packet_types@.subrange(0, i as int));
    }
    assert(recv_packet_types@.subrange(0, i as int) =~= recv_packet_types@);
    let datagram = crate::packet::copy_range(send, 0, send.len());
    assert(datagram@ =~= send@);
    ReliableSend::new(
        datagram,
        peer,
        timeout_ms,
        accepted,
        skip_address_mismatch,
        skip_would_block,
        proxy,
        max_attempts,
    )
}

} // verus!
