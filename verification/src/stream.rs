//! One side of a connection: what it has sent and not seen acknowledged, what
//! it has received and not handed out, and the steps of reading, writing,
//! flushing and closing.

use crate::packet::{
    copy_range, extend_from, spec_decode, spec_encode, stream_packets, Packet, PacketType,
    PacketView, PACKET_DATA_CAPACITY,
};
use crate::transport::{
    Action, Endpoint, Event, IoErrorKind, IoFailure, Step, TransportError, TIMEOUT,
};
use std::collections::HashMap;
use vstd::prelude::*;

verus! {

broadcast use vstd::std_specs::hash::group_hash_axioms;

/// The sequence number of the first data packet that a client sends.
pub const FIRST_NSEQ: u32 = 3;

/// How many copies of a FIN-ACK or of a FLUSH are sent.
pub const CONTROL_COPIES: usize = 100;

/// How often a FIN is sent before the stream closes without an answer.
pub const FIN_ATTEMPTS: usize = 30;

/// Timeout for sending one FIN-ACK, in milliseconds.
pub const FIN_ACK_TIMEOUT: u64 = 5;

/// Timeout for sending one FLUSH, in milliseconds.
pub const FLUSH_TIMEOUT: u64 = 50;

/// How many rounds of sending and waiting one read or one write may take.
pub const MAX_SKIPPED: usize = 16384;

/// Payloads that arrived ahead of their turn, by sequence number.
#[derive(Debug)]
pub struct RecvBuffer {
    map: HashMap<u32, Vec<u8>>,
}

impl View for RecvBuffer {
    type V = Map<u32, Seq<u8>>;

    closed spec fn view(&self) -> Map<u32, Seq<u8>> {
        Map::new(|k: u32| self.map@.contains_key(k), |k: u32| self.map@[k]@)
    }
}

impl RecvBuffer {
    /// An empty buffer.
    pub fn new() -> (b: RecvBuffer)
        ensures
            b@ == Map::<u32, Seq<u8>>::empty(),
    {
        let b = RecvBuffer { map: HashMap::new() };
        assert(b@ =~= Map::<u32, Seq<u8>>::empty());
        b
    }

    /// Whether a payload is held under `seq`.
    pub fn contains(&self, seq: u32) -> (r: bool)
        ensures
            r == self@.contains_key(seq),
    {
        self.map.contains_key(&seq)
    }

    /// Takes out the payload held under `seq`.
    pub fn take(&mut self, seq: u32) -> (r: Option<Vec<u8>>)
        ensures
            match r {
                Some(d) => old(self)@.contains_key(seq) && d@ == old(self)@[seq] && final(self)@
                    == old(self)@.remove(seq),
                None => !old(self)@.contains_key(seq) && final(self)@ == old(self)@,
            },
    {
        let r = self.map.remove(&seq);
        assert(self@ =~= old(self)@.remove(seq));
        proof {
            if r is None {
                assert(self@ =~= old(self)@);
            }
        }
        r
    }

    /// Holds `data` under `seq`, in place of what was held there.
    pub fn put(&mut self, seq: u32, data: Vec<u8>)
        ensures
            final(self)@ == old(self)@.insert(seq, data@),
    {
        self.map.insert(seq, data);
        assert(self@ =~= old(self)@.insert(seq, data@));
    }
}

/// One side of a connection.
#[derive(Debug)]
pub struct UdpxStream {
    local: Endpoint,
    remote: Endpoint,
    proxy: Option<Endpoint>,
    next_seq: u32,
    next_expected: u64,
    send_queue: Vec<Packet>,
    recv_buffer: RecvBuffer,
    last_seq: Option<u32>,
    closed: bool,
    got_flush: bool,
    latched: Option<IoFailure>,
    handshake_ack: Option<Packet>,
}

/// A connection's state as a mathematical value.
pub struct StreamView {
    /// This side's own socket address.
    pub local: Endpoint,
    /// The other side, as learned in the handshake.
    pub remote: Endpoint,
    /// The router that every datagram goes through, if there is one.
    pub proxy: Option<Endpoint>,
    /// The sequence number of the next data packet to send.
    pub next_seq: u32,
    /// The sequence number of the next payload to hand to the reader.
    pub next_expected: nat,
    /// The data packets sent and not yet acknowledged, oldest first.
    pub send_queue: Seq<PacketView>,
    /// The payloads received and not yet handed out, by sequence number.
    pub recv_buffer: Map<u32, Seq<u8>>,
    /// The sequence number at which the other side ends, once a FIN or a
    /// FLUSH has told it.
    pub last_seq: Option<u32>,
    /// Whether a FIN was seen or sent.
    pub closed: bool,
    /// Whether a FLUSH was seen.
    pub got_flush: bool,
    /// The socket failure that ended the connection, if one did.
    pub latched: Option<IoFailure>,
    /// The ACK that completed the handshake, kept for resending.
    pub handshake_ack: Option<PacketView>,
}

/// The views of a list of packets.
pub open spec fn views(packets: Seq<Packet>) -> Seq<PacketView> {
    packets.map_values(|p: Packet| p@)
}

impl View for UdpxStream {
    type V = StreamView;

    closed spec fn view(&self) -> StreamView {
        StreamView {
            local: self.local,
            remote: self.remote,
            proxy: self.proxy,
            next_seq: self.next_seq,
            next_expected: self.next_expected as nat,
            send_queue: views(self.send_queue@),
            recv_buffer: self.recv_buffer@,
            last_seq: self.last_seq,
            closed: self.closed,
            got_flush: self.got_flush,
            latched: self.latched,
            handshake_ack: match self.handshake_ack {
                Some(p) => Some(p@),
                None => None,
            },
        }
    }
}

impl StreamView {
    /// What holds of every stream. The reader's position is a sequence number
    /// or one past the largest. The queue holds data packets that fit in a
    /// datagram, and their sequence numbers grow strictly from one to the
    /// next and stay below the number that the next packet gets.
    pub open spec fn valid(self) -> bool {
        &&& self.next_expected <= 0x1_0000_0000
        &&& forall|i: int|
            0 <= i < self.send_queue.len() ==> {
                &&& (#[trigger] self.send_queue[i]).ptyp == PacketType::Data
                &&& self.send_queue[i].data.len() <= PACKET_DATA_CAPACITY
                &&& self.send_queue[i].nseq < self.next_seq
            }
        &&& forall|i: int, j: int|
            0 <= i < j < self.send_queue.len() ==> (#[trigger] self.send_queue[i]).nseq < (
            #[trigger] self.send_queue[j]).nseq
    }

    /// The state that follows a handshake.
    pub open spec fn fresh(
        local: Endpoint,
        next_seq: u32,
        next_expected: u32,
        proxy: Option<Endpoint>,
        remote: Endpoint,
        handshake_ack: Option<PacketView>,
    ) -> StreamView {
        StreamView {
            local,
            remote,
            proxy,
            next_seq,
            next_expected: next_expected as nat,
            send_queue: Seq::empty(),
            recv_buffer: Map::empty(),
            last_seq: None,
            closed: false,
            got_flush: false,
            latched: None,
            handshake_ack,
        }
    }

    /// The state after the packets that came with the handshake were taken
    /// in, one after the other: the payload of each data packet among them
    /// is held under its sequence number, in place of what was held there.
    pub open spec fn with_starting_data(self, packets: Seq<PacketView>) -> StreamView
        decreases packets.len(),
    {
        if packets.len() == 0 {
            self
        } else {
            let before = self.with_starting_data(packets.drop_last());
            if packets.last().ptyp == PacketType::Data {
                StreamView {
                    recv_buffer: before.recv_buffer.insert(
                        packets.last().nseq,
                        packets.last().data,
                    ),
                    ..before
                }
            } else {
                before
            }
        }
    }

    /// Where datagrams go: to the router if there is one, else to the other
    /// side.
    pub open spec fn dest(self) -> Endpoint {
        match self.proxy {
            Some(p) => p,
            None => self.remote,
        }
    }

    /// The other side has said where it ends, and everything before that
    /// point has been handed to the reader.
    pub open spec fn drained(self) -> bool {
        self.last_seq matches Some(n) && self.next_expected >= n
    }

    /// The connection is over: it was closed and nothing is left to read.
    pub open spec fn is_closed(self) -> bool {
        self.closed && self.drained()
    }

    /// Nothing more will be read: the connection is over or has failed.
    pub open spec fn cannot_read_anymore(self) -> bool {
        self.latched is Some || self.is_closed()
    }

    /// The payload that is next in order, if it has arrived.
    pub open spec fn head(self) -> Option<Seq<u8>> {
        if self.next_expected <= u32::MAX && self.recv_buffer.contains_key(
            self.next_expected as u32,
        ) {
            Some(self.recv_buffer[self.next_expected as u32])
        } else {
            None
        }
    }

    /// The state after a data packet with sequence number `seq` and payload
    /// `data` has arrived while a write waited for its acknowledgements: the
    /// payload is kept under its number unless one is held there already,
    /// wherever the reader stands.
    pub open spec fn buffer_data(self, seq: u32, data: Seq<u8>) -> StreamView {
        if !self.recv_buffer.contains_key(seq) {
            StreamView { recv_buffer: self.recv_buffer.insert(seq, data), ..self }
        } else {
            self
        }
    }

    /// The state after a data packet with sequence number `seq` and payload
    /// `data` has reached a read: the payload is kept unless it is behind the
    /// reader or already held.
    pub open spec fn accept_data(self, seq: u32, data: Seq<u8>) -> StreamView {
        if seq >= self.next_expected && !self.recv_buffer.contains_key(seq) {
            StreamView { recv_buffer: self.recv_buffer.insert(seq, data), ..self }
        } else {
            self
        }
    }

    /// Hands the reader up to `room` bytes, strictly in order of sequence
    /// number: the state afterwards, and the bytes. A payload that does not
    /// fit stays behind with its unread rest.
    pub open spec fn drain(self, room: nat) -> (StreamView, Seq<u8>)
        decreases 0x1_0000_0000 - self.next_expected,
    {
        if room == 0 || self.drained() || self.head() is None {
            (self, Seq::<u8>::empty())
        } else {
            let d = self.head().unwrap();
            let key = self.next_expected as u32;
            if d.len() <= room {
                let after = StreamView {
                    next_expected: self.next_expected + 1,
                    recv_buffer: self.recv_buffer.remove(key),
                    ..self
                };
                let (done, more) = after.drain((room - d.len()) as nat);
                (done, d + more)
            } else {
                (
                    StreamView {
                        recv_buffer: self.recv_buffer.insert(key, d.skip(room as int)),
                        ..self
                    },
                    d.take(room as int),
                )
            }
        }
    }

    /// The sequence number that a FIN or a FLUSH from this side carries.
    pub open spec fn parting(self) -> u32 {
        self.next_seq
    }
}

impl UdpxStream {
    /// A stream in the state that follows a handshake: it sends from
    /// `next_seq` and reads from `next_expected`, nothing is queued or
    /// buffered, and `handshake_ack` is the ACK that completed the handshake,
    /// where this side sent one.
    pub fn new(
        local: Endpoint,
        next_seq: u32,
        next_expected: u32,
        proxy: Option<Endpoint>,
        remote: Endpoint,
        handshake_ack: Option<Packet>,
    ) -> (s: UdpxStream)
        ensures
            s@.valid(),
            s@ == StreamView::fresh(
                local,
                next_seq,
                next_expected,
                proxy,
                remote,
                match handshake_ack {
                    Some(p) => Some(p@),
                    None => None,
                },
            ),
    {
        let s = UdpxStream {
            local,
            remote,
            proxy,
            next_seq,
            next_expected: next_expected as u64,
            send_queue: Vec::new(),
            recv_buffer: RecvBuffer::new(),
            last_seq: None,
            closed: false,
            got_flush: false,
            latched: None,
            handshake_ack,
        };
        assert(s@.send_queue =~= Seq::<PacketView>::empty());
        s
    }

    /// Takes in the packets that came with the handshake: the payload of
    /// each data packet among them is held for the reader under its sequence
    /// number.
    pub fn with_starting_data(self, initial_data: Vec<Packet>) -> (s: UdpxStream)
        requires
            self@.valid(),
        ensures
            s@.valid(),
            s@ == self@.with_starting_data(views(initial_data@)),
    {
        let mut s = self;
        let mut rest = initial_data;
        let ghost all = views(rest@);
        proof {
            assert(all.take(0) =~= Seq::<PacketView>::empty());
        }
        let mut i: usize = 0;
        let n = rest.len();
        while rest.len() > 0
            invariant
                s@.valid(),
                n == all.len(),
                i + rest@.len() == n,
                views(rest@) == all.skip(i as int),
                s@ == self@.with_starting_data(all.take(i as int)),
            decreases rest@.len(),
        {
            let ghost before = rest@;
            let p = rest.remove(0);
            proof {
                assert(views(before)[0] == all.skip(i as int)[0]);
                assert(p@ == all[i as int]);
                assert forall|j: int| 0 <= j < rest@.len() implies views(rest@)[j] == all.skip(
                    i + 1,
                )[j] by {
                    assert(rest@[j] == before[j + 1]);
                    assert(views(before)[j + 1] == all.skip(i as int)[j + 1]);
                }
                assert(views(rest@) =~= all.skip(i + 1));
                assert(all.take(i + 1).drop_last() =~= all.take(i as int));
            }
            if p.ptyp == PacketType::Data {
                s.recv_buffer.put(p.nseq, p.data);
            }
            i += 1;
        }
        proof {
            assert(all.take(i as int) =~= all);
        }
        s
    }

    /// This side's own socket address.
    pub fn local_addr(&self) -> (e: Endpoint)
        ensures
            e == self@.local,
    {
        self.local
    }

    /// The router that this stream sends through, if there is one.
    pub fn proxy(&self) -> (p: Option<Endpoint>)
        ensures
            p == self@.proxy,
    {
        self.proxy
    }

    /// The sequence number of the next data packet that this side sends.
    pub fn next_seq(&self) -> (n: u32)
        ensures
            n == self@.next_seq,
    {
        self.next_seq
    }

    /// The sequence number of the payload that the reader gets next.
    pub fn next_expected_seq(&self) -> (n: u64)
        ensures
            n == self@.next_expected,
    {
        self.next_expected
    }

    /// Where the other side ends, once it has told.
    pub fn last_seq(&self) -> (n: Option<u32>)
        ensures
            n == self@.last_seq,
    {
        self.last_seq
    }

    /// How many data packets wait for their acknowledgement.
    pub fn unacked(&self) -> (n: usize)
        ensures
            n == self@.send_queue.len(),
    {
        self.send_queue.len()
    }

    /// Whether a payload is held under the sequence number `seq`.
    pub fn is_buffered(&self, seq: u32) -> (r: bool)
        ensures
            r == self@.recv_buffer.contains_key(seq),
    {
        self.recv_buffer.contains(seq)
    }

    /// The socket failure that was kept, if one was.
    pub fn latched_err(&self) -> (f: Option<IoFailure>)
        ensures
            f == self@.latched,
    {
        self.latched
    }

    /// The other side of the connection.
    pub fn peer_addr(&self) -> (e: Endpoint)
        ensures
            e == self@.remote,
    {
        self.remote
    }

    /// Where this stream's datagrams go.
    pub fn dest(&self) -> (e: Endpoint)
        ensures
            e == self@.dest(),
    {
        match self.proxy {
            Some(p) => p,
            None => self.remote,
        }
    }

    /// Whether the other side has said where it ends and the reader has got
    /// that far.
    pub fn received_last_packet(&self) -> (r: bool)
        ensures
            r == self@.drained(),
    {
        match self.last_seq {
            Some(n) => self.next_expected >= n as u64,
            None => false,
        }
    }

    /// Whether the connection is over.
    pub fn is_closed(&self) -> (r: bool)
        ensures
            r == self@.is_closed(),
    {
        self.closed && self.received_last_packet()
    }

    /// Whether nothing more will be read.
    pub fn cannot_read_anymore(&self) -> (r: bool)
        ensures
            r == self@.cannot_read_anymore(),
    {
        self.latched.is_some() || self.is_closed()
    }

    /// The failure that `read` and `write` report before they do anything:
    /// `Closed` once the connection is over, else the socket failure that was
    /// kept, if there is one.
    pub fn registered_err(&self) -> (r: Result<(), TransportError>)
        ensures
            self@.is_closed() ==> r matches Err(TransportError::Closed),
            !self@.is_closed() ==> match self@.latched {
                Some(f) => r matches Err(TransportError::Io(g)) && g == f,
                None => r is Ok,
            },
    {
        if self.is_closed() {
            Err(TransportError::Closed)
        } else {
            match self.latched {
                Some(f) => Err(TransportError::Io(f)),
                None => Ok(()),
            }
        }
    }

    /// Keeps a socket failure, to be reported by every later read and write,
    /// and hands it back.
    pub fn register_err(&mut self, err: IoFailure) -> (e: IoFailure)
        requires
            old(self)@.valid(),
        ensures
            final(self)@.valid(),
            e == err,
            final(self)@ == (StreamView { latched: Some(err), ..old(self)@ }),
    {
        self.latched = Some(err);
        err
    }

    /// An empty data packet addressed to the other side.
    pub fn packet_defaults(&self) -> (p: Packet)
        ensures
            p@ == (PacketView {
                ptyp: PacketType::Data,
                nseq: 0,
                peer: self@.remote.ip,
                port: self@.remote.port,
                data: Seq::empty(),
            }),
    {
        Packet {
            ptyp: PacketType::Data,
            nseq: 0,
            peer: self.remote.ip,
            port: self.remote.port,
            data: Vec::new(),
        }
    }

    /// Takes in a data packet that came while a write waited: its payload is
    /// kept under its number unless one is held there already.
    pub fn buffer_data(&mut self, seq: u32, data: Vec<u8>)
        requires
            old(self)@.valid(),
        ensures
            final(self)@.valid(),
            final(self)@ == old(self)@.buffer_data(seq, data@),
    {
        if !self.recv_buffer.contains(seq) {
            self.recv_buffer.put(seq, data);
        }
    }

    /// Takes in a data packet that reached a read: its payload is kept for
    /// the reader unless it is behind the reader or already held.
    pub fn accept_data(&mut self, seq: u32, data: Vec<u8>)
        requires
            old(self)@.valid(),
        ensures
            final(self)@.valid(),
            final(self)@ == old(self)@.accept_data(seq, data@),
    {
        if seq as u64 >= self.next_expected && !self.recv_buffer.contains(seq) {
            self.recv_buffer.put(seq, data);
        }
    }

    /// Moves up to `room` bytes that are next in order to the end of `out`.
    pub fn deliver(&mut self, out: &mut Vec<u8>, room: usize) -> (n: usize)
        requires
            old(self)@.valid(),
        ensures
            final(self)@.valid(),
            final(self)@ == old(self)@.drain(room as nat).0,
            final(out)@ == old(out)@ + old(self)@.drain(room as nat).1,
            n == old(self)@.drain(room as nat).1.len(),
            n <= room,
    {
        let mut left: usize = room;
        loop
            invariant
                self@.valid(),
                left <= room,
                out@.len() == old(out)@.len() + (room - left),
                old(self)@.drain(room as nat).0 == self@.drain(left as nat).0,
                old(out)@ + old(self)@.drain(room as nat).1 == out@ + self@.drain(left as nat).1,
            ensures
                left == 0 || self@.drained() || self@.head() is None,
            decreases 0x1_0000_0000 - self.next_expected,
        {
            if left == 0 || self.received_last_packet() || self.next_expected > u32::MAX as u64 {
                break;
            }
            let key: u32 = self.next_expected as u32;
            let ghost before = self@;
            let ghost out_before = out@;
            match self.recv_buffer.take(key) {
                None => {
                    break;
                },
                Some(d) => {
                    if d.len() <= left {
                        extend_from(out, d.as_slice());
                        self.next_expected = self.next_expected + 1;
                        left = left - d.len();
                        proof {
                            let after = StreamView {
                                next_expected: before.next_expected + 1,
                                recv_buffer: before.recv_buffer.remove(key),
                                ..before
                            };
                            assert(self@ == after);
                            assert(out_before + (d@ + after.drain(left as nat).1) =~= (out_before
                                + d@) + after.drain(left as nat).1);
                        }
                    } else {
                        let first = copy_range(d.as_slice(), 0, left);
                        let rest = copy_range(d.as_slice(), left, d.len());
                        extend_from(out, first.as_slice());
                        self.recv_buffer.put(key, rest);
                        proof {
                            assert(first@ =~= d@.take(left as int));
                            assert(rest@ =~= d@.skip(left as int));
                            assert(self@.recv_buffer =~= before.recv_buffer.insert(
                                key,
                                d@.skip(left as int),
                            ));
                            assert(self@.drain(0).1 =~= Seq::<u8>::empty());
                            assert(out@ + self@.drain(0).1 =~= out@);
                        }
                        left = 0;
                        break;
                    }
                },
            }
        }
        proof {
            assert(out@ + self@.drain(left as nat).1 =~= out@);
        }
        room - left
    }
}

/// How a read or a write ends.
#[derive(Debug, Clone, Copy, PartialEq, Eq, Structural)]
pub enum Outcome {
    /// So many bytes were read or written.
    Count(usize),
    /// The socket failed, now or earlier, before any byte was read or
    /// written.
    Failed(IoFailure),
    /// The stream is closed.
    Closed,
}

/// Whether the result `r` is what the outcome `o` says.
pub open spec fn outcome_is(r: Result<usize, TransportError>, o: Outcome) -> bool {
    match o {
        Outcome::Count(n) => r matches Ok(m) && m == n,
        Outcome::Failed(f) => r matches Err(TransportError::Io(g)) && g == f,
        Outcome::Closed => r matches Err(TransportError::Closed),
    }
}

/// The result that an outcome stands for.
pub fn outcome_result(o: Outcome) -> (r: Result<usize, TransportError>)
    ensures
        outcome_is(r, o),
{
    match o {
        Outcome::Count(n) => Ok(n),
        Outcome::Failed(f) => Err(TransportError::Io(f)),
        Outcome::Closed => Err(TransportError::Closed),
    }
}

/// A packet without payload, addressed to `remote`.
pub open spec fn control_packet(ptyp: PacketType, nseq: u32, remote: Endpoint) -> PacketView {
    PacketView { ptyp, nseq, peer: remote.ip, port: remote.port, data: Seq::empty() }
}

/// The datagram of a packet without payload, addressed to `remote`.
pub fn control_datagram(ptyp: PacketType, nseq: u32, remote: Endpoint) -> (d: Vec<u8>)
    ensures
        d@ == spec_encode(control_packet(ptyp, nseq, remote)),
{
    let p = Packet { ptyp, nseq, peer: remote.ip, port: remote.port, data: Vec::new() };
    p.raw()
}

/// Whether `r` asks to send the datagram `bytes` to `to` within `timeout`
/// milliseconds.
pub open spec fn is_send<T>(r: Step<T>, bytes: Seq<u8>, to: Endpoint, timeout: u64) -> bool {
    r matches Step::Io(Action::Send { datagram, to: t, timeout_ms }) && datagram@ == bytes && t
        == to && timeout_ms == timeout
}

/// Whether `r` asks to receive a datagram within `timeout` milliseconds.
pub open spec fn is_receive<T>(r: Step<T>, timeout: u64) -> bool {
    r matches Step::Io(Action::Receive { wait_ms }) && wait_ms == Some(timeout)
}

/// Whether `r` asks to pause for `pause` milliseconds.
pub open spec fn is_sleep<T>(r: Step<T>, pause: u64) -> bool {
    r matches Step::Io(Action::Sleep { ms }) && ms == pause
}

/// Where a read stands.
#[derive(Debug, Clone, Copy, PartialEq, Eq, Structural)]
pub enum ReadPhase {
    /// Not begun.
    Idle,
    /// Waiting for a datagram.
    Receiving,
    /// An acknowledgement is on its way to the socket.
    Acking,
    /// A FIN-ACK is on its way to the socket; so many more follow.
    FinAcking(usize),
    /// Over, with this outcome.
    Finished(Outcome),
}

/// One call of `read`: how many bytes are wanted, how many have been handed
/// out, and how many more times the socket may be asked for a datagram.
#[derive(Debug, Clone, Copy, PartialEq, Eq, Structural)]
pub struct ReadOp {
    pub want: usize,
    pub red: usize,
    pub budget: usize,
    pub phase: ReadPhase,
}

impl ReadOp {
    /// A bound on the steps that are left of this read: every step that does
    /// not end the read lowers it.
    pub open spec fn fuel(self) -> nat {
        match self.phase {
            ReadPhase::Idle => (203 * self.budget + 202) as nat,
            ReadPhase::Receiving => (203 * self.budget + 150) as nat,
            ReadPhase::Acking => (203 * self.budget + 1) as nat,
            ReadPhase::FinAcking(left) => (203 * self.budget + left + 2) as nat,
            ReadPhase::Finished(_) => 0,
        }
    }

    /// A read of up to `want` bytes that asks the socket `budget` times at
    /// most.
    pub fn new(want: usize, budget: usize) -> (op: ReadOp)
        ensures
            op == (ReadOp { want, red: 0, budget, phase: ReadPhase::Idle }),
    {
        ReadOp { want, red: 0, budget, phase: ReadPhase::Idle }
    }

    /// This read, over with the outcome `o`.
    pub open spec fn end(self, o: Outcome) -> ReadOp {
        ReadOp { phase: ReadPhase::Finished(o), ..self }
    }
}

impl StreamView {
    /// The state after a socket failure was kept.
    pub open spec fn latch(self, f: IoFailure) -> StreamView {
        StreamView { latched: Some(f), ..self }
    }

    /// The state after a send ended with `event`: a failure that no retry
    /// cures is kept.
    pub open spec fn after_send(self, event: Event) -> StreamView {
        match event {
            Event::SendFailed(f) => if f.kind == IoErrorKind::Other {
                self.latch(f)
            } else {
                self
            },
            _ => self,
        }
    }

    /// How a read or write that has moved `n` bytes ends if the stream is
    /// over or has failed: with the count if the stream is over or any byte
    /// was moved, else with the failure.
    pub open spec fn verdict(self, n: usize) -> Option<Outcome> {
        if self.is_closed() {
            Some(Outcome::Count(n))
        } else {
            match self.latched {
                Some(f) => Some(
                    if n > 0 {
                        Outcome::Count(n)
                    } else {
                        Outcome::Failed(f)
                    },
                ),
                None => None,
            }
        }
    }

    /// What a read does when it has nothing to wait for: it ends if it has
    /// all the bytes it wants, if the stream is over or has failed, or if the
    /// other side has ended; else it hands out what is next in order and, if
    /// that does not end it, asks the socket for a datagram, as long as its
    /// budget lasts. The third component is what it hands out.
    pub open spec fn read_decide(self, op: ReadOp) -> (StreamView, ReadOp, Seq<u8>) {
        if op.red >= op.want {
            (self, op.end(Outcome::Count(op.red)), Seq::<u8>::empty())
        } else if self.verdict(op.red) is Some {
            (self, op.end(self.verdict(op.red).unwrap()), Seq::<u8>::empty())
        } else if self.drained() {
            (self, op.end(Outcome::Count(op.red)), Seq::<u8>::empty())
        } else {
            let (after, bytes) = self.drain((op.want - op.red) as nat);
            let red = (op.red + bytes.len()) as usize;
            if red >= op.want || after.drained() || op.budget == 0 {
                (
                    after,
                    ReadOp { red, phase: ReadPhase::Finished(Outcome::Count(red)), ..op },
                    bytes,
                )
            } else {
                (
                    after,
                    ReadOp {
                        red,
                        budget: (op.budget - 1) as usize,
                        phase: ReadPhase::Receiving,
                        ..op
                    },
                    bytes,
                )
            }
        }
    }

    /// The state after a packet reached a reading stream, before the read
    /// goes on: a FLUSH or a FIN tells where the other side ends, a FIN also
    /// closes, and the payload of a data packet is taken in.
    pub open spec fn read_packet(self, p: PacketView) -> StreamView {
        match p.ptyp {
            PacketType::Flush => if self.got_flush {
                self
            } else {
                StreamView { got_flush: true, last_seq: Some(p.nseq), ..self }
            },
            PacketType::Fin => StreamView { last_seq: Some(p.nseq), closed: true, ..self },
            PacketType::Data => self.accept_data(p.nseq, p.data),
            _ => self,
        }
    }

    /// One step of a read: the state and the read after `event`, and the
    /// bytes handed out in this step.
    pub open spec fn read_step(self, op: ReadOp, event: Event) -> (StreamView, ReadOp, Seq<u8>) {
        match op.phase {
            ReadPhase::Idle => self.read_decide(op),
            ReadPhase::Receiving => match event {
                Event::Received { datagram, from } => match spec_decode(datagram@) {
                    None => self.read_decide(op),
                    Some(p) => match p.ptyp {
                        PacketType::Data => (
                            self.read_packet(p),
                            ReadOp { phase: ReadPhase::Acking, ..op },
                            Seq::<u8>::empty(),
                        ),
                        PacketType::Fin => (
                            self.read_packet(p),
                            ReadOp {
                                phase: ReadPhase::FinAcking((CONTROL_COPIES - 1) as usize),
                                ..op
                            },
                            Seq::<u8>::empty(),
                        ),
                        _ => self.read_packet(p).read_decide(op),
                    },
                },
                Event::ReceiveFailed(f) => if f.kind == IoErrorKind::Other {
                    self.latch(f).read_decide(op)
                } else if op.red > 0 {
                    (self, op.end(Outcome::Count(op.red)), Seq::<u8>::empty())
                } else {
                    self.read_decide(op)
                },
                _ => self.read_decide(op),
            },
            ReadPhase::Acking => self.after_send(event).read_decide(op),
            ReadPhase::FinAcking(left) => if left > 0 {
                (
                    self,
                    ReadOp { phase: ReadPhase::FinAcking((left - 1) as usize), ..op },
                    Seq::<u8>::empty(),
                )
            } else {
                self.read_decide(op)
            },
            ReadPhase::Finished(_) => (self, op, Seq::<u8>::empty()),
        }
    }

    /// Whether `r` is what a read asks for after a step that took `event`
    /// and led to the state `self` and the read `op`.
    pub open spec fn read_asks(
        self,
        op: ReadOp,
        event: Event,
        r: Step<Result<usize, TransportError>>,
    ) -> bool {
        match op.phase {
            ReadPhase::Idle => false,
            ReadPhase::Receiving => is_receive(r, TIMEOUT),
            ReadPhase::Acking => event matches Event::Received { datagram, from } && spec_decode(
                datagram@,
            ) matches Some(p) && is_send(
                r,
                spec_encode(control_packet(PacketType::Ack, p.nseq, self.remote)),
                self.dest(),
                TIMEOUT,
            ),
            ReadPhase::FinAcking(_) => is_send(
                r,
                spec_encode(control_packet(PacketType::FinAck, 0, self.remote)),
                self.dest(),
                FIN_ACK_TIMEOUT,
            ),
            ReadPhase::Finished(o) => r matches Step::Done(res) && outcome_is(res, o),
        }
    }
}

impl UdpxStream {
    /// Keeps the failure of a send if no retry cures it.
    fn after_send(&mut self, event: &Event)
        requires
            old(self)@.valid(),
        ensures
            final(self)@.valid(),
            final(self)@ == old(self)@.after_send(*event),
    {
        match event {
            Event::SendFailed(f) => {
                if !f.is_transient() {
                    self.latched = Some(*f);
                }
            },
            _ => {},
        }
    }

    /// How a read or write that has moved `n` bytes ends if the stream is
    /// over or has failed.
    pub fn maybe_registered_err(&self, n: usize) -> (r: Option<Outcome>)
        ensures
            r == self@.verdict(n),
    {
        if self.is_closed() {
            Some(Outcome::Count(n))
        } else {
            match self.latched {
                Some(f) => Some(
                    if n > 0 {
                        Outcome::Count(n)
                    } else {
                        Outcome::Failed(f)
                    },
                ),
                None => None,
            }
        }
    }

    fn read_decide(&mut self, op: &mut ReadOp, out: &mut Vec<u8>) -> (r: Step<
        Result<usize, TransportError>,
    >)
        requires
            old(self)@.valid(),
            old(op).red <= old(op).want,
        ensures
            final(self)@.valid(),
            final(op).red <= final(op).want,
            final(self)@ == old(self)@.read_decide(*old(op)).0,
            *final(op) == old(self)@.read_decide(*old(op)).1,
            final(out)@ == old(out)@ + old(self)@.read_decide(*old(op)).2,
            final(op).phase matches ReadPhase::Finished(o) ==> r matches Step::Done(res)
                && outcome_is(res, o),
            final(op).phase == ReadPhase::Receiving ==> is_receive(r, TIMEOUT),
            final(op).phase matches ReadPhase::Finished(_) || final(op).phase
                == ReadPhase::Receiving,
            final(op).phase == ReadPhase::Receiving ==> final(op).budget < old(op).budget,
            final(op).budget <= old(op).budget,
    {
        proof {
            assert(out@ + Seq::<u8>::empty() =~= out@);
        }
        if op.red >= op.want {
            op.phase = ReadPhase::Finished(Outcome::Count(op.red));
            return Step::Done(Ok(op.red));
        }
        match self.maybe_registered_err(op.red) {
            Some(o) => {
                op.phase = ReadPhase::Finished(o);
                return Step::Done(outcome_result(o));
            },
            None => {},
        }
        if self.received_last_packet() {
            op.phase = ReadPhase::Finished(Outcome::Count(op.red));
            return Step::Done(Ok(op.red));
        }
        let n = self.deliver(out, op.want - op.red);
        op.red = op.red + n;
        if op.red >= op.want || self.received_last_packet() || op.budget == 0 {
            op.phase = ReadPhase::Finished(Outcome::Count(op.red));
            return Step::Done(Ok(op.red));
        }
        op.budget = op.budget - 1;
        op.phase = ReadPhase::Receiving;
        Step::Io(Action::Receive { wait_ms: Some(TIMEOUT) })
    }

    /// One step of reading up to `op.want` bytes into `out`.
    ///
    /// Bytes come out strictly in order of sequence number. A data packet
    /// that arrives is acknowledged, whether it is new or not, and kept
    /// unless it is behind the reader or already held. A FLUSH or a FIN tells
    /// where the other side ends; a FIN also closes the stream and is
    /// answered by a series of FIN-ACKs. A datagram that is no packet, and a
    /// packet of any other type, is passed over. When the socket has no
    /// datagram in time, the read ends if it has handed out anything and
    /// tries again otherwise, as long as its budget lasts. A failure of the
    /// socket that no retry cures is kept: the read ends with the bytes it
    /// has, or with the failure if it has none, and so does every later one.
    /// Once the stream is over, every read ends at once with no bytes.
    pub fn read(&mut self, op: &mut ReadOp, out: &mut Vec<u8>, event: Event) -> (r: Step<
        Result<usize, TransportError>,
    >)
        requires
            old(self)@.valid(),
            old(op).red <= old(op).want,
            !(old(op).phase is Finished),
        ensures
            final(self)@.valid(),
            final(op).red <= final(op).want,
            final(self)@ == old(self)@.read_step(*old(op), event).0,
            *final(op) == old(self)@.read_step(*old(op), event).1,
            final(out)@ == old(out)@ + old(self)@.read_step(*old(op), event).2,
            final(self)@.read_asks(*final(op), event, r),
            !(r is Done) ==> final(op).fuel() < old(op).fuel(),
    {
        proof {
            assert(out@ + Seq::<u8>::empty() =~= out@);
        }
        match op.phase {
            ReadPhase::Idle => self.read_decide(op, out),
            ReadPhase::Receiving => match event {
                Event::Received { datagram, from } => {
                    match Packet::try_from(datagram.as_slice()) {
                        Err(_) => self.read_decide(op, out),
                        Ok(p) => match p.ptyp {
                            PacketType::Data => {
                                let ack = control_datagram(PacketType::Ack, p.nseq, self.remote);
                                self.accept_data(p.nseq, p.data);
                                op.phase = ReadPhase::Acking;
                                Step::Io(
                                    Action::Send {
                                        datagram: ack,
                                        to: self.dest(),
                                        timeout_ms: TIMEOUT,
                                    },
                                )
                            },
                            PacketType::Fin => {
                                self.last_seq = Some(p.nseq);
                                self.closed = true;
                                op.phase = ReadPhase::FinAcking(CONTROL_COPIES - 1);
                                Step::Io(
                                    Action::Send {
                                        datagram: control_datagram(
                                            PacketType::FinAck,
                                            0,
                                            self.remote,
                                        ),
                                        to: self.dest(),
                                        timeout_ms: FIN_ACK_TIMEOUT,
                                    },
                                )
                            },
                            PacketType::Flush => {
                                if !self.got_flush {
                                    self.got_flush = true;
                                    self.last_seq = Some(p.nseq);
                                }
                                self.read_decide(op, out)
                            },
                            _ => self.read_decide(op, out),
                        },
                    }
                },
                Event::ReceiveFailed(f) => {
                    if !f.is_transient() {
                        self.latched = Some(f);
                        self.read_decide(op, out)
                    } else if op.red > 0 {
                        op.phase = ReadPhase::Finished(Outcome::Count(op.red));
                        Step::Done(Ok(op.red))
                    } else {
                        self.read_decide(op, out)
                    }
                },
                _ => self.read_decide(op, out),
            },
            ReadPhase::Acking => {
                self.after_send(&event);
                self.read_decide(op, out)
            },
            ReadPhase::FinAcking(left) => {
                if left > 0 {
                    op.phase = ReadPhase::FinAcking(left - 1);
                    Step::Io(
                        Action::Send {
                            datagram: control_datagram(PacketType::FinAck, 0, self.remote),
                            to: self.dest(),
                            timeout_ms: FIN_ACK_TIMEOUT,
                        },
                    )
                } else {
                    self.read_decide(op, out)
                }
            },
            ReadPhase::Finished(o) => Step::Done(outcome_result(o)),
        }
    }
}

/// End of stream: once a FIN has been seen and everything before it has
/// been handed out, a read of any size ends at once with no bytes and leaves
/// the stream as it was, so that every later read does the same.
pub proof fn lemma_eof_after_fin(s: StreamView, want: usize, budget: usize, event: Event)
    requires
        s.closed,
        s.drained(),
    ensures
        ({
            let op = ReadOp { want, red: 0, budget, phase: ReadPhase::Idle };
            &&& s.read_step(op, event).0 == s
            &&& s.read_step(op, event).1.phase == ReadPhase::Finished(Outcome::Count(0))
            &&& s.read_step(op, event).2 == Seq::<u8>::empty()
        }),
{
}

/// A FIN ends the stream for the reader as soon as nothing is missing: if
/// the reader stands at the sequence number that the FIN carries (or beyond
/// it), the stream is over once the FIN has been taken in.
pub proof fn lemma_fin_closes(s: StreamView, fin: PacketView)
    requires
        fin.ptyp == PacketType::Fin,
        s.next_expected >= fin.nseq,
    ensures
        s.read_packet(fin).is_closed(),
{
}

/// The place of the first packet with sequence number `seq` in `q`.
pub open spec fn find_seq(q: Seq<PacketView>, seq: u32) -> Option<int>
    decreases q.len(),
{
    if q.len() == 0 {
        None
    } else if q[0].nseq == seq {
        Some(0)
    } else {
        match find_seq(q.skip(1), seq) {
            Some(i) => Some(i + 1),
            None => None,
        }
    }
}

/// `find_seq` finds the first place where the sequence number stands, and
/// finds nothing only where it stands nowhere.
pub proof fn lemma_find_seq(q: Seq<PacketView>, seq: u32)
    ensures
        match find_seq(q, seq) {
            Some(i) => 0 <= i < q.len() && q[i].nseq == seq && forall|j: int|
                0 <= j < i ==> q[j].nseq != seq,
            None => forall|j: int| 0 <= j < q.len() ==> q[j].nseq != seq,
        },
    decreases q.len(),
{
    if q.len() > 0 && q[0].nseq != seq {
        let rest = q.skip(1);
        lemma_find_seq(rest, seq);
        match find_seq(rest, seq) {
            Some(i) => {
                assert(rest[i] == q[i + 1]);
                assert forall|j: int| 0 <= j < i + 1 implies q[j].nseq != seq by {
                    if j > 0 {
                        assert(rest[j - 1] == q[j]);
                    }
                }
            },
            None => {
                assert forall|j: int| 0 <= j < q.len() implies q[j].nseq != seq by {
                    if j > 0 {
                        assert(rest[j - 1] == q[j]);
                    }
                }
            },
        }
    }
}

/// The sum of two counts, or the largest count if the sum is larger.
pub open spec fn capped_sum(a: usize, b: nat) -> usize {
    if a + b <= usize::MAX {
        (a + b) as usize
    } else {
        usize::MAX
    }
}

/// Where a write stands.
#[derive(Debug, Clone, Copy, PartialEq, Eq, Structural)]
pub enum WritePhase {
    /// Not begun.
    Idle,
    /// The queued packet at this place is on its way to the socket.
    Sending(usize),
    /// Waiting for an answer; so many more may be waited for in this round.
    Awaiting(usize),
    /// An acknowledgement of data that came in is on its way to the socket.
    Acking(usize),
    /// The ACK of the handshake is on its way to the socket once more.
    Resending(usize),
    /// Pausing because the socket would have blocked.
    Pausing(usize),
    /// Over, with this outcome.
    Finished(Outcome),
}

/// One call of `write`: how many bytes have been acknowledged, and how many
/// more rounds of sending and waiting may follow.
#[derive(Debug, Clone, Copy, PartialEq, Eq, Structural)]
pub struct WriteOp {
    pub written: usize,
    pub budget: usize,
    pub phase: WritePhase,
}

impl WriteOp {
    /// How far this write is from the end of its round, at most, where
    /// `queued` packets wait for their acknowledgement.
    pub open spec fn rank(self, queued: nat) -> nat {
        match self.phase {
            WritePhase::Idle => 0,
            WritePhase::Sending(i) => if i < queued {
                (3 * queued + 1 - i) as nat
            } else {
                2 * queued + 1
            },
            WritePhase::Awaiting(left) => (2 * left) as nat,
            WritePhase::Acking(left) => (2 * left + 1) as nat,
            WritePhase::Resending(left) => (2 * left + 1) as nat,
            WritePhase::Pausing(left) => (2 * left + 1) as nat,
            WritePhase::Finished(_) => 0,
        }
    }

    /// Whether the write `self`, with `queued` packets unacknowledged, is
    /// nearer to its end than the write `before` was with `queued_before`:
    /// it has less budget, or the same budget and less of its round before
    /// it. No write can get nearer to its end for ever.
    pub open spec fn nearer(self, queued: nat, before: WriteOp, queued_before: nat) -> bool {
        self.budget < before.budget || (self.budget == before.budget && self.rank(queued)
            < before.rank(queued_before))
    }

    /// A write that takes `budget` rounds at most.
    pub fn new(budget: usize) -> (op: WriteOp)
        ensures
            op == (WriteOp { written: 0, budget, phase: WritePhase::Idle }),
    {
        WriteOp { written: 0, budget, phase: WritePhase::Idle }
    }

    /// This write, over with the outcome `o`.
    pub open spec fn end(self, o: Outcome) -> WriteOp {
        WriteOp { phase: WritePhase::Finished(o), ..self }
    }
}

/// One less, but not less than nothing.
pub open spec fn less_one(n: usize) -> usize {
    if n > 0 {
        (n - 1) as usize
    } else {
        0
    }
}

impl StreamView {
    /// The state after `bytes` were cut into data packets and queued: the
    /// packets are numbered from the stream's next sequence number, which
    /// moves past them.
    pub open spec fn enqueue(self, bytes: Seq<u8>) -> StreamView {
        let packets = stream_packets(
            bytes,
            self.next_seq,
            PacketType::Data,
            self.remote.ip,
            self.remote.port,
        );
        StreamView {
            send_queue: self.send_queue + packets,
            next_seq: (self.next_seq + packets.len()) as u32,
            ..self
        }
    }

    /// The state after an ACK for `seq` arrived, and the number of payload
    /// bytes it acknowledges: the first queued packet with that sequence
    /// number leaves the queue.
    pub open spec fn acked(self, seq: u32) -> (StreamView, nat) {
        match find_seq(self.send_queue, seq) {
            Some(i) => (
                StreamView { send_queue: self.send_queue.remove(i), ..self },
                self.send_queue[i].data.len(),
            ),
            None => (self, 0),
        }
    }

    /// The start of a round of a write: the write ends if nothing is queued,
    /// if its budget is used up, or if the stream is over or has failed; else
    /// the round costs one unit of budget and begins with the first queued
    /// packet.
    pub open spec fn write_round(self, op: WriteOp) -> (StreamView, WriteOp) {
        if self.send_queue.len() == 0 || op.budget == 0 {
            (self, op.end(Outcome::Count(op.written)))
        } else if self.verdict(op.written) is Some {
            (self, op.end(self.verdict(op.written).unwrap()))
        } else {
            (
                self,
                WriteOp { budget: (op.budget - 1) as usize, phase: WritePhase::Sending(0), ..op },
            )
        }
    }

    /// Goes on to the queued packet at place `i`, or to waiting for as many
    /// answers as packets are queued once every packet has been sent.
    pub open spec fn write_transmit(self, op: WriteOp, i: usize) -> (StreamView, WriteOp) {
        if i < self.send_queue.len() {
            (self, WriteOp { phase: WritePhase::Sending(i), ..op })
        } else if self.send_queue.len() == 0 || self.send_queue.len() > usize::MAX {
            self.write_round(op)
        } else {
            (self, WriteOp { phase: WritePhase::Awaiting(self.send_queue.len() as usize), ..op })
        }
    }

    /// Waits for another answer if the round allows `left` more, else starts
    /// the next round.
    pub open spec fn write_wait(self, op: WriteOp, left: usize) -> (StreamView, WriteOp) {
        if left == 0 {
            self.write_round(op)
        } else {
            (self, WriteOp { phase: WritePhase::Awaiting(left), ..op })
        }
    }

    /// Goes on after a send that the write does not depend on: the write ends
    /// if the send failed for good, else it waits for the next answer.
    pub open spec fn write_resume(self, op: WriteOp, left: usize, event: Event) -> (
        StreamView,
        WriteOp,
    ) {
        let after = self.after_send(event);
        if after.verdict(op.written) is Some {
            (after, op.end(after.verdict(op.written).unwrap()))
        } else {
            after.write_wait(op, left)
        }
    }

    /// One step of a write of `bytes`: the state and the write after
    /// `event`.
    pub open spec fn write_step(self, op: WriteOp, bytes: Seq<u8>, event: Event) -> (
        StreamView,
        WriteOp,
    ) {
        match op.phase {
            WritePhase::Idle => if self.is_closed() {
                (self, op.end(Outcome::Closed))
            } else if self.latched is Some {
                (self, op.end(Outcome::Failed(self.latched.unwrap())))
            } else {
                self.enqueue(bytes).write_round(op)
            },
            WritePhase::Sending(i) => {
                let after = self.after_send(event);
                if after.verdict(op.written) is Some {
                    (after, op.end(after.verdict(op.written).unwrap()))
                } else if i < usize::MAX {
                    after.write_transmit(op, (i + 1) as usize)
                } else {
                    after.write_round(op)
                }
            },
            WritePhase::Awaiting(left) => if left == 0 {
                self.write_round(op)
            } else {
                match event {
                    Event::Received { datagram, from } => match spec_decode(datagram@) {
                        None => self.write_wait(op, less_one(left)),
                        Some(p) => match p.ptyp {
                            PacketType::Ack => self.acked(p.nseq).0.write_wait(
                                WriteOp {
                                    written: capped_sum(op.written, self.acked(p.nseq).1),
                                    ..op
                                },
                                less_one(left),
                            ),
                            PacketType::Data => (
                                self.buffer_data(p.nseq, p.data),
                                WriteOp { phase: WritePhase::Acking(less_one(left)), ..op },
                            ),
                            PacketType::SynAck => if self.handshake_ack is Some {
                                (
                                    self,
                                    WriteOp {
                                        phase: WritePhase::Resending(less_one(left)),
                                        ..op
                                    },
                                )
                            } else {
                                self.write_wait(op, less_one(left))
                            },
                            _ => self.write_wait(op, less_one(left)),
                        },
                    },
                    Event::ReceiveFailed(f) => match f.kind {
                        IoErrorKind::TimedOut => self.write_round(op),
                        IoErrorKind::Interrupted => self.write_wait(op, less_one(left)),
                        IoErrorKind::WouldBlock => if op.budget <= 1 {
                            (self, WriteOp { budget: 0, ..op }.end(Outcome::Count(op.written)))
                        } else {
                            (
                                self,
                                WriteOp {
                                    budget: (op.budget - 1) as usize,
                                    phase: WritePhase::Pausing(less_one(left)),
                                    ..op
                                },
                            )
                        },
                        IoErrorKind::Other => (
                            self.latch(f),
                            op.end(self.latch(f).verdict(op.written).unwrap()),
                        ),
                    },
                    _ => self.write_wait(op, less_one(left)),
                }
            },
            WritePhase::Acking(left) => self.write_resume(op, left, event),
            WritePhase::Resending(left) => self.write_resume(op, left, event),
            WritePhase::Pausing(left) => self.write_wait(op, left),
            WritePhase::Finished(_) => (self, op),
        }
    }

    /// Whether `r` is what a write asks for after a step that took `event`
    /// and led to the state `self` and the write `op`.
    pub open spec fn write_asks(
        self,
        op: WriteOp,
        event: Event,
        r: Step<Result<usize, TransportError>>,
    ) -> bool {
        match op.phase {
            WritePhase::Idle => false,
            WritePhase::Sending(i) => i < self.send_queue.len() && is_send(
                r,
                spec_encode(self.send_queue[i as int]),
                self.dest(),
                TIMEOUT,
            ),
            WritePhase::Awaiting(_) => is_receive(r, TIMEOUT),
            WritePhase::Acking(_) => event matches Event::Received { datagram, from }
                && spec_decode(datagram@) matches Some(p) && is_send(
                r,
                spec_encode(control_packet(PacketType::Ack, p.nseq, self.remote)),
                self.dest(),
                TIMEOUT,
            ),
            WritePhase::Resending(_) => self.handshake_ack matches Some(a) && is_send(
                r,
                spec_encode(a),
                self.dest(),
                TIMEOUT,
            ),
            WritePhase::Pausing(_) => is_sleep(r, TIMEOUT),
            WritePhase::Finished(o) => r matches Step::Done(res) && outcome_is(res, o),
        }
    }
}

impl UdpxStream {
    /// Cuts `buf` into data packets and queues them.
    fn enqueue(&mut self, buf: &[u8])
        requires
            old(self)@.valid(),
        ensures
            final(self)@.valid(),
            final(self)@ == old(self)@.enqueue(buf@),
    {
        let stream = Packet::stream(buf).packet_type(PacketType::Data).remote(self.remote).seq(
            self.next_seq,
        );
        let ghost packets = stream.remaining();
        let mut fresh = stream.collect();
        let n = fresh.len();
        proof {
            assert(views(fresh@) =~= packets);
            assert(views(self.send_queue@ + fresh@) =~= views(self.send_queue@) + views(fresh@));
            assert forall|i: int| 0 <= i < fresh@.len() implies (
            #[trigger] fresh@[i])@.well_formed() by {
                assert(fresh@[i]@ == packets[i]);
            }
        }
        self.send_queue.append(&mut fresh);
        self.next_seq = self.next_seq + (n as u32);
    }

    /// Takes the first packet with sequence number `seq` out of the queue
    /// and says how many payload bytes it carried.
    fn acknowledge(&mut self, seq: u32) -> (n: usize)
        requires
            old(self)@.valid(),
        ensures
            final(self)@.valid(),
            final(self)@ == old(self)@.acked(seq).0,
            n == old(self)@.acked(seq).1,
    {
        let mut i: usize = 0;
        while i < self.send_queue.len()
            invariant
                i <= self.send_queue@.len(),
                *self == *old(self),
                self@.valid(),
                forall|j: int| 0 <= j < i ==> self@.send_queue[j].nseq != seq,
            decreases self.send_queue@.len() - i,
        {
            if self.send_queue[i].nseq == seq {
                let p = self.send_queue.remove(i);
                proof {
                    lemma_find_seq(old(self)@.send_queue, seq);
                    assert(old(self)@.send_queue[i as int] == p@);
                    assert(old(self)@.send_queue[i as int].nseq == seq);
                    assert(find_seq(old(self)@.send_queue, seq) == Some(i as int));
                    assert(views(self.send_queue@) =~= old(self)@.send_queue.remove(i as int));
                    let before = old(self)@.send_queue;
                    let after = before.remove(i as int);
                    assert forall|j: int| 0 <= j < after.len() implies #[trigger] after[j]
                        == before[if j < i {
                        j
                    } else {
                        j + 1
                    }] by {}
                    assert(self@.recv_buffer == old(self)@.recv_buffer);
                    assert(self@.next_expected == old(self)@.next_expected);
                    assert(self@.send_queue == after);
                    assert(self@.valid());
                }
                return p.data.len();
            }
            i += 1;
        }
        proof {
            lemma_find_seq(self@.send_queue, seq);
        }
        0
    }

    fn write_end(&mut self, op: &mut WriteOp, o: Outcome) -> (r: Step<
        Result<usize, TransportError>,
    >)
        ensures
            *final(self) == *old(self),
            *final(op) == old(op).end(o),
            r matches Step::Done(res) && outcome_is(res, o),
    {
        op.phase = WritePhase::Finished(o);
        Step::Done(outcome_result(o))
    }

    fn write_round(&mut self, op: &mut WriteOp) -> (r: Step<Result<usize, TransportError>>)
        requires
            old(self)@.valid(),
        ensures
            final(self)@.valid(),
            final(self)@ == old(self)@.write_round(*old(op)).0,
            *final(op) == old(self)@.write_round(*old(op)).1,
            final(self)@.write_asks(*final(op), Event::Start, r),
            !(final(op).phase is Acking),
            !(r is Done) ==> final(op).budget < old(op).budget,
    {
        if self.send_queue.len() == 0 || op.budget == 0 {
            return self.write_end(op, Outcome::Count(op.written));
        }
        match self.maybe_registered_err(op.written) {
            Some(o) => {
                return self.write_end(op, o);
            },
            None => {},
        }
        op.budget = op.budget - 1;
        op.phase = WritePhase::Sending(0);
        Step::Io(
            Action::Send {
                datagram: self.send_queue[0].raw(),
                to: self.dest(),
                timeout_ms: TIMEOUT,
            },
        )
    }

    fn write_transmit(&mut self, op: &mut WriteOp, i: usize) -> (r: Step<
        Result<usize, TransportError>,
    >)
        requires
            old(self)@.valid(),
        ensures
            final(self)@.valid(),
            final(self)@ == old(self)@.write_transmit(*old(op), i).0,
            *final(op) == old(self)@.write_transmit(*old(op), i).1,
            final(self)@.write_asks(*final(op), Event::Start, r),
            !(final(op).phase is Acking),
            !(r is Done) ==> final(op).budget < old(op).budget || (final(op).budget == old(
                op,
            ).budget && (final(op).phase == WritePhase::Sending(i) || final(op).phase
                == WritePhase::Awaiting(final(self)@.send_queue.len() as usize))),
    {
        let len = self.send_queue.len();
        if i < len {
            op.phase = WritePhase::Sending(i);
            Step::Io(
                Action::Send {
                    datagram: self.send_queue[i].raw(),
                    to: self.dest(),
                    timeout_ms: TIMEOUT,
                },
            )
        } else if len == 0 {
            self.write_round(op)
        } else {
            op.phase = WritePhase::Awaiting(len);
            Step::Io(Action::Receive { wait_ms: Some(TIMEOUT) })
        }
    }

    fn write_wait(&mut self, op: &mut WriteOp, left: usize) -> (r: Step<
        Result<usize, TransportError>,
    >)
        requires
            old(self)@.valid(),
        ensures
            final(self)@.valid(),
            final(self)@ == old(self)@.write_wait(*old(op), left).0,
            *final(op) == old(self)@.write_wait(*old(op), left).1,
            final(self)@.write_asks(*final(op), Event::Start, r),
            !(final(op).phase is Acking),
            !(r is Done) ==> final(op).budget < old(op).budget || (final(op).budget == old(
                op,
            ).budget && final(op).phase == WritePhase::Awaiting(left) && left > 0),
    {
        if left == 0 {
            self.write_round(op)
        } else {
            op.phase = WritePhase::Awaiting(left);
            Step::Io(Action::Receive { wait_ms: Some(TIMEOUT) })
        }
    }

    fn write_resume(&mut self, op: &mut WriteOp, left: usize, event: &Event) -> (r: Step<
        Result<usize, TransportError>,
    >)
        requires
            old(self)@.valid(),
        ensures
            final(self)@.valid(),
            final(self)@ == old(self)@.write_resume(*old(op), left, *event).0,
            *final(op) == old(self)@.write_resume(*old(op), left, *event).1,
            final(self)@.write_asks(*final(op), Event::Start, r),
            !(final(op).phase is Acking),
            !(r is Done) ==> final(op).budget < old(op).budget || (final(op).budget == old(
                op,
            ).budget && final(op).phase == WritePhase::Awaiting(left) && left > 0),
    {
        self.after_send(event);
        match self.maybe_registered_err(op.written) {
            Some(o) => self.write_end(op, o),
            None => self.write_wait(op, left),
        }
    }

    /// One step of writing `buf`.
    ///
    /// The first step refuses a stream that is over or has failed; else it
    /// cuts `buf` into data packets with consecutive sequence numbers and
    /// queues them. Then rounds follow, each at the cost of one unit of
    /// budget: every queued packet is sent, oldest first, and as many answers
    /// are waited for as packets are queued. An ACK takes the packet it names
    /// out of the queue and adds its payload to the bytes written. A data
    /// packet is acknowledged, and its payload is kept under its sequence
    /// number unless one is held there already. A SYN-ACK means that
    /// the other side missed the ACK of the handshake, which is sent again.
    /// Anything else is passed over. A send or a wait that times out, is
    /// interrupted or would block does no harm; a socket that would block
    /// costs one unit of budget and a pause. A failure that no retry cures is
    /// kept on the stream and ends the write: with the bytes written so far,
    /// or with the failure if there are none. The write ends with the bytes
    /// written once the queue is empty or the budget used up.
    pub fn write(&mut self, op: &mut WriteOp, buf: &[u8], event: Event) -> (r: Step<
        Result<usize, TransportError>,
    >)
        requires
            old(self)@.valid(),
            !(old(op).phase is Finished),
        ensures
            final(self)@.valid(),
            final(self)@ == old(self)@.write_step(*old(op), buf@, event).0,
            *final(op) == old(self)@.write_step(*old(op), buf@, event).1,
            final(self)@.write_asks(*final(op), event, r),
            !(r is Done) ==> final(op).nearer(
                final(self)@.send_queue.len(),
                *old(op),
                old(self)@.send_queue.len(),
            ),
    {
        match op.phase {
            WritePhase::Idle => {
                if self.is_closed() {
                    return self.write_end(op, Outcome::Closed);
                }
                match self.latched {
                    Some(f) => {
                        return self.write_end(op, Outcome::Failed(f));
                    },
                    None => {},
                }
                self.enqueue(buf);
                self.write_round(op)
            },
            WritePhase::Sending(i) => {
                self.after_send(&event);
                match self.maybe_registered_err(op.written) {
                    Some(o) => self.write_end(op, o),
                    None => {
                        if i < usize::MAX {
                            self.write_transmit(op, i + 1)
                        } else {
                            self.write_round(op)
                        }
                    },
                }
            },
            WritePhase::Awaiting(left) => {
                if left == 0 {
                    return self.write_round(op);
                }
                let fewer = left - 1;
                match event {
                    Event::Received { datagram, from } => {
                        match Packet::try_from(datagram.as_slice()) {
                            Err(_) => self.write_wait(op, fewer),
                            Ok(p) => match p.ptyp {
                                PacketType::Ack => {
                                    let n = self.acknowledge(p.nseq);
                                    op.written = if n <= usize::MAX - op.written {
                                        op.written + n
                                    } else {
                                        usize::MAX
                                    };
                                    self.write_wait(op, fewer)
                                },
                                PacketType::Data => {
                                    let ack = control_datagram(
                                        PacketType::Ack,
                                        p.nseq,
                                        self.remote,
                                    );
                                    self.buffer_data(p.nseq, p.data);
                                    op.phase = WritePhase::Acking(fewer);
                                    Step::Io(
                                        Action::Send {
                                            datagram: ack,
                                            to: self.dest(),
                                            timeout_ms: TIMEOUT,
                                        },
                                    )
                                },
                                PacketType::SynAck => {
                                    let again = match &self.handshake_ack {
                                        Some(a) => Some(a.raw()),
                                        None => None,
                                    };
                                    match again {
                                        Some(datagram) => {
                                            op.phase = WritePhase::Resending(fewer);
                                            Step::Io(
                                                Action::Send {
                                                    datagram,
                                                    to: self.dest(),
                                                    timeout_ms: TIMEOUT,
                                                },
                                            )
                                        },
                                        None => self.write_wait(op, fewer),
                                    }
                                },
                                _ => self.write_wait(op, fewer),
                            },
                        }
                    },
                    Event::ReceiveFailed(f) => match f.kind {
                        IoErrorKind::TimedOut => self.write_round(op),
                        IoErrorKind::Interrupted => self.write_wait(op, fewer),
                        IoErrorKind::WouldBlock => {
                            if op.budget <= 1 {
                                op.budget = 0;
                                self.write_end(op, Outcome::Count(op.written))
                            } else {
                                op.budget = op.budget - 1;
                                op.phase = WritePhase::Pausing(fewer);
                                Step::Io(Action::Sleep { ms: TIMEOUT })
                            }
                        },
                        IoErrorKind::Other => {
                            self.latched = Some(f);
                            match self.maybe_registered_err(op.written) {
                                Some(o) => self.write_end(op, o),
                                None => self.write_end(op, Outcome::Failed(f)),
                            }
                        },
                    },
                    _ => self.write_wait(op, fewer),
                }
            },
            WritePhase::Acking(left) => self.write_resume(op, left, &event),
            WritePhase::Resending(left) => self.write_resume(op, left, &event),
            WritePhase::Pausing(left) => self.write_wait(op, left),
            WritePhase::Finished(o) => Step::Done(outcome_result(o)),
        }
    }
}

/// Where a shutdown stands.
#[derive(Debug, Clone, Copy, PartialEq, Eq, Structural)]
pub enum ClosePhase {
    /// Not begun.
    Idle,
    /// A FIN is on its way to the socket; so many more may follow.
    Sending(usize),
    /// Waiting for the answer to a FIN; so many more FINs may follow.
    Awaiting(usize),
    /// Over.
    Finished,
}

/// One call of `shutdown`.
#[derive(Debug, Clone, Copy, PartialEq, Eq, Structural)]
pub struct ShutdownOp {
    pub phase: ClosePhase,
}

impl ShutdownOp {
    /// A bound on the steps that are left of this shutdown: every step that
    /// does not end the shutdown lowers it.
    pub open spec fn fuel(self) -> nat {
        match self.phase {
            ClosePhase::Idle => (2 * FIN_ATTEMPTS + 2) as nat,
            ClosePhase::Sending(left) => (2 * left + 1) as nat,
            ClosePhase::Awaiting(left) => (2 * left) as nat,
            ClosePhase::Finished => 0,
        }
    }

    /// A shutdown that has not begun.
    pub fn new() -> (op: ShutdownOp)
        ensures
            op == (ShutdownOp { phase: ClosePhase::Idle }),
    {
        ShutdownOp { phase: ClosePhase::Idle }
    }
}

impl StreamView {
    /// The state of a stream that was shut down: it is closed, and it takes
    /// the point that the reader has reached for the end of what the other
    /// side sends, so that it counts as over.
    pub open spec fn shut(self) -> StreamView {
        StreamView {
            closed: true,
            last_seq: Some(
                if self.next_expected <= u32::MAX {
                    self.next_expected as u32
                } else {
                    u32::MAX
                },
            ),
            ..self
        }
    }

    /// Sends the next FIN if one more may be sent, else closes without an
    /// answer.
    pub open spec fn shutdown_attempt(self, left: usize) -> (StreamView, ShutdownOp) {
        if left == 0 {
            (self.shut(), ShutdownOp { phase: ClosePhase::Finished })
        } else {
            (self, ShutdownOp { phase: ClosePhase::Sending((left - 1) as usize) })
        }
    }

    /// One step of a shutdown: the state and the shutdown after `event`.
    pub open spec fn shutdown_step(self, op: ShutdownOp, event: Event) -> (StreamView, ShutdownOp) {
        match op.phase {
            ClosePhase::Idle => if self.cannot_read_anymore() {
                (self, ShutdownOp { phase: ClosePhase::Finished })
            } else {
                self.shutdown_attempt(FIN_ATTEMPTS)
            },
            ClosePhase::Sending(left) => match event {
                Event::SendFailed(f) => if f.kind == IoErrorKind::TimedOut {
                    self.shutdown_attempt(left)
                } else {
                    (self, ShutdownOp { phase: ClosePhase::Awaiting(left) })
                },
                _ => (self, ShutdownOp { phase: ClosePhase::Awaiting(left) }),
            },
            ClosePhase::Awaiting(left) => match event {
                Event::Received { datagram, from } => match spec_decode(datagram@) {
                    Some(p) => if p.ptyp == PacketType::FinAck || p.ptyp == PacketType::Fin {
                        (self.shut(), ShutdownOp { phase: ClosePhase::Finished })
                    } else {
                        self.shutdown_attempt(left)
                    },
                    None => self.shutdown_attempt(left),
                },
                _ => self.shutdown_attempt(left),
            },
            ClosePhase::Finished => (self, op),
        }
    }

    /// Whether `r` is what a shutdown asks for once it has led to the state
    /// `self` and the shutdown `op`.
    pub open spec fn shutdown_asks(
        self,
        op: ShutdownOp,
        r: Step<Result<(), TransportError>>,
    ) -> bool {
        match op.phase {
            ClosePhase::Idle => false,
            ClosePhase::Sending(_) => is_send(
                r,
                spec_encode(control_packet(PacketType::Fin, self.parting(), self.remote)),
                self.dest(),
                TIMEOUT,
            ),
            ClosePhase::Awaiting(_) => is_receive(r, TIMEOUT),
            ClosePhase::Finished => r matches Step::Done(res) && res is Ok,
        }
    }
}

impl UdpxStream {
    fn shut(&mut self)
        requires
            old(self)@.valid(),
        ensures
            final(self)@.valid(),
            final(self)@ == old(self)@.shut(),
    {
        self.closed = true;
        self.last_seq = Some(
            if self.next_expected <= u32::MAX as u64 {
                self.next_expected as u32
            } else {
                u32::MAX
            },
        );
    }

    fn shutdown_attempt(&mut self, op: &mut ShutdownOp, left: usize) -> (r: Step<
        Result<(), TransportError>,
    >)
        requires
            old(self)@.valid(),
        ensures
            final(self)@.valid(),
            final(self)@ == old(self)@.shutdown_attempt(left).0,
            *final(op) == old(self)@.shutdown_attempt(left).1,
            final(self)@.shutdown_asks(*final(op), r),
            !(r is Done) ==> left > 0 && final(op).phase == ClosePhase::Sending(
                (left - 1) as usize,
            ),
    {
        if left == 0 {
            self.shut();
            op.phase = ClosePhase::Finished;
            Step::Done(Ok(()))
        } else {
            op.phase = ClosePhase::Sending(left - 1);
            Step::Io(
                Action::Send {
                    datagram: control_datagram(PacketType::Fin, self.next_seq, self.remote),
                    to: self.dest(),
                    timeout_ms: TIMEOUT,
                },
            )
        }
    }

    /// One step of closing the stream.
    ///
    /// A stream that is over or has failed is left as it is. Else a FIN with
    /// the stream's next sequence number is sent, up to 30 times, until a
    /// FIN-ACK or a FIN comes back; a send that times out is not waited
    /// for. With or without an answer the stream is over in the end, and the
    /// result is `Ok`.
    pub fn shutdown(&mut self, op: &mut ShutdownOp, event: Event) -> (r: Step<
        Result<(), TransportError>,
    >)
        requires
            old(self)@.valid(),
            old(op).phase != ClosePhase::Finished,
        ensures
            final(self)@.valid(),
            final(self)@ == old(self)@.shutdown_step(*old(op), event).0,
            *final(op) == old(self)@.shutdown_step(*old(op), event).1,
            final(self)@.shutdown_asks(*final(op), r),
            final(op).phase == ClosePhase::Finished ==> final(self)@.cannot_read_anymore(),
            !(r is Done) ==> final(op).fuel() < old(op).fuel(),
    {
        match op.phase {
            ClosePhase::Idle => {
                if self.cannot_read_anymore() {
                    op.phase = ClosePhase::Finished;
                    Step::Done(Ok(()))
                } else {
                    self.shutdown_attempt(op, FIN_ATTEMPTS)
                }
            },
            ClosePhase::Sending(left) => {
                let timed_out = match event {
                    Event::SendFailed(f) => match f.kind {
                        IoErrorKind::TimedOut => true,
                        _ => false,
                    },
                    _ => false,
                };
                if timed_out {
                    self.shutdown_attempt(op, left)
                } else {
                    op.phase = ClosePhase::Awaiting(left);
                    Step::Io(Action::Receive { wait_ms: Some(TIMEOUT) })
                }
            },
            ClosePhase::Awaiting(left) => {
                let answered = match event {
                    Event::Received { datagram, from } => match Packet::try_from(
                        datagram.as_slice(),
                    ) {
                        Ok(p) => match p.ptyp {
                            PacketType::FinAck | PacketType::Fin => true,
                            _ => false,
                        },
                        Err(_) => false,
                    },
                    _ => false,
                };
                if answered {
                    self.shut();
                    op.phase = ClosePhase::Finished;
                    Step::Done(Ok(()))
                } else {
                    self.shutdown_attempt(op, left)
                }
            },
            ClosePhase::Finished => Step::Done(Ok(())),
        }
    }
}

/// Closing is idempotent: a stream that was shut down counts as over, and a
/// shutdown of a stream that is over or has failed ends at once and changes
/// nothing, whatever the socket reports. So any number of shutdowns leaves
/// the stream as the first one left it.
pub proof fn lemma_shutdown_idempotent(s: StreamView, event: Event)
    ensures
        s.shut().cannot_read_anymore(),
        s.cannot_read_anymore() ==> s.shutdown_step(ShutdownOp { phase: ClosePhase::Idle }, event)
            == (s, ShutdownOp { phase: ClosePhase::Finished }),
        s.shut().shutdown_step(ShutdownOp { phase: ClosePhase::Idle }, event) == (
            s.shut(),
            ShutdownOp { phase: ClosePhase::Finished },
        ),
{
}

/// Every step that ends a shutdown leaves a stream that is over or has
/// failed, on which the next shutdown does nothing.
pub proof fn lemma_shutdown_closes(s: StreamView, op: ShutdownOp, event: Event)
    requires
        op.phase != ClosePhase::Finished,
        s.shutdown_step(op, event).1.phase == ClosePhase::Finished,
    ensures
        s.shutdown_step(op, event).0.cannot_read_anymore(),
        s.shutdown_step(op, event).0.shutdown_step(ShutdownOp { phase: ClosePhase::Idle }, event)
            == (s.shutdown_step(op, event).0, ShutdownOp { phase: ClosePhase::Finished }),
{
}

/// One call of `do_flush`: how many copies of the FLUSH are still to send.
#[derive(Debug, Clone, Copy, PartialEq, Eq, Structural)]
pub struct FlushOp {
    pub copies_left: usize,
    pub finished: bool,
}

impl FlushOp {
    /// A flush that has not begun.
    pub fn new() -> (op: FlushOp)
        ensures
            op == (FlushOp { copies_left: CONTROL_COPIES, finished: false }),
    {
        FlushOp { copies_left: CONTROL_COPIES, finished: false }
    }
}

impl StreamView {
    /// A flush after one more step.
    pub open spec fn flush_step(op: FlushOp) -> FlushOp {
        if op.copies_left > 0 {
            FlushOp { copies_left: (op.copies_left - 1) as usize, finished: false }
        } else {
            FlushOp { copies_left: 0, finished: true }
        }
    }
}

impl UdpxStream {
    /// One step of telling the other side that no more data follows for now.
    ///
    /// A FLUSH with the stream's next sequence number is sent 100 times,
    /// whatever becomes of each copy; then the flush ends with `Ok`. The
    /// stream itself does not change.
    pub fn do_flush(&self, op: &mut FlushOp, event: Event) -> (r: Step<Result<(), TransportError>>)
        requires
            !old(op).finished,
        ensures
            *final(op) == StreamView::flush_step(*old(op)),
            if old(op).copies_left > 0 {
                is_send(
                    r,
                    spec_encode(control_packet(PacketType::Flush, self@.parting(), self@.remote)),
                    self@.dest(),
                    FLUSH_TIMEOUT,
                )
            } else {
                r matches Step::Done(res) && res is Ok
            },
    {
        if op.copies_left > 0 {
            op.copies_left = op.copies_left - 1;
            Step::Io(
                Action::Send {
                    datagram: control_datagram(PacketType::Flush, self.next_seq, self.remote),
                    to: self.dest(),
                    timeout_ms: FLUSH_TIMEOUT,
                },
            )
        } else {
            op.finished = true;
            Step::Done(Ok(()))
        }
    }
}

} // verus!
