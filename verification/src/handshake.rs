//! The client's side of the three-way handshake.
//!
//! The client sends a SYN with sequence number 0 that carries its own
//! address, waits for the SYN-ACK, learns from its payload where the server
//! will talk from, and answers with an ACK. From then on the client's data
//! starts at sequence number 3 and the server's at 4.

use crate::packet::{spec_encode, Packet, PacketType, PacketView};
use crate::stream::{control_packet, is_send, StreamView, UdpxStream};
use crate::transport::{
    error_is, io_is, serialize_addr, spec_serialize_addr, Action, Endpoint, Event, ReliableSend,
    ReliableSendView, SendPhase, Step, TransportError, Verdict, DEFAULT_TIMEOUT,
    HANDSHAKE_MAX_ATTEMPTS,
};
use vstd::prelude::*;

verus! {

/// The sequence number of the client's SYN.
pub const SYN_SEQ: u32 = 0;

/// The sequence number of the first data packet that the side which sent a
/// SYN with the number `syn_seq` sends.
pub open spec fn client_first_seq(syn_seq: u32) -> int {
    syn_seq + 3
}

/// The sequence number of the first data packet that the side which accepted
/// a SYN with the number `syn_seq` sends.
pub open spec fn server_first_seq(syn_seq: u32) -> int {
    syn_seq + 4
}

/// The sequence number after `n`, starting over after the largest.
pub open spec fn following(n: u32) -> u32 {
    if n == u32::MAX {
        0
    } else {
        (n + 1) as u32
    }
}

/// The SYN that a client at `local` sends to `server`.
pub open spec fn syn_packet(local: Endpoint, server: Endpoint) -> PacketView {
    PacketView {
        ptyp: PacketType::Syn,
        nseq: SYN_SEQ,
        peer: server.ip,
        port: server.port,
        data: spec_serialize_addr(local),
    }
}

/// Where the client's handshake stands.
#[derive(Debug, Clone, Copy, PartialEq, Eq, Structural)]
pub enum ConnectPhase {
    /// The SYN is being sent until the SYN-ACK arrives.
    Exchanging,
    /// The socket is being connected to where the server talks from.
    Connecting,
    /// The ACK is on its way to the socket.
    Acking,
    /// Over.
    Finished,
}

/// The client's side of a handshake in progress.
#[derive(Debug)]
pub struct ClientHandshake {
    local: Endpoint,
    server: Endpoint,
    proxy: Option<Endpoint>,
    exchange: ReliableSend,
    phase: ConnectPhase,
    answer_seq: u32,
    remote: Endpoint,
}

/// A client's handshake as a mathematical value.
pub struct ClientHandshakeView {
    /// The client's own socket address.
    pub local: Endpoint,
    /// The listener's address.
    pub server: Endpoint,
    /// The router that every datagram goes through, if there is one.
    pub proxy: Option<Endpoint>,
    /// The sending of the SYN.
    pub exchange: ReliableSendView,
    pub phase: ConnectPhase,
    /// The sequence number of the SYN-ACK, once it has arrived.
    pub answer_seq: u32,
    /// Where the server talks from, once the SYN-ACK has told.
    pub remote: Endpoint,
}

impl View for ClientHandshake {
    type V = ClientHandshakeView;

    closed spec fn view(&self) -> ClientHandshakeView {
        ClientHandshakeView {
            local: self.local,
            server: self.server,
            proxy: self.proxy,
            exchange: self.exchange@,
            phase: self.phase,
            answer_seq: self.answer_seq,
            remote: self.remote,
        }
    }
}

impl ClientHandshakeView {
    /// A bound on the steps that are left of this handshake: every step that
    /// does not end the handshake lowers it.
    pub open spec fn fuel(self) -> nat {
        match self.phase {
            ConnectPhase::Exchanging => self.exchange.fuel() + 3,
            ConnectPhase::Connecting => 2,
            ConnectPhase::Acking => 1,
            ConnectPhase::Finished => 0,
        }
    }

    /// Where the client's datagrams go once it knows the server's address.
    pub open spec fn dest(self) -> Endpoint {
        match self.proxy {
            Some(p) => p,
            None => self.remote,
        }
    }

    /// The ACK that completes the handshake.
    pub open spec fn ack(self) -> PacketView {
        control_packet(PacketType::Ack, following(self.answer_seq), self.remote)
    }

    /// The stream that a completed handshake leaves.
    pub open spec fn stream(self) -> StreamView {
        StreamView::fresh(
            self.local,
            client_first_seq(SYN_SEQ) as u32,
            server_first_seq(SYN_SEQ) as u32,
            self.proxy,
            self.remote,
            Some(self.ack()),
        )
    }

    /// The handshake after `event`.
    pub open spec fn next(self, event: Event) -> ClientHandshakeView {
        match self.phase {
            ConnectPhase::Exchanging => {
                let exchange = self.exchange.next(event);
                if exchange.phase != SendPhase::Finished {
                    ClientHandshakeView { exchange, ..self }
                } else {
                    match self.exchange.verdict(event) {
                        Verdict::Answer(p, e) => ClientHandshakeView {
                            exchange,
                            phase: ConnectPhase::Connecting,
                            answer_seq: p.nseq,
                            remote: e,
                            ..self
                        },
                        _ => ClientHandshakeView {
                            exchange,
                            phase: ConnectPhase::Finished,
                            ..self
                        },
                    }
                }
            },
            ConnectPhase::Connecting => match event {
                Event::ConnectFailed(_) => ClientHandshakeView {
                    phase: ConnectPhase::Finished,
                    ..self
                },
                _ => ClientHandshakeView { phase: ConnectPhase::Acking, ..self },
            },
            ConnectPhase::Acking => ClientHandshakeView { phase: ConnectPhase::Finished, ..self },
            ConnectPhase::Finished => self,
        }
    }

    /// Whether `r` is how the handshake, in the state `self`, ends on
    /// `event`.
    pub open spec fn ends_with(self, event: Event, r: Result<UdpxStream, TransportError>) -> bool {
        match self.phase {
            ConnectPhase::Exchanging => r matches Err(e) && error_is(
                e,
                self.exchange.verdict(event),
            ),
            ConnectPhase::Connecting => r matches Err(TransportError::Io(g)) && event
                == Event::ConnectFailed(g),
            ConnectPhase::Acking => match event {
                Event::SendFailed(f) => r matches Err(TransportError::Io(g)) && g == f,
                _ => r matches Ok(s) && s@.valid() && s@ == self.stream(),
            },
            ConnectPhase::Finished => false,
        }
    }

    /// Whether `r` is what the handshake asks for after a step that took
    /// `event` from the state `before` to the state `self`.
    pub open spec fn asks(
        self,
        before: ClientHandshakeView,
        event: Event,
        r: Step<Result<UdpxStream, TransportError>>,
    ) -> bool {
        match self.phase {
            ConnectPhase::Exchanging => io_is(r, self.exchange),
            ConnectPhase::Connecting => r matches Step::Io(Action::Connect { to }) && to
                == self.dest(),
            ConnectPhase::Acking => is_send(
                r,
                spec_encode(self.ack()),
                self.dest(),
                self.exchange.timeout_ms,
            ),
            ConnectPhase::Finished => r matches Step::Done(res) && before.ends_with(event, res),
        }
    }
}

impl ClientHandshake {
    /// Whether the handshake is over.
    pub fn finished(&self) -> (r: bool)
        ensures
            r == (self@.phase == ConnectPhase::Finished),
    {
        self.phase == ConnectPhase::Finished
    }

    /// One step of the handshake.
    ///
    /// The SYN is sent until a SYN-ACK arrives; a would-block on the way is
    /// waited for, an answer from any source counts. The payload of the
    /// SYN-ACK names the endpoint that the server talks from. The socket is
    /// connected to the router, if there is one, else to that endpoint, and
    /// the ACK, one past the SYN-ACK in sequence, is sent once. The stream
    /// that results sends its data from sequence number 3, reads from 4, and
    /// keeps the ACK in case the server asks again. The handshake fails when
    /// the SYN finds no answer, and when the socket fails on connecting or
    /// on sending the ACK.
    pub fn handshake(&mut self, event: Event) -> (r: Step<Result<UdpxStream, TransportError>>)
        requires
            old(self)@.phase != ConnectPhase::Finished,
            old(self)@.phase == ConnectPhase::Exchanging ==> old(self)@.exchange.phase
                != SendPhase::Finished,
        ensures
            final(self)@ == old(self)@.next(event),
            final(self)@.asks(old(self)@, event, r),
            final(self)@.phase == ConnectPhase::Exchanging ==> final(self)@.exchange.phase
                != SendPhase::Finished,
            !(r is Done) ==> final(self)@.fuel() < old(self)@.fuel(),
    {
        match self.phase {
            ConnectPhase::Exchanging => {
                match self.exchange.step(event) {
                    Step::Io(a) => Step::Io(a),
                    Step::Done(Ok((syn_ack, remote))) => {
                        self.answer_seq = syn_ack.nseq;
                        self.remote = remote;
                        self.phase = ConnectPhase::Connecting;
                        Step::Io(
                            Action::Connect {
                                to: match self.proxy {
                                    Some(p) => p,
                                    None => remote,
                                },
                            },
                        )
                    },
                    Step::Done(Err(e)) => {
                        self.phase = ConnectPhase::Finished;
                        Step::Done(Err(e))
                    },
                }
            },
            ConnectPhase::Connecting => match event {
                Event::ConnectFailed(f) => {
                    self.phase = ConnectPhase::Finished;
                    Step::Done(Err(TransportError::Io(f)))
                },
                _ => {
                    self.phase = ConnectPhase::Acking;
                    Step::Io(
                        Action::Send {
                            datagram: self.ack().raw(),
                            to: match self.proxy {
                                Some(p) => p,
                                None => self.remote,
                            },
                            timeout_ms: self.exchange.timeout_ms(),
                        },
                    )
                },
            },
            ConnectPhase::Acking => {
                self.phase = ConnectPhase::Finished;
                match event {
                    Event::SendFailed(f) => Step::Done(Err(TransportError::Io(f))),
                    _ => Step::Done(
                        Ok(
                            UdpxStream::new(
                                self.local,
                                3,
                                4,
                                self.proxy,
                                self.remote,
                                Some(self.ack()),
                            ),
                        ),
                    ),
                }
            },
            ConnectPhase::Finished => Step::Done(Err(TransportError::Closed)),
        }
    }

    fn ack(&self) -> (p: Packet)
        ensures
            p@ == self@.ack(),
    {
        Packet {
            ptyp: PacketType::Ack,
            nseq: if self.answer_seq == u32::MAX {
                0
            } else {
                self.answer_seq + 1
            },
            peer: self.remote.ip,
            port: self.remote.port,
            data: Vec::new(),
        }
    }
}

impl UdpxStream {
    /// Begins a handshake from the socket at `local` with the listener at
    /// `addr`.
    pub fn connect(local: Endpoint, addr: Endpoint) -> (h: ClientHandshake)
        ensures
            h@ == connecting(local, addr, None),
    {
        UdpxStream::connect_with_proxy(local, addr, None)
    }

    /// Begins a handshake from the socket at `local` with the listener at
    /// `addr`, by way of the router `proxy` if one is given.
    pub fn connect_with_proxy(local: Endpoint, addr: Endpoint, proxy: Option<Endpoint>) -> (h:
        ClientHandshake)
        ensures
            h@ == connecting(local, addr, proxy),
    {
        let payload = serialize_addr(local);
        let mut data: Vec<u8> = Vec::new();
        crate::packet::extend_from(&mut data, payload.as_slice());
        let syn = Packet {
            ptyp: PacketType::Syn,
            nseq: SYN_SEQ,
            peer: addr.ip,
            port: addr.port,
            data,
        };
        assert(syn@.data =~= spec_serialize_addr(local));
        let mut accepted: Vec<PacketType> = Vec::new();
        accepted.push(PacketType::SynAck);
        assert(accepted@ =~= seq![PacketType::SynAck]);
        ClientHandshake {
            local,
            server: addr,
            proxy,
            exchange: ReliableSend::new(
                syn.raw(),
                addr,
                DEFAULT_TIMEOUT,
                accepted,
                false,
                true,
                proxy,
                HANDSHAKE_MAX_ATTEMPTS,
            ),
            phase: ConnectPhase::Exchanging,
            answer_seq: 0,
            remote: addr,
        }
    }
}

/// A handshake that has not sent anything yet.
pub open spec fn connecting(local: Endpoint, addr: Endpoint, proxy: Option<Endpoint>) ->
    ClientHandshakeView {
    ClientHandshakeView {
        local,
        server: addr,
        proxy,
        exchange: ReliableSendView {
            datagram: spec_encode(syn_packet(local, addr)),
            peer: addr,
            dest: match proxy {
                Some(p) => p,
                None => addr,
            },
            timeout_ms: DEFAULT_TIMEOUT,
            accepted: seq![PacketType::SynAck],
            tolerate_mismatch: false,
            tolerate_would_block: true,
            attempts_left: HANDSHAKE_MAX_ATTEMPTS as nat,
            blocks_left: HANDSHAKE_MAX_ATTEMPTS as nat,
            seen: Seq::empty(),
            phase: SendPhase::Idle,
        },
        phase: ConnectPhase::Exchanging,
        answer_seq: 0,
        remote: addr,
    }
}

} // verus!
