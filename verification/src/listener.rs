//! The listening side: it takes in SYNs at a well-known socket, turns away a
//! SYN that it accepted less than two seconds ago, and completes each
//! handshake on a fresh socket that then belongs to the new stream.

use crate::handshake::{client_first_seq, server_first_seq};
use crate::packet::{spec_decode, spec_encode, Packet, PacketType, PacketView};
use crate::stream::{views, StreamView, UdpxStream};
use crate::transport::{
    deserialize_addr, error_is, io_is, serialize_addr, spec_deserialize_addr,
    spec_serialize_addr, Action, Endpoint, Event, IoErrorKind, IoFailure, ReliableSend,
    ReliableSendView, SendPhase, Step, TransportError, Verdict, ADDR_SIZE, DEFAULT_TIMEOUT,
    HANDSHAKE_MAX_ATTEMPTS,
};
use vstd::prelude::*;

verus! {

/// For how long an accepted SYN is turned away when it comes again, in
/// milliseconds.
pub const SYN_WINDOW: u64 = 2000;

/// A SYN that was accepted, and when.
#[derive(Debug)]
pub struct SynRecord {
    packet: Packet,
    at: u64,
}

/// An accepted SYN and the time of its acceptance, in milliseconds.
pub struct SynStamp {
    pub packet: PacketView,
    pub at: u64,
}

impl View for SynRecord {
    type V = SynStamp;

    closed spec fn view(&self) -> SynStamp {
        SynStamp { packet: self.packet@, at: self.at }
    }
}

/// The stamps of a list of records.
pub open spec fn stamps(records: Seq<SynRecord>) -> Seq<SynStamp> {
    records.map_values(|r: SynRecord| r@)
}

/// The place of the record of the SYN `p` in `recent`.
pub open spec fn find_syn(recent: Seq<SynStamp>, p: PacketView) -> Option<int>
    decreases recent.len(),
{
    if recent.len() == 0 {
        None
    } else if recent[0].packet == p {
        Some(0)
    } else {
        match find_syn(recent.skip(1), p) {
            Some(i) => Some(i + 1),
            None => None,
        }
    }
}

/// `find_syn` finds the first record of the SYN, and finds nothing only
/// where there is none.
pub proof fn lemma_find_syn(recent: Seq<SynStamp>, p: PacketView)
    ensures
        match find_syn(recent, p) {
            Some(i) => 0 <= i < recent.len() && recent[i].packet == p && forall|j: int|
                0 <= j < i ==> recent[j].packet != p,
            None => forall|j: int| 0 <= j < recent.len() ==> recent[j].packet != p,
        },
    decreases recent.len(),
{
    if recent.len() > 0 && recent[0].packet != p {
        let rest = recent.skip(1);
        lemma_find_syn(rest, p);
        match find_syn(rest, p) {
            Some(i) => {
                assert(rest[i] == recent[i + 1]);
                assert forall|j: int| 0 <= j < i + 1 implies recent[j].packet != p by {
                    if j > 0 {
                        assert(rest[j - 1] == recent[j]);
                    }
                }
            },
            None => {
                assert forall|j: int| 0 <= j < recent.len() implies recent[j].packet != p by {
                    if j > 0 {
                        assert(rest[j - 1] == recent[j]);
                    }
                }
            },
        }
    }
}

/// When the SYN `p` was last accepted, if it ever was.
pub open spec fn stamp(recent: Seq<SynStamp>, p: PacketView) -> Option<u64> {
    match find_syn(recent, p) {
        Some(i) => Some(recent[i].at),
        None => None,
    }
}

/// The time from `then` to `now`, and none if the clock went backwards.
pub open spec fn elapsed(then: u64, now: u64) -> u64 {
    if now >= then {
        (now - then) as u64
    } else {
        0
    }
}

/// Whether the SYN `p` is accepted at the time `now`: not if the same SYN
/// was accepted less than two seconds before.
pub open spec fn welcomes(recent: Seq<SynStamp>, p: PacketView, now: u64) -> bool {
    match stamp(recent, p) {
        Some(then) => elapsed(then, now) >= SYN_WINDOW,
        None => true,
    }
}

/// The records after the SYN `p` came at the time `now`: an accepted SYN is
/// recorded with its time, in place of its older record if it has one; a SYN
/// that is turned away leaves no trace.
pub open spec fn after_syn(recent: Seq<SynStamp>, p: PacketView, now: u64) -> Seq<SynStamp> {
    if !welcomes(recent, p, now) {
        recent
    } else {
        match find_syn(recent, p) {
            Some(i) => recent.update(i, SynStamp { packet: p, at: now }),
            None => recent.push(SynStamp { packet: p, at: now }),
        }
    }
}

/// A change to the record at the place `i`, or a new record at the end,
/// leaves the record of every other SYN where and as it was.
proof fn lemma_find_syn_stable(recent: Seq<SynStamp>, q: PacketView, now: u64, p: PacketView)
    requires
        p != q,
    ensures
        find_syn(recent.push(SynStamp { packet: q, at: now }), p) == find_syn(recent, p),
        forall|i: int|
            0 <= i < recent.len() && recent[i].packet == q ==> find_syn(
                #[trigger] recent.update(i, SynStamp { packet: q, at: now }),
                p,
            ) == find_syn(recent, p),
    decreases recent.len(),
{
    let fresh = SynStamp { packet: q, at: now };
    if recent.len() == 0 {
        let one = recent.push(fresh);
        assert(one.skip(1) =~= Seq::<SynStamp>::empty());
        assert(one[0].packet != p);
        assert(find_syn(one.skip(1), p) is None);
        assert(find_syn(one, p) is None);
    } else {
        lemma_find_syn_stable(recent.skip(1), q, now, p);
        assert(recent.push(fresh).skip(1) =~= recent.skip(1).push(fresh));
        assert(recent.push(fresh)[0] == recent[0]);
        assert forall|i: int| 0 <= i < recent.len() && recent[i].packet == q implies find_syn(
            #[trigger] recent.update(i, fresh),
            p,
        ) == find_syn(recent, p) by {
            if i == 0 {
                assert(recent.update(0, fresh).skip(1) =~= recent.skip(1));
            } else {
                assert(recent.skip(1)[i - 1] == recent[i]);
                assert(recent.update(i, fresh).skip(1) =~= recent.skip(1).update(i - 1, fresh));
            }
        }
    }
}

/// An accepted SYN is on record with the time of its acceptance.
pub proof fn lemma_welcomed_is_stamped(recent: Seq<SynStamp>, p: PacketView, now: u64)
    requires
        welcomes(recent, p, now),
    ensures
        stamp(after_syn(recent, p, now), p) == Some(now),
    decreases recent.len(),
{
    lemma_find_syn(recent, p);
    let fresh = SynStamp { packet: p, at: now };
    match find_syn(recent, p) {
        Some(i) => {
            let after = recent.update(i, fresh);
            lemma_find_syn(after, p);
            assert(after[i].packet == p);
            assert forall|j: int| 0 <= j < i implies after[j].packet != p by {
                assert(after[j] == recent[j]);
            }
        },
        None => {
            let after = recent.push(fresh);
            lemma_find_syn(after, p);
            assert(after[recent.len() as int].packet == p);
            assert forall|j: int| 0 <= j < recent.len() implies after[j].packet != p by {
                assert(after[j] == recent[j]);
            }
        },
    }
}

/// Duplicate suppression, step by step: while less than two seconds have
/// passed since the SYN `p` was accepted at the time `then`, whatever SYN
/// comes (`p` itself or another) leaves that record as it is.
pub proof fn lemma_stamp_stays(
    recent: Seq<SynStamp>,
    p: PacketView,
    then: u64,
    q: PacketView,
    now: u64,
)
    requires
        stamp(recent, p) == Some(then),
        elapsed(then, now) < SYN_WINDOW,
    ensures
        stamp(after_syn(recent, q, now), p) == Some(then),
{
    if q != p && welcomes(recent, q, now) {
        lemma_find_syn(recent, q);
        lemma_find_syn(recent, p);
        lemma_find_syn_stable(recent, q, now, p);
        match find_syn(recent, q) {
            Some(i) => {
                let after = recent.update(i, SynStamp { packet: q, at: now });
                assert(find_syn(after, p) == find_syn(recent, p));
                let k = find_syn(recent, p).unwrap();
                assert(after[k] == recent[k]);
            },
            None => {
                let after = recent.push(SynStamp { packet: q, at: now });
                let k = find_syn(recent, p).unwrap();
                assert(after[k] == recent[k]);
            },
        }
    }
}

/// Duplicate suppression: of two equal SYNs that come within two seconds of
/// each other, with nothing in between, the second is turned away if the
/// first was accepted.
pub proof fn lemma_duplicate_syn_rejected(
    recent: Seq<SynStamp>,
    p: PacketView,
    first: u64,
    second: u64,
)
    requires
        welcomes(recent, p, first),
        elapsed(first, second) < SYN_WINDOW,
    ensures
        !welcomes(after_syn(recent, p, first), p, second),
        after_syn(after_syn(recent, p, first), p, second) == after_syn(recent, p, first),
{
    lemma_welcomed_is_stamped(recent, p, first);
}

/// What every moment of a run of arrivals holds: a SYN and the time it came.
pub struct SynArrival {
    pub packet: PacketView,
    pub now: u64,
}

/// The records after a run of arrivals.
pub open spec fn after_syns(recent: Seq<SynStamp>, arrivals: Seq<SynArrival>) -> Seq<SynStamp>
    decreases arrivals.len(),
{
    if arrivals.len() == 0 {
        recent
    } else {
        after_syn(
            after_syns(recent, arrivals.drop_last()),
            arrivals.last().packet,
            arrivals.last().now,
        )
    }
}

/// Duplicate suppression, in full: once the SYN `p` has been accepted at the
/// time `first`, it is turned away at the time `second`, less than two
/// seconds later, whatever SYNs came in between (copies of `p` among them),
/// provided that each of them came less than two seconds after `first` too.
/// So equal SYNs within two seconds make one stream.
pub proof fn lemma_one_stream_per_syn(
    recent: Seq<SynStamp>,
    p: PacketView,
    first: u64,
    between: Seq<SynArrival>,
    second: u64,
)
    requires
        welcomes(recent, p, first),
        forall|i: int| 0 <= i < between.len() ==> elapsed(first, #[trigger] between[i].now)
            < SYN_WINDOW,
        elapsed(first, second) < SYN_WINDOW,
    ensures
        stamp(after_syns(after_syn(recent, p, first), between), p) == Some(first),
        !welcomes(after_syns(after_syn(recent, p, first), between), p, second),
    decreases between.len(),
{
    if between.len() == 0 {
        lemma_welcomed_is_stamped(recent, p, first);
    } else {
        let earlier = between.drop_last();
        assert forall|i: int| 0 <= i < earlier.len() implies elapsed(
            first,
            #[trigger] earlier[i].now,
        ) < SYN_WINDOW by {
            assert(earlier[i] == between[i]);
        }
        lemma_one_stream_per_syn(recent, p, first, earlier, second);
        lemma_stamp_stays(
            after_syns(after_syn(recent, p, first), earlier),
            p,
            first,
            between.last().packet,
            between.last().now,
        );
    }
}

/// The listening side of the transport.
#[derive(Debug)]
pub struct UdpxListener {
    local: Endpoint,
    timeout: u64,
    nonblocking: bool,
    proxy: Option<Endpoint>,
    recent_syns: Vec<SynRecord>,
}

/// A listener as a mathematical value.
pub struct ListenerView {
    /// The well-known address that SYNs come to.
    pub local: Endpoint,
    /// How long each leg of a handshake waits for its answer, in
    /// milliseconds.
    pub timeout: u64,
    /// Whether `accept` returns at once when no SYN is waiting.
    pub nonblocking: bool,
    /// The router that every stream of this listener sends through, if there
    /// is one.
    pub proxy: Option<Endpoint>,
    /// The SYNs that were accepted, each with the time of its last
    /// acceptance.
    pub recent: Seq<SynStamp>,
}

impl View for UdpxListener {
    type V = ListenerView;

    closed spec fn view(&self) -> ListenerView {
        ListenerView {
            local: self.local,
            timeout: self.timeout,
            nonblocking: self.nonblocking,
            proxy: self.proxy,
            recent: stamps(self.recent_syns@),
        }
    }
}

/// Why a packet cannot open a handshake, if it cannot: it is no SYN, its
/// sequence number leaves no room for what follows, or it does not say where
/// it comes from.
pub open spec fn syn_refusal(p: PacketView) -> Option<TransportError> {
    if p.ptyp != PacketType::Syn {
        Some(TransportError::NotSyn { ptyp: p.ptyp })
    } else if p.nseq > u32::MAX - 4 {
        Some(TransportError::SeqOutOfRange { seq: p.nseq })
    } else if p.data.len() < ADDR_SIZE {
        Some(TransportError::MissingAddress)
    } else {
        None
    }
}

/// Why a packet cannot open a handshake, if it cannot.
pub fn check_syn(p: &Packet) -> (r: Option<TransportError>)
    ensures
        r == syn_refusal(p@),
{
    if p.ptyp != PacketType::Syn {
        Some(TransportError::NotSyn { ptyp: p.ptyp })
    } else if p.nseq > u32::MAX - 4 {
        Some(TransportError::SeqOutOfRange { seq: p.nseq })
    } else if p.data.len() < ADDR_SIZE {
        Some(TransportError::MissingAddress)
    } else {
        None
    }
}

impl UdpxListener {
    /// A listener at `local` without a router.
    pub fn bind(local: Endpoint) -> (l: UdpxListener)
        ensures
            l@ == (ListenerView {
                local,
                timeout: DEFAULT_TIMEOUT,
                nonblocking: false,
                proxy: None,
                recent: Seq::empty(),
            }),
    {
        UdpxListener::bind_with_proxy(local, None)
    }

    /// A listener at `local` whose streams send through `proxy`, if one is
    /// given.
    pub fn bind_with_proxy(local: Endpoint, proxy: Option<Endpoint>) -> (l: UdpxListener)
        ensures
            l@ == (ListenerView {
                local,
                timeout: DEFAULT_TIMEOUT,
                nonblocking: false,
                proxy,
                recent: Seq::empty(),
            }),
    {
        let l = UdpxListener {
            local,
            timeout: DEFAULT_TIMEOUT,
            nonblocking: false,
            proxy,
            recent_syns: Vec::new(),
        };
        assert(l@.recent =~= Seq::<SynStamp>::empty());
        l
    }

    /// The same listener with another timeout for the legs of a handshake.
    pub fn with_timeout(self, timeout: u64) -> (l: UdpxListener)
        ensures
            l@ == (ListenerView { timeout, ..self@ }),
    {
        let mut l = self;
        l.timeout = timeout;
        l
    }

    /// Notes whether `accept` is to return at once when no SYN is waiting.
    pub fn set_nonblocking(&mut self, nonblocking: bool)
        ensures
            final(self)@ == (ListenerView { nonblocking, ..old(self)@ }),
    {
        self.nonblocking = nonblocking;
    }

    /// Whether `accept` returns at once when no SYN is waiting.
    pub fn nonblocking(&self) -> (b: bool)
        ensures
            b == self@.nonblocking,
    {
        self.nonblocking
    }

    /// The address that SYNs come to.
    pub fn local_addr(&self) -> (e: Endpoint)
        ensures
            e == self@.local,
    {
        self.local
    }

    /// How long each leg of a handshake waits for its answer, in
    /// milliseconds.
    pub fn timeout(&self) -> (t: u64)
        ensures
            t == self@.timeout,
    {
        self.timeout
    }

    /// Decides whether the SYN `packet`, which came at the time `now` (in
    /// milliseconds of any steady clock), opens a handshake, and records it
    /// if it does.
    pub fn take_syn(&mut self, packet: &Packet, now: u64) -> (ok: bool)
        ensures
            ok == welcomes(old(self)@.recent, packet@, now),
            final(self)@ == (ListenerView {
                recent: after_syn(old(self)@.recent, packet@, now),
                ..old(self)@
            }),
    {
        let mut i: usize = 0;
        while i < self.recent_syns.len()
            invariant
                i <= self.recent_syns@.len(),
                *self == *old(self),
                forall|j: int| 0 <= j < i ==> self@.recent[j].packet != packet@,
            decreases self.recent_syns@.len() - i,
        {
            if self.recent_syns[i].packet == *packet {
                proof {
                    lemma_find_syn(self@.recent, packet@);
                    assert(self@.recent[i as int].packet == packet@);
                    assert(find_syn(self@.recent, packet@) == Some(i as int));
                }
                let then = self.recent_syns[i].at;
                let gone = if now >= then {
                    now - then
                } else {
                    0
                };
                if gone < SYN_WINDOW {
                    return false;
                }
                self.recent_syns.set(i, SynRecord { packet: packet.clone(), at: now });
                proof {
                    assert(stamps(self.recent_syns@) =~= old(self)@.recent.update(
                        i as int,
                        SynStamp { packet: packet@, at: now },
                    ));
                }
                return true;
            }
            i += 1;
        }
        proof {
            lemma_find_syn(self@.recent, packet@);
        }
        self.recent_syns.push(SynRecord { packet: packet.clone(), at: now });
        proof {
            assert(stamps(self.recent_syns@) =~= old(self)@.recent.push(
                SynStamp { packet: packet@, at: now },
            ));
        }
        true
    }
}

/// Where an accept stands.
#[derive(Debug, Clone, Copy, PartialEq, Eq, Structural)]
pub enum AcceptPhase {
    /// Not begun.
    Idle,
    /// Waiting for a SYN at the well-known socket.
    Receiving,
    /// A fresh socket is being bound for the new stream.
    Binding,
    /// The SYN-ACK is being sent until its answer arrives.
    Exchanging,
    /// The fresh socket is being connected to where the SYN came from.
    Connecting,
    /// Over.
    Finished,
}

/// One call of `accept`.
#[derive(Debug)]
pub struct AcceptOp {
    phase: AcceptPhase,
    syn_seq: u32,
    source: Endpoint,
    remote: Endpoint,
    local: Endpoint,
    exchange: ReliableSend,
    starting: Option<Packet>,
}

/// An accept as a mathematical value.
pub struct AcceptOpView {
    pub phase: AcceptPhase,
    /// The sequence number of the SYN.
    pub syn_seq: u32,
    /// Where the datagram with the SYN came from.
    pub source: Endpoint,
    /// The client's address, as the SYN's payload gives it.
    pub remote: Endpoint,
    /// The address of the fresh socket.
    pub local: Endpoint,
    /// The sending of the SYN-ACK.
    pub exchange: ReliableSendView,
    /// The data packet that answered the SYN-ACK, if one did.
    pub starting: Option<PacketView>,
}

impl View for AcceptOp {
    type V = AcceptOpView;

    closed spec fn view(&self) -> AcceptOpView {
        AcceptOpView {
            phase: self.phase,
            syn_seq: self.syn_seq,
            source: self.source,
            remote: self.remote,
            local: self.local,
            exchange: self.exchange@,
            starting: match self.starting {
                Some(p) => Some(p@),
                None => None,
            },
        }
    }
}

/// The address that stands where none is known yet.
pub open spec fn nowhere() -> Endpoint {
    Endpoint { ip: [0u8, 0u8, 0u8, 0u8], port: 0 }
}

/// The failure that stands for an event that does not fit the action asked
/// for.
pub open spec fn out_of_turn() -> IoFailure {
    IoFailure { kind: IoErrorKind::Other, code: 0 }
}

/// The SYN-ACK that answers a SYN with the sequence number `syn_seq` from
/// the client at `remote`, and tells that the server goes on at `local`.
pub open spec fn syn_ack_packet(syn_seq: u32, remote: Endpoint, local: Endpoint) -> PacketView {
    PacketView {
        ptyp: PacketType::SynAck,
        nseq: (syn_seq + 1) as u32,
        peer: remote.ip,
        port: remote.port,
        data: spec_serialize_addr(local),
    }
}

impl AcceptOpView {
    /// A bound on the steps that are left of this accept: every step that
    /// does not end the accept lowers it.
    pub open spec fn fuel(self) -> nat {
        match self.phase {
            AcceptPhase::Idle => 1000,
            AcceptPhase::Receiving => 999,
            AcceptPhase::Binding => 998,
            AcceptPhase::Exchanging => self.exchange.fuel() + 2,
            AcceptPhase::Connecting => 1,
            AcceptPhase::Finished => 0,
        }
    }

    /// An accept that has not begun.
    pub open spec fn idle() -> AcceptOpView {
        AcceptOpView {
            phase: AcceptPhase::Idle,
            syn_seq: 0,
            source: nowhere(),
            remote: nowhere(),
            local: nowhere(),
            exchange: ReliableSendView {
                datagram: Seq::empty(),
                peer: nowhere(),
                dest: nowhere(),
                timeout_ms: 0,
                accepted: Seq::empty(),
                tolerate_mismatch: false,
                tolerate_would_block: false,
                attempts_left: 0,
                blocks_left: 0,
                seen: Seq::empty(),
                phase: SendPhase::Idle,
            },
            starting: None,
        }
    }

    /// What holds of every accept: once a SYN has been let in, its sequence
    /// number leaves room for what follows, and while the SYN-ACK is being
    /// sent, an ACK or a data packet is waited for.
    pub open spec fn wf(self) -> bool {
        &&& (self.phase == AcceptPhase::Binding || self.phase == AcceptPhase::Exchanging
            || self.phase == AcceptPhase::Connecting) ==> self.syn_seq <= u32::MAX - 4
        &&& self.phase == AcceptPhase::Exchanging ==> {
            &&& self.exchange.accepted == seq![PacketType::Ack, PacketType::Data]
            &&& self.exchange.phase != SendPhase::Finished
        }
    }

    /// This accept, over.
    pub open spec fn end(self) -> AcceptOpView {
        AcceptOpView { phase: AcceptPhase::Finished, ..self }
    }

    /// The sending of the SYN-ACK from the fresh socket at `local`, before
    /// anything is sent: it goes to the router, if there is one, else to
    /// where the SYN came from, and an ACK or a data packet from there ends
    /// it.
    pub open spec fn syn_ack_exchange(self, l: ListenerView, local: Endpoint) -> ReliableSendView {
        ReliableSendView {
            datagram: spec_encode(syn_ack_packet(self.syn_seq, self.remote, local)),
            peer: self.source,
            dest: match l.proxy {
                Some(p) => p,
                None => self.source,
            },
            timeout_ms: l.timeout,
            accepted: seq![PacketType::Ack, PacketType::Data],
            tolerate_mismatch: true,
            tolerate_would_block: false,
            attempts_left: HANDSHAKE_MAX_ATTEMPTS as nat,
            blocks_left: HANDSHAKE_MAX_ATTEMPTS as nat,
            seen: Seq::empty(),
            phase: SendPhase::Idle,
        }
    }

    /// The stream that a completed handshake leaves: it sends from four past
    /// the SYN, reads from three past it, and holds the data packet that
    /// answered the SYN-ACK, if one did.
    pub open spec fn stream(self, l: ListenerView) -> StreamView {
        let fresh = StreamView::fresh(
            self.local,
            server_first_seq(self.syn_seq) as u32,
            client_first_seq(self.syn_seq) as u32,
            l.proxy,
            self.remote,
            None,
        );
        match self.starting {
            Some(p) => fresh.with_starting_data(seq![p]),
            None => fresh,
        }
    }

    /// The listener and the accept after `event`, which came at the time
    /// `now`.
    pub open spec fn next(self, l: ListenerView, event: Event, now: u64) -> (
        ListenerView,
        AcceptOpView,
    ) {
        match self.phase {
            AcceptPhase::Idle => (l, AcceptOpView { phase: AcceptPhase::Receiving, ..self }),
            AcceptPhase::Receiving => match event {
                Event::Received { datagram, from } => match spec_decode(datagram@) {
                    Some(p) => if syn_refusal(p) is None && welcomes(l.recent, p, now) {
                        (
                            ListenerView { recent: after_syn(l.recent, p, now), ..l },
                            AcceptOpView {
                                phase: AcceptPhase::Binding,
                                syn_seq: p.nseq,
                                source: from,
                                remote: spec_deserialize_addr(p.data),
                                ..self
                            },
                        )
                    } else {
                        (l, self.end())
                    },
                    None => (l, self.end()),
                },
                _ => (l, self.end()),
            },
            AcceptPhase::Binding => match event {
                Event::Bound(local) => {
                    let exchange = self.syn_ack_exchange(l, local).next(Event::Start);
                    (
                        l,
                        AcceptOpView {
                            phase: if exchange.phase == SendPhase::Finished {
                                AcceptPhase::Finished
                            } else {
                                AcceptPhase::Exchanging
                            },
                            local,
                            exchange,
                            ..self
                        },
                    )
                },
                _ => (l, self.end()),
            },
            AcceptPhase::Exchanging => {
                let exchange = self.exchange.next(event);
                if exchange.phase != SendPhase::Finished {
                    (l, AcceptOpView { exchange, ..self })
                } else {
                    match self.exchange.verdict(event) {
                        Verdict::Answer(p, _) => if p.ptyp == PacketType::Data {
                            (
                                l,
                                AcceptOpView {
                                    exchange,
                                    phase: AcceptPhase::Connecting,
                                    starting: Some(p),
                                    ..self
                                },
                            )
                        } else if p.nseq == self.syn_seq + 2 {
                            (l, AcceptOpView { exchange, phase: AcceptPhase::Connecting, ..self })
                        } else {
                            (l, AcceptOpView { exchange, phase: AcceptPhase::Finished, ..self })
                        },
                        _ => (l, AcceptOpView { exchange, phase: AcceptPhase::Finished, ..self }),
                    }
                }
            },
            AcceptPhase::Connecting => (
                l,
                AcceptOpView { phase: AcceptPhase::Finished, starting: None, ..self },
            ),
            AcceptPhase::Finished => (l, self),
        }
    }

    /// Whether `r` is how the accept, in the state `self`, ends on `event`.
    pub open spec fn ends_with(
        self,
        l: ListenerView,
        event: Event,
        now: u64,
        r: Result<(UdpxStream, Endpoint), TransportError>,
    ) -> bool {
        match self.phase {
            AcceptPhase::Idle => false,
            AcceptPhase::Receiving => match event {
                Event::Received { datagram, from } => match spec_decode(datagram@) {
                    None => r matches Err(TransportError::Malformed { size }) && size
                        == datagram@.len(),
                    Some(p) => match syn_refusal(p) {
                        Some(e) => r matches Err(x) && x == e,
                        None => r matches Err(TransportError::DuplicateSyn),
                    },
                },
                Event::ReceiveFailed(f) => r matches Err(TransportError::Io(g)) && g == f,
                _ => r matches Err(TransportError::Io(g)) && g == out_of_turn(),
            },
            AcceptPhase::Binding => match event {
                Event::Bound(local) => r matches Err(e) && error_is(
                    e,
                    self.syn_ack_exchange(l, local).verdict(Event::Start),
                ),
                Event::BindFailed(f) => r matches Err(TransportError::Io(g)) && g == f,
                _ => r matches Err(TransportError::Io(g)) && g == out_of_turn(),
            },
            AcceptPhase::Exchanging => match self.exchange.verdict(event) {
                Verdict::Answer(p, _) => r matches Err(
                    TransportError::BadAckSeq { got, expected },
                ) && got == p.nseq && expected == self.syn_seq + 2,
                v => r matches Err(e) && error_is(e, v),
            },
            AcceptPhase::Connecting => match event {
                Event::ConnectFailed(f) => r matches Err(TransportError::Io(g)) && g == f,
                _ => r matches Ok((s, addr)) && s@.valid() && s@ == self.stream(l) && addr
                    == self.source,
            },
            AcceptPhase::Finished => false,
        }
    }

    /// Whether `r` is what the accept asks for after a step that took
    /// `event`, at the time `now`, from the state `before` (with the listener
    /// `l`) to the state `self`.
    pub open spec fn asks(
        self,
        before: AcceptOpView,
        l: ListenerView,
        event: Event,
        now: u64,
        r: Step<Result<(UdpxStream, Endpoint), TransportError>>,
    ) -> bool {
        match self.phase {
            AcceptPhase::Idle => false,
            AcceptPhase::Receiving => r matches Step::Io(Action::Receive { wait_ms }) && wait_ms
                is None,
            AcceptPhase::Binding => r matches Step::Io(Action::Bind),
            AcceptPhase::Exchanging => io_is(r, self.exchange),
            AcceptPhase::Connecting => r matches Step::Io(Action::Connect { to }) && to
                == self.source,
            AcceptPhase::Finished => r matches Step::Done(res) && before.ends_with(
                l,
                event,
                now,
                res,
            ),
        }
    }
}

impl AcceptOp {
    /// An accept that has not begun.
    pub fn new() -> (op: AcceptOp)
        ensures
            op@ == AcceptOpView::idle(),
            op@.wf(),
    {
        let nowhere = Endpoint { ip: [0, 0, 0, 0], port: 0 };
        assert(nowhere.ip =~= [0u8, 0u8, 0u8, 0u8]);
        AcceptOp {
            phase: AcceptPhase::Idle,
            syn_seq: 0,
            source: nowhere,
            remote: nowhere,
            local: nowhere,
            exchange: ReliableSend::new(Vec::new(), nowhere, 0, Vec::new(), false, false, None, 0),
            starting: None,
        }
    }

    /// Whether the accept is over.
    pub fn finished(&self) -> (r: bool)
        ensures
            r == (self@.phase == AcceptPhase::Finished),
    {
        self.phase == AcceptPhase::Finished
    }

    fn fail(&mut self, e: TransportError) -> (r: Step<
        Result<(UdpxStream, Endpoint), TransportError>,
    >)
        ensures
            final(self)@ == old(self)@.end(),
            r matches Step::Done(Err(x)) && x == e,
    {
        self.phase = AcceptPhase::Finished;
        Step::Done(Err(e))
    }
}

impl UdpxListener {
    /// The server's side of the handshake, once a SYN has been let in and a
    /// fresh socket is bound at `local`: the SYN-ACK that is to be sent until
    /// an ACK or a data packet answers it.
    pub fn handshake(&self, op: &AcceptOp, local: Endpoint) -> (exchange: ReliableSend)
        requires
            op@.syn_seq <= u32::MAX - 4,
        ensures
            exchange@ == op@.syn_ack_exchange(self@, local),
    {
        let payload = serialize_addr(local);
        let mut data: Vec<u8> = Vec::new();
        crate::packet::extend_from(&mut data, payload.as_slice());
        let send = Packet {
            ptyp: PacketType::SynAck,
            nseq: op.syn_seq + 1,
            peer: op.remote.ip,
            port: op.remote.port,
            data,
        };
        assert(send@.data =~= spec_serialize_addr(local));
        let mut accepted: Vec<PacketType> = Vec::new();
        accepted.push(PacketType::Ack);
        accepted.push(PacketType::Data);
        assert(accepted@ =~= seq![PacketType::Ack, PacketType::Data]);
        ReliableSend::new(
            send.raw(),
            op.source,
            self.timeout,
            accepted,
            true,
            false,
            self.proxy,
            HANDSHAKE_MAX_ATTEMPTS,
        )
    }

    /// One step of accepting a stream; `now` is the time, in milliseconds of
    /// any steady clock.
    ///
    /// One datagram is taken from the well-known socket. It must be a SYN
    /// that carries the client's address and a sequence number with room for
    /// what follows, and the same SYN must not have been accepted within the
    /// last two seconds. Then a fresh socket is bound, and from it the
    /// SYN-ACK, one past the SYN in sequence and carrying the fresh socket's
    /// address, is sent until an answer comes from where the SYN came from:
    /// the ACK, which must be two past the SYN, or a data packet, which
    /// shows that the ACK was lost and is kept for the reader. At last the
    /// fresh socket is connected to where the SYN came from. The stream that
    /// results reads from three past the SYN and sends from four past it.
    /// Every failure ends the accept and leaves nothing behind but, where
    /// the SYN was let in, its record.
    pub fn accept(&mut self, op: &mut AcceptOp, event: Event, now: u64) -> (r: Step<
        Result<(UdpxStream, Endpoint), TransportError>,
    >)
        requires
            old(op)@.wf(),
            old(op)@.phase != AcceptPhase::Finished,
        ensures
            final(op)@.wf(),
            (final(self)@, final(op)@) == old(op)@.next(old(self)@, event, now),
            final(op)@.asks(old(op)@, old(self)@, event, now, r),
            !(r is Done) ==> final(op)@.fuel() < old(op)@.fuel(),
    {
        match op.phase {
            AcceptPhase::Idle => {
                op.phase = AcceptPhase::Receiving;
                Step::Io(Action::Receive { wait_ms: None })
            },
            AcceptPhase::Receiving => match event {
                Event::Received { datagram, from } => {
                    match Packet::try_from(datagram.as_slice()) {
                        Err(e) => op.fail(TransportError::Malformed { size: e.size }),
                        Ok(p) => {
                            match check_syn(&p) {
                                Some(e) => {
                                    return op.fail(e);
                                },
                                None => {},
                            }
                            if !self.take_syn(&p, now) {
                                return op.fail(TransportError::DuplicateSyn);
                            }
                            op.syn_seq = p.nseq;
                            op.source = from;
                            op.remote = deserialize_addr(p.data.as_slice());
                            op.phase = AcceptPhase::Binding;
                            Step::Io(Action::Bind)
                        },
                    }
                },
                Event::ReceiveFailed(f) => op.fail(TransportError::Io(f)),
                _ => op.fail(TransportError::Io(IoFailure { kind: IoErrorKind::Other, code: 0 })),
            },
            AcceptPhase::Binding => match event {
                Event::Bound(local) => {
                    op.exchange = self.handshake(op, local);
                    op.local = local;
                    match op.exchange.step(Event::Start) {
                        Step::Io(a) => {
                            op.phase = AcceptPhase::Exchanging;
                            Step::Io(a)
                        },
                        Step::Done(Err(e)) => {
                            op.phase = AcceptPhase::Finished;
                            Step::Done(Err(e))
                        },
                        Step::Done(Ok(_)) => {
                            op.phase = AcceptPhase::Finished;
                            Step::Done(Err(TransportError::TimedOut))
                        },
                    }
                },
                Event::BindFailed(f) => op.fail(TransportError::Io(f)),
                _ => op.fail(TransportError::Io(IoFailure { kind: IoErrorKind::Other, code: 0 })),
            },
            AcceptPhase::Exchanging => {
                match op.exchange.step(event) {
                    Step::Io(a) => Step::Io(a),
                    Step::Done(Err(e)) => {
                        op.phase = AcceptPhase::Finished;
                        Step::Done(Err(e))
                    },
                    Step::Done(Ok((p, _))) => {
                        match p.ptyp {
                            PacketType::Data => {
                                op.starting = Some(p);
                                op.phase = AcceptPhase::Connecting;
                                Step::Io(Action::Connect { to: op.source })
                            },
                            _ => {
                                if p.nseq == op.syn_seq + 2 {
                                    op.phase = AcceptPhase::Connecting;
                                    Step::Io(Action::Connect { to: op.source })
                                } else {
                                    op.phase = AcceptPhase::Finished;
                                    Step::Done(
                                        Err(
                                            TransportError::BadAckSeq {
                                                got: p.nseq,
                                                expected: op.syn_seq + 2,
                                            },
                                        ),
                                    )
                                }
                            },
                        }
                    },
                }
            },
            AcceptPhase::Connecting => {
                op.phase = AcceptPhase::Finished;
                let starting = op.starting.take();
                match event {
                    Event::ConnectFailed(f) => Step::Done(Err(TransportError::Io(f))),
                    _ => {
                        let stream = UdpxStream::new(
                            op.local,
                            op.syn_seq + 4,
                            op.syn_seq + 3,
                            self.proxy,
                            op.remote,
                            None,
                        );
                        let mut initial: Vec<Packet> = Vec::new();
                        match starting {
                            Some(p) => {
                                initial.push(p);
                                proof {
                                    assert(views(initial@) =~= seq![p@]);
                                }
                            },
                            None => {
                                proof {
                                    assert(views(initial@) =~= Seq::<PacketView>::empty());
                                }
                            },
                        }
                        Step::Done(Ok((stream.with_starting_data(initial), op.source)))
                    },
                }
            },
            AcceptPhase::Finished => Step::Done(Err(TransportError::Closed)),
        }
    }
}

/// Handshake symmetry: the connecting side numbers its SYN `SYN_SEQ`. After
/// a handshake that began with that SYN, the side that sent it sends its
/// data from three past it and the side that accepted it from four past it,
/// and each side reads from where the other sends.
pub proof fn lemma_handshake_symmetry(
    client: crate::handshake::ClientHandshakeView,
    l: ListenerView,
    server: AcceptOpView,
)
    requires
        server.syn_seq == crate::handshake::SYN_SEQ,
    ensures
        client.stream().next_seq == server.syn_seq + 3,
        server.stream(l).next_seq == server.syn_seq + 4,
        client.stream().next_expected == server.stream(l).next_seq,
        server.stream(l).next_expected == client.stream().next_seq,
{
    let fresh = StreamView::fresh(
        server.local,
        server_first_seq(server.syn_seq) as u32,
        client_first_seq(server.syn_seq) as u32,
        l.proxy,
        server.remote,
        None,
    );
    match server.starting {
        Some(p) => {
            let one = seq![p];
            assert(one.drop_last() =~= Seq::<PacketView>::empty());
            assert(fresh.with_starting_data(one.drop_last()) == fresh);
        },
        None => {},
    }
}

/// Whatever sequence number a SYN bears, as long as four more exist after
/// it, the side that accepted it sends its data from four past it and reads
/// from three past it.
pub proof fn lemma_accepted_numbers(l: ListenerView, server: AcceptOpView)
    requires
        server.syn_seq + 4 <= u32::MAX,
    ensures
        server.stream(l).next_seq == server.syn_seq + 4,
        server.stream(l).next_expected == server.syn_seq + 3,
{
    let fresh = StreamView::fresh(
        server.local,
        server_first_seq(server.syn_seq) as u32,
        client_first_seq(server.syn_seq) as u32,
        l.proxy,
        server.remote,
        None,
    );
    match server.starting {
        Some(p) => {
            let one = seq![p];
            assert(one.drop_last() =~= Seq::<PacketView>::empty());
            assert(fresh.with_starting_data(one.drop_last()) == fresh);
        },
        None => {},
    }
}

} // verus!
