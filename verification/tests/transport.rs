//! The transport end to end, over a network that exists only in memory: every
//! datagram that a machine asks to send is put in the queue of the socket it
//! is meant for, and time passes only when nobody can do anything else.

use rand::distributions::Alphanumeric;
use rand::{thread_rng, Rng};
use std::collections::{HashMap, VecDeque};
use udpx::handshake::ClientHandshake;
use udpx::listener::{AcceptOp, UdpxListener};
use udpx::packet::{Packet, PacketType};
use udpx::stream::{FlushOp, ReadOp, ShutdownOp, UdpxStream, WriteOp};
use udpx::transport::{
    deserialize_addr, reliable_send, serialize_addr, try_deserialize_addr, Action, Endpoint,
    Event, IoErrorKind, IoFailure, Step, TransportError,
};

const SERVER: Endpoint = Endpoint {
    ip: [127, 0, 0, 1],
    port: 8666,
};

fn client_addr(n: u16) -> Endpoint {
    Endpoint {
        ip: [127, 0, 0, 1],
        port: 40000 + n,
    }
}

fn timed_out() -> IoFailure {
    IoFailure {
        kind: IoErrorKind::TimedOut,
        code: 0,
    }
}

fn would_block() -> IoFailure {
    IoFailure {
        kind: IoErrorKind::WouldBlock,
        code: 11,
    }
}

fn broken() -> IoFailure {
    IoFailure {
        kind: IoErrorKind::Other,
        code: 104,
    }
}

/// One datagram on its way.
#[derive(Debug, Clone)]
struct Sent {
    from: Endpoint,
    to: Endpoint,
    packet: Packet,
}

/// The network: a queue for every socket, a record of all that was sent, and
/// a rule that says which datagrams get lost.
struct Net {
    queues: HashMap<Endpoint, VecDeque<(Vec<u8>, Endpoint)>>,
    log: Vec<Sent>,
    lose: Box<dyn FnMut(&Sent) -> bool>,
    copies: usize,
    shuffle: bool,
    next_port: u16,
    now: u64,
}

impl Net {
    fn new() -> Net {
        Net {
            queues: HashMap::new(),
            log: Vec::new(),
            lose: Box::new(|_| false),
            copies: 1,
            shuffle: false,
            next_port: 50000,
            now: 1_000_000,
        }
    }

    fn send(&mut self, from: Endpoint, to: Endpoint, datagram: Vec<u8>) {
        let sent = Sent {
            from,
            to,
            packet: Packet::from(&datagram),
        };
        self.log.push(sent.clone());
        if (self.lose)(&sent) {
            return;
        }
        for _ in 0..self.copies {
            self.queues
                .entry(to)
                .or_default()
                .push_back((datagram.clone(), from));
        }
    }

    fn receive(&mut self, at: Endpoint) -> Option<(Vec<u8>, Endpoint)> {
        let shuffle = self.shuffle;
        self.queues.get_mut(&at).and_then(|q| {
            if shuffle && q.len() > 1 {
                q.remove(thread_rng().gen_range(0..q.len()))
            } else {
                q.pop_front()
            }
        })
    }

    fn fresh(&mut self) -> Endpoint {
        self.next_port += 1;
        Endpoint {
            ip: [127, 0, 0, 1],
            port: self.next_port,
        }
    }

    fn sent_of_type(&self, t: PacketType) -> Vec<Sent> {
        self.log
            .iter()
            .filter(|s| s.packet.ptyp == t)
            .cloned()
            .collect()
    }
}

/// Something that takes turns on the network.
trait Party {
    fn addr(&self) -> Endpoint;
    fn rebind(&mut self, _addr: Endpoint) {}
    /// Takes the outcome of its last action and says what it does next;
    /// `None` when it has nothing more to do.
    fn step(&mut self, event: Event, now: u64) -> Option<Action>;
}

/// Lets the parties take turns until all are done.
fn run(net: &mut Net, parties: &mut [&mut dyn Party]) {
    let n = parties.len();
    let mut events: Vec<Option<Event>> = (0..n).map(|_| Some(Event::Start)).collect();
    let mut waiting: Vec<Option<Option<u64>>> = vec![None; n];
    let mut done = vec![false; n];
    for _ in 0..5_000_000u64 {
        if done.iter().all(|d| *d) {
            return;
        }
        let mut progress = false;
        for i in 0..n {
            if done[i] {
                continue;
            }
            if events[i].is_none() && waiting[i].is_some() {
                if let Some((datagram, from)) = net.receive(parties[i].addr()) {
                    waiting[i] = None;
                    events[i] = Some(Event::Received { datagram, from });
                }
            }
            let Some(event) = events[i].take() else {
                continue;
            };
            progress = true;
            match parties[i].step(event, net.now) {
                None => done[i] = true,
                Some(Action::Send { datagram, to, .. }) => {
                    net.send(parties[i].addr(), to, datagram);
                    events[i] = Some(Event::Sent);
                }
                Some(Action::Receive { wait_ms }) => waiting[i] = Some(wait_ms),
                Some(Action::Sleep { ms }) => {
                    net.now += ms;
                    events[i] = Some(Event::Woke);
                }
                Some(Action::Bind) => {
                    let addr = net.fresh();
                    parties[i].rebind(addr);
                    events[i] = Some(Event::Bound(addr));
                }
                Some(Action::Connect { .. }) => events[i] = Some(Event::Connected),
            }
        }
        if !progress {
            // Nobody can move: the timeouts run out.
            let mut woke = false;
            for i in 0..n {
                if !done[i] && matches!(waiting[i], Some(Some(_))) {
                    net.now += waiting[i].unwrap().unwrap();
                    waiting[i] = None;
                    events[i] = Some(Event::ReceiveFailed(timed_out()));
                    woke = true;
                }
            }
            assert!(woke, "everybody waits forever");
        }
    }
    panic!("the parties did not come to an end");
}

struct Connecting {
    addr: Endpoint,
    machine: ClientHandshake,
    result: Option<Result<UdpxStream, TransportError>>,
}

impl Connecting {
    fn new(addr: Endpoint, server: Endpoint) -> Connecting {
        Connecting {
            addr,
            machine: UdpxStream::connect(addr, server),
            result: None,
        }
    }

    fn stream(self) -> UdpxStream {
        self.result.unwrap().unwrap()
    }
}

impl Party for Connecting {
    fn addr(&self) -> Endpoint {
        self.addr
    }

    fn step(&mut self, event: Event, _now: u64) -> Option<Action> {
        match self.machine.handshake(event) {
            Step::Io(a) => Some(a),
            Step::Done(r) => {
                self.result = Some(r);
                None
            }
        }
    }
}

/// A listener that accepts so many times, one after the other.
struct Accepting {
    addr: Endpoint,
    home: Endpoint,
    listener: UdpxListener,
    op: AcceptOp,
    times: usize,
    results: Vec<Result<(UdpxStream, Endpoint), TransportError>>,
}

impl Accepting {
    fn new(times: usize) -> Accepting {
        Accepting {
            addr: SERVER,
            home: SERVER,
            listener: UdpxListener::bind(SERVER),
            op: AcceptOp::new(),
            times,
            results: Vec::new(),
        }
    }

    fn streams(self) -> Vec<UdpxStream> {
        self.results.into_iter().map(|r| r.unwrap().0).collect()
    }
}

impl Party for Accepting {
    fn addr(&self) -> Endpoint {
        self.addr
    }

    fn rebind(&mut self, addr: Endpoint) {
        self.addr = addr;
    }

    fn step(&mut self, event: Event, now: u64) -> Option<Action> {
        let mut event = event;
        loop {
            if self.results.len() == self.times {
                return None;
            }
            match self.listener.accept(&mut self.op, event, now) {
                Step::Io(Action::Receive { wait_ms: None }) => {
                    // The well-known socket polls, so that a test never hangs.
                    return Some(Action::Receive { wait_ms: Some(100) });
                }
                Step::Io(a) => return Some(a),
                Step::Done(r) => {
                    self.results.push(r);
                    self.op = AcceptOp::new();
                    self.addr = self.home;
                    event = Event::Start;
                }
            }
        }
    }
}

#[derive(Debug, Clone, PartialEq, Eq)]
enum Cmd {
    Write(Vec<u8>),
    Read(usize),
    ReadToEnd,
    Shutdown,
    Flush,
}

enum Running {
    Idle,
    Write(WriteOp, Vec<u8>),
    Read(ReadOp, bool),
    Shutdown(ShutdownOp),
    Flush(FlushOp),
}

/// A stream that carries out a list of commands, one after the other.
struct Script {
    addr: Endpoint,
    stream: UdpxStream,
    budget: usize,
    todo: VecDeque<Cmd>,
    running: Running,
    /// Everything that was read.
    red: Vec<u8>,
    /// The result of every read and write, in order.
    counts: Vec<Result<usize, TransportError>>,
    /// The result of every shutdown and flush, in order.
    closings: Vec<Result<(), TransportError>>,
}

impl Script {
    fn new(stream: UdpxStream, todo: Vec<Cmd>) -> Script {
        Script {
            addr: stream.local_addr(),
            stream,
            budget: 2000,
            todo: todo.into(),
            running: Running::Idle,
            red: Vec::new(),
            counts: Vec::new(),
            closings: Vec::new(),
        }
    }
}

impl Party for Script {
    fn addr(&self) -> Endpoint {
        self.addr
    }

    fn step(&mut self, event: Event, _now: u64) -> Option<Action> {
        let mut event = event;
        loop {
            if let Running::Idle = self.running {
                self.running = match self.todo.pop_front()? {
                    Cmd::Write(bytes) => Running::Write(WriteOp::new(self.budget), bytes),
                    Cmd::Read(want) => Running::Read(ReadOp::new(want, self.budget), false),
                    Cmd::ReadToEnd => Running::Read(ReadOp::new(1024, self.budget), true),
                    Cmd::Shutdown => Running::Shutdown(ShutdownOp::new()),
                    Cmd::Flush => Running::Flush(FlushOp::new()),
                };
                event = Event::Start;
            }
            let step = match &mut self.running {
                Running::Idle => unreachable!(),
                Running::Write(op, bytes) => match self.stream.write(op, bytes, event) {
                    Step::Io(a) => Step::Io(a),
                    Step::Done(r) => {
                        self.counts.push(r);
                        Step::Done(())
                    }
                },
                Running::Read(op, to_end) => {
                    match self.stream.read(op, &mut self.red, event) {
                        Step::Io(a) => Step::Io(a),
                        Step::Done(r) => {
                            let again = *to_end && matches!(r, Ok(n) if n > 0);
                            self.counts.push(r);
                            if again {
                                self.todo.push_front(Cmd::ReadToEnd);
                            }
                            Step::Done(())
                        }
                    }
                }
                Running::Shutdown(op) => match self.stream.shutdown(op, event) {
                    Step::Io(a) => Step::Io(a),
                    Step::Done(r) => {
                        self.closings.push(r);
                        Step::Done(())
                    }
                },
                Running::Flush(op) => match self.stream.do_flush(op, event) {
                    Step::Io(a) => Step::Io(a),
                    Step::Done(r) => {
                        self.closings.push(r);
                        Step::Done(())
                    }
                },
            };
            match step {
                Step::Io(a) => return Some(a),
                Step::Done(()) => {
                    self.running = Running::Idle;
                    event = Event::Start;
                }
            }
        }
    }
}

/// A handshake between one client and the server.
fn connect(net: &mut Net) -> (UdpxStream, UdpxStream) {
    let mut client = Connecting::new(client_addr(1), SERVER);
    let mut server = Accepting::new(1);
    run(net, &mut [&mut client, &mut server]);
    let mut streams = server.streams();
    (client.stream(), streams.remove(0))
}

fn random_string(n: usize) -> String {
    thread_rng()
        .sample_iter(&Alphanumeric)
        .take(n)
        .map(char::from)
        .collect::<String>()
}

/// One round trip: the client writes the message in blocks of 1024 bytes and
/// shuts down; the server reads to the end.
fn assert_echo(net: &mut Net, msg: &str) {
    let (client, server) = connect(net);
    let mut todo: Vec<Cmd> = msg
        .as_bytes()
        .chunks(1 << 10)
        .map(|b| Cmd::Write(b.to_vec()))
        .collect();
    todo.push(Cmd::Shutdown);
    let mut writer = Script::new(client, todo);
    let mut reader = Script::new(server, vec![Cmd::ReadToEnd]);
    run(net, &mut [&mut writer, &mut reader]);
    for (count, block) in writer.counts.iter().zip(msg.as_bytes().chunks(1 << 10)) {
        assert_eq!(count.as_ref().ok(), Some(&block.len()));
    }
    assert_eq!(writer.closings.len(), 1);
    assert!(writer.closings[0].is_ok());
    assert_eq!(msg.len(), reader.red.len());
    assert_eq!(msg.as_bytes(), reader.red.as_slice());
    assert!(matches!(reader.counts.last(), Some(Ok(0))));
}

/// Tests the handshake: a server accepts one client.
#[test]
fn test_handshake() {
    let mut net = Net::new();
    let (client, server) = connect(&mut net);
    assert_eq!(client.local_addr(), client_addr(1));
    assert_eq!(server.peer_addr(), client_addr(1));
    assert_eq!(client.peer_addr(), server.local_addr());
    assert_ne!(server.local_addr(), SERVER);
}

/// Tests the handshake without reading from the stream afterwards: neither
/// side reports an error.
#[test]
fn test_handshake_raw() {
    let mut net = Net::new();
    let mut client = Connecting::new(client_addr(1), SERVER);
    let mut server = Accepting::new(1);
    run(&mut net, &mut [&mut client, &mut server]);
    assert!(client.result.as_ref().unwrap().is_ok(), "Client side error");
    let server_error = server.results[0].as_ref().err();
    assert!(server_error.is_none(), "Expecting no server errors");
}

/// Tests the handshake with many clients all trying to connect at the same
/// time.
#[test]
fn test_concurrent_handshakes() {
    let mut net = Net::new();
    let n = 25;
    let mut clients: Vec<Connecting> = (0..n)
        .map(|i| Connecting::new(client_addr(i), SERVER))
        .collect();
    let mut server = Accepting::new(n as usize);
    {
        let mut parties: Vec<&mut dyn Party> = Vec::new();
        for c in clients.iter_mut() {
            parties.push(c);
        }
        parties.push(&mut server);
        run(&mut net, &mut parties);
    }
    for c in clients.iter() {
        let res = c.result.as_ref().unwrap();
        assert!(
            res.is_ok(),
            "Expected no connection errors, but got: {:?}",
            res.as_ref().err()
        );
    }
    let streams = server.streams();
    assert_eq!(streams.len(), 25);
    // Every stream has a socket of its own and a client of its own, and each
    // client talks to the socket that was bound for it.
    for (i, s) in streams.iter().enumerate() {
        for t in streams.iter().skip(i + 1) {
            assert_ne!(s.local_addr(), t.local_addr());
            assert_ne!(s.peer_addr(), t.peer_addr());
        }
        let client = clients
            .iter()
            .find(|c| c.addr == s.peer_addr())
            .and_then(|c| c.result.as_ref().unwrap().as_ref().ok())
            .unwrap();
        assert_eq!(client.peer_addr(), s.local_addr());
    }
}

#[test]
fn test_echo_small() {
    assert_echo(&mut Net::new(), "Hello world!");
}

#[test]
fn test_echo_big() {
    assert_echo(&mut Net::new(), &"Hello world!".repeat(1024));
}

#[test]
fn test_echo_very_big() {
    assert_echo(&mut Net::new(), &random_string(1 << 20));
}

#[test]
fn echo_survives_a_network_that_loses_every_third_datagram() {
    let mut net = Net::new();
    let mut count = 0;
    net.lose = Box::new(move |sent| {
        if sent.packet.ptyp == PacketType::Data || sent.packet.ptyp == PacketType::Ack {
            count += 1;
            count % 3 == 0
        } else {
            false
        }
    });
    assert_echo(&mut net, &random_string(20_000));
}

#[test]
fn echo_survives_a_network_that_doubles_every_datagram() {
    let mut net = Net::new();
    net.copies = 2;
    let (client, server) = connect(&mut net);
    let msg = random_string(5000);
    let mut writer = Script::new(client, vec![Cmd::Write(msg.as_bytes().to_vec()), Cmd::Shutdown]);
    let mut reader = Script::new(server, vec![Cmd::ReadToEnd]);
    run(&mut net, &mut [&mut writer, &mut reader]);
    assert_eq!(msg.as_bytes(), reader.red.as_slice());
}

#[test]
fn handshake_numbers_the_first_data_packets() {
    let mut net = Net::new();
    let (client, server) = connect(&mut net);
    // The SYN has sequence number 0.
    assert_eq!(net.sent_of_type(PacketType::Syn)[0].packet.nseq, 0);
    assert_eq!(net.sent_of_type(PacketType::SynAck)[0].packet.nseq, 1);
    assert_eq!(net.sent_of_type(PacketType::Ack)[0].packet.nseq, 2);
    assert_eq!(client.next_seq(), 3);
    assert_eq!(server.next_seq(), 4);
    assert_eq!(client.next_expected_seq(), 4);
    assert_eq!(server.next_expected_seq(), 3);
    assert_eq!(udpx::stream::FIRST_NSEQ, 3);
}

#[test]
fn handshake_packets_carry_the_addresses() {
    let mut net = Net::new();
    let (client, server) = connect(&mut net);
    let syn = &net.sent_of_type(PacketType::Syn)[0];
    assert_eq!(syn.to, SERVER);
    assert_eq!(syn.packet.peer, SERVER.ip);
    assert_eq!(syn.packet.port, SERVER.port);
    assert_eq!(syn.packet.data, serialize_addr(client_addr(1)).to_vec());
    let syn_ack = &net.sent_of_type(PacketType::SynAck)[0];
    assert_eq!(syn_ack.from, server.local_addr());
    assert_eq!(syn_ack.to, client_addr(1));
    assert_eq!(syn_ack.packet.peer, client_addr(1).ip);
    assert_eq!(syn_ack.packet.port, client_addr(1).port);
    assert_eq!(
        syn_ack.packet.data,
        serialize_addr(server.local_addr()).to_vec()
    );
    let ack = &net.sent_of_type(PacketType::Ack)[0];
    assert_eq!(ack.to, server.local_addr());
    assert_eq!(ack.packet.peer, server.local_addr().ip);
    assert_eq!(ack.packet.port, server.local_addr().port);
    assert!(ack.packet.data.is_empty());
    assert_eq!(client.peer_addr(), server.local_addr());
}

#[test]
fn handshake_survives_a_lost_syn_ack() {
    let mut net = Net::new();
    let mut lost = false;
    net.lose = Box::new(move |sent| {
        if sent.packet.ptyp == PacketType::SynAck && !lost {
            lost = true;
            return true;
        }
        false
    });
    let mut client = Connecting::new(client_addr(1), SERVER);
    let mut server = Accepting::new(2);
    run(&mut net, &mut [&mut client, &mut server]);
    assert!(client.result.as_ref().unwrap().is_ok());
    assert!(net.sent_of_type(PacketType::SynAck).len() >= 2);
    // The client sent its SYN again; that copy makes no second stream.
    assert!(net.sent_of_type(PacketType::Syn).len() >= 2);
    assert_eq!(server.results.len(), 2);
    assert!(server.results[0].is_ok());
    assert!(matches!(
        server.results[1],
        Err(TransportError::DuplicateSyn)
    ));
}

#[test]
fn handshake_survives_a_lost_ack() {
    // The client believes that the handshake is over and writes; the server
    // still sends its SYN-ACK, and takes the data for an answer.
    let mut net2 = Net::new();
    let mut lost2 = false;
    net2.lose = Box::new(move |sent| {
        if sent.packet.ptyp == PacketType::Ack && !lost2 {
            lost2 = true;
            return true;
        }
        false
    });
    let mut client = ConnectThenWrite::new(client_addr(1), SERVER, b"early".to_vec());
    let mut server = Accepting::new(1);
    run(&mut net2, &mut [&mut client, &mut server]);
    let server = server.streams().remove(0);
    // The data packet that answered the SYN-ACK is kept for the reader.
    let mut reader = Script::new(server, vec![Cmd::Read(5)]);
    run(&mut net2, &mut [&mut reader]);
    assert_eq!(reader.red, b"early");
}

/// A client that connects and writes at once.
struct ConnectThenWrite {
    connecting: Option<Connecting>,
    script: Option<Script>,
    bytes: Vec<u8>,
}

impl ConnectThenWrite {
    fn new(addr: Endpoint, server: Endpoint, bytes: Vec<u8>) -> ConnectThenWrite {
        ConnectThenWrite {
            connecting: Some(Connecting::new(addr, server)),
            script: None,
            bytes,
        }
    }
}

impl Party for ConnectThenWrite {
    fn addr(&self) -> Endpoint {
        match (&self.connecting, &self.script) {
            (Some(c), _) => c.addr,
            (_, Some(s)) => s.addr,
            _ => unreachable!(),
        }
    }

    fn step(&mut self, event: Event, now: u64) -> Option<Action> {
        if let Some(c) = &mut self.connecting {
            match c.step(event, now) {
                Some(a) => return Some(a),
                None => {
                    let stream = self.connecting.take().unwrap().stream();
                    let mut script = Script::new(stream, vec![Cmd::Write(self.bytes.clone())]);
                    script.budget = 3;
                    self.script = Some(script);
                    return self.script.as_mut().unwrap().step(Event::Start, now);
                }
            }
        }
        self.script.as_mut().unwrap().step(event, now)
    }
}

/// A stream on the server's side, as a handshake with a SYN of sequence
/// number 0 leaves it.
fn server_stream() -> UdpxStream {
    UdpxStream::new(
        Endpoint {
            ip: [127, 0, 0, 1],
            port: 50001,
        },
        4,
        3,
        None,
        client_addr(1),
        None,
    )
}

fn data(seq: u32, payload: &[u8]) -> Event {
    Event::Received {
        datagram: Packet {
            ptyp: PacketType::Data,
            nseq: seq,
            peer: [127, 0, 0, 1],
            port: 50001,
            data: payload.to_vec(),
        }
        .raw(),
        from: client_addr(1),
    }
}

fn control(ptyp: PacketType, seq: u32) -> Event {
    Event::Received {
        datagram: Packet {
            ptyp,
            nseq: seq,
            peer: [127, 0, 0, 1],
            port: 50001,
            data: vec![],
        }
        .raw(),
        from: client_addr(1),
    }
}

fn sent_packet<T: std::fmt::Debug>(step: &Step<T>) -> Packet {
    match step {
        Step::Io(Action::Send { datagram, .. }) => Packet::from(datagram),
        other => panic!("expected a send, got {:?}", other),
    }
}

fn is_receive<T>(step: &Step<T>) -> bool {
    matches!(
        step,
        Step::Io(Action::Receive {
            wait_ms: Some(100)
        })
    )
}

#[test]
fn out_of_order_data_is_delivered_in_order() {
    let mut s = server_stream();
    let mut op = ReadOp::new(100, 50);
    let mut out = Vec::new();
    assert_eq!(s.next_expected_seq(), 3);
    assert!(is_receive(&s.read(&mut op, &mut out, Event::Start)));
    // Packets 5, 3, 4 arrive in that order; each is acknowledged at once.
    let ack = sent_packet(&s.read(&mut op, &mut out, data(5, b"cc")));
    assert_eq!((ack.ptyp, ack.nseq), (PacketType::Ack, 5));
    assert!(is_receive(&s.read(&mut op, &mut out, Event::Sent)));
    assert!(out.is_empty());
    let ack = sent_packet(&s.read(&mut op, &mut out, data(3, b"aa")));
    assert_eq!((ack.ptyp, ack.nseq), (PacketType::Ack, 3));
    assert!(is_receive(&s.read(&mut op, &mut out, Event::Sent)));
    assert_eq!(out, b"aa");
    let ack = sent_packet(&s.read(&mut op, &mut out, data(4, b"bb")));
    assert_eq!((ack.ptyp, ack.nseq), (PacketType::Ack, 4));
    assert!(is_receive(&s.read(&mut op, &mut out, Event::Sent)));
    assert_eq!(out, b"aabbcc");
    assert_eq!(s.next_expected_seq(), 6);
    // Nothing more comes: the read ends with what it has.
    let end = s.read(&mut op, &mut out, Event::ReceiveFailed(timed_out()));
    assert!(matches!(end, Step::Done(Ok(6))));
}

#[test]
fn duplicate_data_is_delivered_once_and_acknowledged_twice() {
    let mut s = server_stream();
    let mut op = ReadOp::new(100, 50);
    let mut out = Vec::new();
    assert!(is_receive(&s.read(&mut op, &mut out, Event::Start)));
    let ack = sent_packet(&s.read(&mut op, &mut out, data(3, b"once")));
    assert_eq!((ack.ptyp, ack.nseq), (PacketType::Ack, 3));
    assert!(is_receive(&s.read(&mut op, &mut out, Event::Sent)));
    let ack = sent_packet(&s.read(&mut op, &mut out, data(3, b"once")));
    assert_eq!((ack.ptyp, ack.nseq), (PacketType::Ack, 3));
    assert!(is_receive(&s.read(&mut op, &mut out, Event::Sent)));
    assert_eq!(out, b"once");
    let end = s.read(&mut op, &mut out, Event::ReceiveFailed(timed_out()));
    assert!(matches!(end, Step::Done(Ok(4))));
    assert_eq!(out, b"once");
}

#[test]
fn acknowledgements_are_addressed_to_the_peer() {
    let mut s = server_stream();
    let mut op = ReadOp::new(10, 5);
    let mut out = Vec::new();
    s.read(&mut op, &mut out, Event::Start);
    match s.read(&mut op, &mut out, data(3, b"x")) {
        Step::Io(Action::Send {
            datagram,
            to,
            timeout_ms,
        }) => {
            assert_eq!(to, client_addr(1));
            assert_eq!(timeout_ms, 100);
            let p = Packet::from(&datagram);
            assert_eq!(p.peer, client_addr(1).ip);
            assert_eq!(p.port, client_addr(1).port);
            assert!(p.data.is_empty());
        }
        other => panic!("expected an ACK, got {:?}", other),
    }
}

#[test]
fn a_payload_larger_than_the_room_is_read_in_parts() {
    let mut s = server_stream();
    s.accept_data(3, b"abcdefgh".to_vec());
    s.accept_data(4, b"ij".to_vec());
    let mut out = Vec::new();
    let mut op = ReadOp::new(3, 5);
    assert!(matches!(
        s.read(&mut op, &mut out, Event::Start),
        Step::Done(Ok(3))
    ));
    assert_eq!(out, b"abc");
    assert_eq!(s.next_expected_seq(), 3);
    let mut op = ReadOp::new(6, 5);
    assert!(matches!(
        s.read(&mut op, &mut out, Event::Start),
        Step::Done(Ok(6))
    ));
    assert_eq!(out, b"abcdefghi");
    assert_eq!(s.next_expected_seq(), 4);
    let mut more = Vec::new();
    assert_eq!(s.deliver(&mut more, 10), 1);
    assert_eq!(more, b"j");
    assert_eq!(s.next_expected_seq(), 5);
}

#[test]
fn data_behind_the_reader_is_not_buffered() {
    let mut s = server_stream();
    s.accept_data(2, b"old".to_vec());
    s.accept_data(3, b"new".to_vec());
    s.accept_data(3, b"other".to_vec());
    let mut out = Vec::new();
    assert_eq!(s.deliver(&mut out, 100), 3);
    assert_eq!(out, b"new");
}

#[test]
fn fin_is_answered_and_ends_the_stream() {
    let mut s = server_stream();
    let mut out = Vec::new();
    let mut op = ReadOp::new(100, 50);
    assert!(is_receive(&s.read(&mut op, &mut out, Event::Start)));
    sent_packet(&s.read(&mut op, &mut out, data(3, b"abc")));
    assert!(is_receive(&s.read(&mut op, &mut out, Event::Sent)));
    assert_eq!(out, b"abc");
    // The FIN carries the sequence number behind the last data packet.
    let mut step = s.read(&mut op, &mut out, control(PacketType::Fin, 4));
    let mut fin_acks = 0;
    while let Step::Io(Action::Send {
        datagram,
        to,
        timeout_ms,
    }) = &step
    {
        assert_eq!(Packet::from(datagram).ptyp, PacketType::FinAck);
        assert_eq!(*to, client_addr(1));
        assert_eq!(*timeout_ms, 5);
        fin_acks += 1;
        // Failures of these sends do not matter.
        step = s.read(&mut op, &mut out, Event::SendFailed(broken()));
    }
    assert_eq!(fin_acks, 100);
    assert!(matches!(step, Step::Done(Ok(3))));
    assert!(s.is_closed());
    assert_eq!(s.last_seq(), Some(4));
    // From now on every read returns 0 at once.
    for _ in 0..3 {
        let mut op = ReadOp::new(100, 50);
        let end = s.read(&mut op, &mut out, Event::Start);
        assert!(matches!(end, Step::Done(Ok(0))));
    }
    assert_eq!(out, b"abc");
    // And every write is refused.
    let mut w = WriteOp::new(5);
    assert!(matches!(
        s.write(&mut w, b"late", Event::Start),
        Step::Done(Err(TransportError::Closed))
    ));
}

#[test]
fn fin_before_the_last_data_does_not_end_the_stream() {
    let mut s = server_stream();
    let mut out = Vec::new();
    let mut op = ReadOp::new(100, 500);
    s.read(&mut op, &mut out, Event::Start);
    let mut step = s.read(&mut op, &mut out, control(PacketType::Fin, 4));
    while let Step::Io(Action::Send { .. }) = step {
        step = s.read(&mut op, &mut out, Event::Sent);
    }
    // Packet 3 is still missing: the read goes on.
    assert!(is_receive(&step));
    assert!(!s.is_closed());
    sent_packet(&s.read(&mut op, &mut out, data(3, b"late")));
    let end = s.read(&mut op, &mut out, Event::Sent);
    assert!(matches!(end, Step::Done(Ok(4))));
    assert!(s.is_closed());
}

#[test]
fn flush_marks_the_end_of_what_was_sent() {
    let mut s = server_stream();
    let mut out = Vec::new();
    let mut op = ReadOp::new(100, 50);
    s.read(&mut op, &mut out, Event::Start);
    sent_packet(&s.read(&mut op, &mut out, data(3, b"abc")));
    assert!(is_receive(&s.read(&mut op, &mut out, Event::Sent)));
    let end = s.read(&mut op, &mut out, control(PacketType::Flush, 4));
    assert!(matches!(end, Step::Done(Ok(3))));
    assert!(s.received_last_packet());
    assert!(!s.is_closed());
    // A second FLUSH changes nothing.
    s.accept_data(4, b"x".to_vec());
    let mut op = ReadOp::new(100, 50);
    let end = s.read(&mut op, &mut out, Event::Start);
    assert!(matches!(end, Step::Done(Ok(0))));
}

#[test]
fn malformed_and_unexpected_packets_are_passed_over() {
    let mut s = server_stream();
    let mut out = Vec::new();
    let mut op = ReadOp::new(100, 50);
    assert!(is_receive(&s.read(&mut op, &mut out, Event::Start)));
    let short = Event::Received {
        datagram: vec![4, 0, 0],
        from: client_addr(1),
    };
    assert!(is_receive(&s.read(&mut op, &mut out, short)));
    assert!(is_receive(&s.read(
        &mut op,
        &mut out,
        control(PacketType::Nak, 3)
    )));
    assert!(is_receive(&s.read(
        &mut op,
        &mut out,
        control(PacketType::Ack, 3)
    )));
    assert!(s.latched_err().is_none());
    assert!(!s.is_closed());
}

#[test]
fn read_gives_up_when_its_budget_is_used_up() {
    let mut s = server_stream();
    let mut out = Vec::new();
    let mut op = ReadOp::new(10, 3);
    let mut step = s.read(&mut op, &mut out, Event::Start);
    let mut receives = 0;
    while is_receive(&step) {
        receives += 1;
        step = s.read(&mut op, &mut out, Event::ReceiveFailed(would_block()));
    }
    assert_eq!(receives, 3);
    assert!(matches!(step, Step::Done(Ok(0))));
}

#[test]
fn read_of_nothing_ends_at_once() {
    let mut s = server_stream();
    let mut out = Vec::new();
    let mut op = ReadOp::new(0, 3);
    assert!(matches!(
        s.read(&mut op, &mut out, Event::Start),
        Step::Done(Ok(0))
    ));
}

#[test]
fn a_socket_failure_is_kept_and_reported_by_later_calls() {
    let mut s = server_stream();
    let mut out = Vec::new();
    let mut op = ReadOp::new(100, 50);
    s.read(&mut op, &mut out, Event::Start);
    sent_packet(&s.read(&mut op, &mut out, data(3, b"abc")));
    assert!(is_receive(&s.read(&mut op, &mut out, Event::Sent)));
    // The read that meets the failure returns what it has.
    let end = s.read(&mut op, &mut out, Event::ReceiveFailed(broken()));
    assert!(matches!(end, Step::Done(Ok(3))));
    assert_eq!(s.latched_err(), Some(broken()));
    // Every later read and write reports the failure.
    for _ in 0..2 {
        let mut op = ReadOp::new(100, 50);
        match s.read(&mut op, &mut out, Event::Start) {
            Step::Done(Err(TransportError::Io(f))) => assert_eq!(f, broken()),
            other => panic!("expected the failure, got {:?}", other),
        }
        let mut w = WriteOp::new(5);
        match s.write(&mut w, b"x", Event::Start) {
            Step::Done(Err(TransportError::Io(f))) => assert_eq!(f, broken()),
            other => panic!("expected the failure, got {:?}", other),
        }
    }
    // And a shutdown does nothing.
    let mut c = ShutdownOp::new();
    assert!(matches!(
        s.shutdown(&mut c, Event::Start),
        Step::Done(Ok(()))
    ));
}

#[test]
fn a_read_without_bytes_reports_the_failure_it_meets() {
    let mut s = server_stream();
    let mut out = Vec::new();
    let mut op = ReadOp::new(100, 50);
    s.read(&mut op, &mut out, Event::Start);
    match s.read(&mut op, &mut out, Event::ReceiveFailed(broken())) {
        Step::Done(Err(TransportError::Io(f))) => assert_eq!(f, broken()),
        other => panic!("expected the failure, got {:?}", other),
    }
}

/// A stream on the client's side, as a handshake leaves it.
fn client_stream() -> UdpxStream {
    UdpxStream::new(
        client_addr(1),
        3,
        4,
        None,
        Endpoint {
            ip: [127, 0, 0, 1],
            port: 50001,
        },
        Some(Packet {
            ptyp: PacketType::Ack,
            nseq: 2,
            peer: [127, 0, 0, 1],
            port: 50001,
            data: vec![],
        }),
    )
}

#[test]
fn write_sends_numbered_chunks_and_counts_acknowledged_bytes() {
    let mut s = client_stream();
    let mut op = WriteOp::new(10);
    let buf = vec![b'z'; 1014 + 6];
    let first = sent_packet(&s.write(&mut op, &buf, Event::Start));
    assert_eq!((first.ptyp, first.nseq), (PacketType::Data, 3));
    assert_eq!(first.data.len(), 1014);
    assert_eq!(first.peer, [127, 0, 0, 1]);
    assert_eq!(first.port, 50001);
    let second = sent_packet(&s.write(&mut op, &buf, Event::Sent));
    assert_eq!((second.ptyp, second.nseq), (PacketType::Data, 4));
    assert_eq!(second.data.len(), 6);
    assert_eq!(s.next_seq(), 5);
    assert_eq!(s.unacked(), 2);
    assert!(is_receive(&s.write(&mut op, &buf, Event::Sent)));
    // The acknowledgements come in the other order.
    assert!(is_receive(&s.write(
        &mut op,
        &buf,
        control(PacketType::Ack, 4)
    )));
    assert_eq!(op.written, 6);
    let end = s.write(&mut op, &buf, control(PacketType::Ack, 3));
    assert!(matches!(end, Step::Done(Ok(1020))));
    assert_eq!(s.unacked(), 0);
}

#[test]
fn write_sends_again_what_was_not_acknowledged() {
    let mut s = client_stream();
    let mut op = WriteOp::new(10);
    let buf = b"hello".to_vec();
    assert_eq!(sent_packet(&s.write(&mut op, &buf, Event::Start)).nseq, 3);
    assert!(is_receive(&s.write(&mut op, &buf, Event::Sent)));
    let again = sent_packet(&s.write(&mut op, &buf, Event::ReceiveFailed(timed_out())));
    assert_eq!(again.nseq, 3);
    assert_eq!(again.data, b"hello");
    assert!(is_receive(&s.write(&mut op, &buf, Event::Sent)));
    // An acknowledgement of something else does not count.
    let again = sent_packet(&s.write(&mut op, &buf, control(PacketType::Ack, 9)));
    assert_eq!(again.nseq, 3);
    assert!(is_receive(&s.write(&mut op, &buf, Event::Sent)));
    let end = s.write(&mut op, &buf, control(PacketType::Ack, 3));
    assert!(matches!(end, Step::Done(Ok(5))));
}

#[test]
fn write_gives_up_when_its_budget_is_used_up() {
    let mut s = client_stream();
    let mut op = WriteOp::new(3);
    let buf = b"hello".to_vec();
    let mut step = s.write(&mut op, &buf, Event::Start);
    let mut sends = 0;
    loop {
        match step {
            Step::Io(Action::Send { .. }) => {
                sends += 1;
                step = s.write(&mut op, &buf, Event::Sent);
            }
            Step::Io(Action::Receive { .. }) => {
                step = s.write(&mut op, &buf, Event::ReceiveFailed(timed_out()));
            }
            other => {
                assert!(matches!(other, Step::Done(Ok(0))));
                break;
            }
        }
    }
    assert_eq!(sends, 3);
    assert_eq!(s.unacked(), 1);
}

#[test]
fn write_of_nothing_ends_at_once() {
    let mut s = client_stream();
    let mut op = WriteOp::new(3);
    assert!(matches!(
        s.write(&mut op, b"", Event::Start),
        Step::Done(Ok(0))
    ));
    assert_eq!(s.next_seq(), 3);
}

#[test]
fn write_tolerates_sends_that_time_out() {
    let mut s = client_stream();
    let mut op = WriteOp::new(10);
    let buf = b"hello".to_vec();
    sent_packet(&s.write(&mut op, &buf, Event::Start));
    assert!(is_receive(&s.write(
        &mut op,
        &buf,
        Event::SendFailed(timed_out())
    )));
    assert!(s.latched_err().is_none());
}

#[test]
fn write_keeps_a_failure_that_no_retry_cures() {
    let mut s = client_stream();
    let mut op = WriteOp::new(10);
    let buf = b"hello".to_vec();
    sent_packet(&s.write(&mut op, &buf, Event::Start));
    match s.write(&mut op, &buf, Event::SendFailed(broken())) {
        Step::Done(Err(TransportError::Io(f))) => assert_eq!(f, broken()),
        other => panic!("expected the failure, got {:?}", other),
    }
    assert_eq!(s.latched_err(), Some(broken()));
}

#[test]
fn write_pauses_when_the_socket_would_block() {
    let mut s = client_stream();
    let mut op = WriteOp::new(10);
    let buf = b"hello".to_vec();
    sent_packet(&s.write(&mut op, &buf, Event::Start));
    assert!(is_receive(&s.write(&mut op, &buf, Event::Sent)));
    let step = s.write(&mut op, &buf, Event::ReceiveFailed(would_block()));
    assert!(matches!(step, Step::Io(Action::Sleep { ms: 100 })));
    assert_eq!(op.budget, 8);
}

#[test]
fn write_buffers_and_acknowledges_data_that_comes_in() {
    let mut s = client_stream();
    let mut op = WriteOp::new(10);
    let buf = b"hello".to_vec();
    sent_packet(&s.write(&mut op, &buf, Event::Start));
    assert!(is_receive(&s.write(&mut op, &buf, Event::Sent)));
    let ack = sent_packet(&s.write(&mut op, &buf, data(4, b"answer")));
    assert_eq!((ack.ptyp, ack.nseq), (PacketType::Ack, 4));
    // The round allowed for one answer; the next round sends the data again.
    assert_eq!(sent_packet(&s.write(&mut op, &buf, Event::Sent)).nseq, 3);
    assert!(is_receive(&s.write(&mut op, &buf, Event::Sent)));
    let end = s.write(&mut op, &buf, control(PacketType::Ack, 3));
    assert!(matches!(end, Step::Done(Ok(5))));
    let mut out = Vec::new();
    assert_eq!(s.deliver(&mut out, 100), 6);
    assert_eq!(out, b"answer");
}

#[test]
fn write_answers_a_syn_ack_with_the_ack_of_the_handshake() {
    let mut s = client_stream();
    let mut op = WriteOp::new(10);
    let buf = b"hello".to_vec();
    sent_packet(&s.write(&mut op, &buf, Event::Start));
    assert!(is_receive(&s.write(&mut op, &buf, Event::Sent)));
    let again = sent_packet(&s.write(&mut op, &buf, control(PacketType::SynAck, 1)));
    assert_eq!((again.ptyp, again.nseq), (PacketType::Ack, 2));
}

#[test]
fn shutdown_sends_fin_until_it_is_answered() {
    let mut s = client_stream();
    let mut op = ShutdownOp::new();
    let fin = sent_packet(&s.shutdown(&mut op, Event::Start));
    assert_eq!((fin.ptyp, fin.nseq), (PacketType::Fin, 3));
    assert!(fin.data.is_empty());
    assert!(is_receive(&s.shutdown(&mut op, Event::Sent)));
    // No answer, a wrong answer, a datagram that is no packet: again.
    let fin = sent_packet(&s.shutdown(&mut op, Event::ReceiveFailed(timed_out())));
    assert_eq!(fin.ptyp, PacketType::Fin);
    assert!(is_receive(&s.shutdown(&mut op, Event::Sent)));
    let fin = sent_packet(&s.shutdown(&mut op, control(PacketType::Ack, 3)));
    assert_eq!(fin.ptyp, PacketType::Fin);
    // A send that times out is not waited for.
    let fin = sent_packet(&s.shutdown(&mut op, Event::SendFailed(timed_out())));
    assert_eq!(fin.ptyp, PacketType::Fin);
    assert!(is_receive(&s.shutdown(&mut op, Event::Sent)));
    assert!(!s.is_closed());
    let end = s.shutdown(&mut op, control(PacketType::FinAck, 0));
    assert!(matches!(end, Step::Done(Ok(()))));
    assert!(s.is_closed());
}

#[test]
fn shutdown_closes_without_an_answer_after_thirty_fins() {
    let mut s = client_stream();
    let mut op = ShutdownOp::new();
    let mut step = s.shutdown(&mut op, Event::Start);
    let mut fins = 0;
    loop {
        match step {
            Step::Io(Action::Send { .. }) => {
                fins += 1;
                step = s.shutdown(&mut op, Event::Sent);
            }
            Step::Io(Action::Receive { .. }) => {
                step = s.shutdown(&mut op, Event::ReceiveFailed(timed_out()));
            }
            other => {
                assert!(matches!(other, Step::Done(Ok(()))));
                break;
            }
        }
    }
    assert_eq!(fins, 30);
    assert!(s.is_closed());
}

#[test]
fn shutdown_is_idempotent() {
    let mut s = client_stream();
    let mut op = ShutdownOp::new();
    s.shutdown(&mut op, Event::Start);
    s.shutdown(&mut op, Event::Sent);
    assert!(matches!(
        s.shutdown(&mut op, control(PacketType::Fin, 4)),
        Step::Done(Ok(()))
    ));
    let (next, expected, last) = (s.next_seq(), s.next_expected_seq(), s.last_seq());
    for _ in 0..3 {
        let mut op = ShutdownOp::new();
        // Nothing is sent and nothing changes.
        assert!(matches!(
            s.shutdown(&mut op, Event::Start),
            Step::Done(Ok(()))
        ));
        assert!(s.is_closed());
        assert_eq!(
            (s.next_seq(), s.next_expected_seq(), s.last_seq()),
            (next, expected, last)
        );
    }
}

#[test]
fn graceful_close_is_seen_on_the_wire() {
    let mut net = Net::new();
    let (client, server) = connect(&mut net);
    let mut writer = Script::new(client, vec![Cmd::Write(b"abc".to_vec()), Cmd::Shutdown]);
    let mut reader = Script::new(server, vec![Cmd::ReadToEnd]);
    run(&mut net, &mut [&mut writer, &mut reader]);
    assert_eq!(reader.red, b"abc");
    assert!(matches!(
        reader.counts.as_slice(),
        [Ok(3), Ok(0)] | [Ok(3)] | [Ok(3), Ok(0), ..]
    ));
    assert!(matches!(reader.counts.last(), Some(Ok(0)) | Some(Ok(3))));
    assert!(reader.stream.is_closed());
    assert!(writer.stream.is_closed());
    let fins = net.sent_of_type(PacketType::Fin);
    assert!(!fins.is_empty());
    assert_eq!(fins[0].packet.nseq, 4);
    assert!(!net.sent_of_type(PacketType::FinAck).is_empty());
}

#[test]
fn flush_sends_a_hundred_copies() {
    let s = client_stream();
    let mut op = FlushOp::new();
    let mut step = s.do_flush(&mut op, Event::Start);
    let mut copies = 0;
    while let Step::Io(Action::Send {
        datagram,
        timeout_ms,
        ..
    }) = &step
    {
        let p = Packet::from(datagram);
        assert_eq!((p.ptyp, p.nseq), (PacketType::Flush, 3));
        assert_eq!(*timeout_ms, 50);
        copies += 1;
        step = s.do_flush(&mut op, Event::SendFailed(broken()));
    }
    assert_eq!(copies, 100);
    assert!(matches!(step, Step::Done(Ok(()))));
    assert!(s.latched_err().is_none());
}

#[test]
fn flush_lets_the_reader_return() {
    let mut net = Net::new();
    let (client, server) = connect(&mut net);
    let mut writer = Script::new(client, vec![Cmd::Write(b"abc".to_vec()), Cmd::Flush]);
    let mut reader = Script::new(server, vec![Cmd::Read(100)]);
    run(&mut net, &mut [&mut writer, &mut reader]);
    assert_eq!(reader.red, b"abc");
    assert!(!net.sent_of_type(PacketType::Flush).is_empty());
    assert_eq!(net.sent_of_type(PacketType::Flush)[0].packet.nseq, 4);
}

#[test]
fn streams_send_through_the_proxy() {
    let proxy = Endpoint {
        ip: [127, 0, 0, 1],
        port: 3000,
    };
    let remote = Endpoint {
        ip: [10, 0, 0, 7],
        port: 8080,
    };
    let mut s = UdpxStream::new(client_addr(1), 3, 4, Some(proxy), remote, None);
    assert_eq!(s.dest(), proxy);
    assert_eq!(s.peer_addr(), remote);
    assert_eq!(s.proxy(), Some(proxy));
    let mut op = WriteOp::new(5);
    match s.write(&mut op, b"x", Event::Start) {
        Step::Io(Action::Send { datagram, to, .. }) => {
            assert_eq!(to, proxy);
            let p = Packet::from(&datagram);
            assert_eq!((p.peer, p.port), (remote.ip, remote.port));
        }
        other => panic!("expected a send, got {:?}", other),
    }
    let h = UdpxStream::connect_with_proxy(client_addr(1), remote, Some(proxy));
    let mut h = h;
    match h.handshake(Event::Start) {
        Step::Io(Action::Send { datagram, to, .. }) => {
            assert_eq!(to, proxy);
            let p = Packet::from(&datagram);
            assert_eq!((p.peer, p.port), (remote.ip, remote.port));
        }
        other => panic!("expected a send, got {:?}", other.is_done()),
    }
}

trait IsDone {
    fn is_done(&self) -> bool;
}

impl<T> IsDone for Step<T> {
    fn is_done(&self) -> bool {
        matches!(self, Step::Done(_))
    }
}

fn answer(ptyp: PacketType, seq: u32, payload: Vec<u8>, from: Endpoint) -> Event {
    Event::Received {
        datagram: Packet {
            ptyp,
            nseq: seq,
            peer: [127, 0, 0, 1],
            port: 1,
            data: payload,
        }
        .raw(),
        from,
    }
}

#[test]
fn reliable_send_returns_the_first_accepted_answer() {
    let peer = client_addr(2);
    let mut rs = reliable_send(
        b"ping-ping-ping",
        peer,
        50,
        &[PacketType::Ack, PacketType::Data],
        true,
        false,
        None,
        5,
    );
    match rs.step(Event::Start) {
        Step::Io(Action::Send {
            datagram,
            to,
            timeout_ms,
        }) => {
            assert_eq!(datagram, b"ping-ping-ping");
            assert_eq!(to, peer);
            assert_eq!(timeout_ms, 50);
        }
        other => panic!("expected a send, got {}", other.is_done()),
    }
    assert!(matches!(
        rs.step(Event::Sent),
        Step::Io(Action::Receive { wait_ms: Some(50) })
    ));
    match rs.step(answer(PacketType::Data, 3, b"hi".to_vec(), peer)) {
        Step::Done(Ok((p, from))) => {
            assert_eq!((p.ptyp, p.nseq), (PacketType::Data, 3));
            assert_eq!(p.data, b"hi");
            assert_eq!(from, peer);
        }
        other => panic!("expected an answer, got {}", other.is_done()),
    }
    assert!(rs.finished());
}

#[test]
fn reliable_send_takes_the_address_from_the_payload_of_a_syn_ack() {
    let peer = client_addr(2);
    let told = Endpoint {
        ip: [10, 1, 2, 3],
        port: 0x1234,
    };
    let mut rs = reliable_send(b"syn", peer, 50, &[PacketType::SynAck], false, true, None, 5);
    rs.step(Event::Start);
    rs.step(Event::Sent);
    let from = client_addr(9);
    match rs.step(answer(
        PacketType::SynAck,
        1,
        serialize_addr(told).to_vec(),
        from,
    )) {
        Step::Done(Ok((p, observed))) => {
            assert_eq!(p.ptyp, PacketType::SynAck);
            assert_eq!(observed, told);
        }
        other => panic!("expected an answer, got {}", other.is_done()),
    }
}

#[test]
fn reliable_send_passes_over_answers_from_elsewhere() {
    let peer = client_addr(2);
    let mut rs = reliable_send(b"x", peer, 50, &[PacketType::Ack], true, false, None, 2);
    rs.step(Event::Start);
    rs.step(Event::Sent);
    let step = rs.step(answer(PacketType::Ack, 2, vec![], client_addr(3)));
    assert!(matches!(step, Step::Io(Action::Send { .. })));
    rs.step(Event::Sent);
    let step = rs.step(answer(PacketType::Ack, 2, vec![], client_addr(3)));
    assert!(matches!(step, Step::Done(Err(TransportError::TimedOut))));

    // Where a mismatch is not passed over, the answer counts.
    let mut rs = reliable_send(b"x", peer, 50, &[PacketType::Ack], false, false, None, 2);
    rs.step(Event::Start);
    rs.step(Event::Sent);
    match rs.step(answer(PacketType::Ack, 2, vec![], client_addr(3))) {
        Step::Done(Ok((_, from))) => assert_eq!(from, client_addr(3)),
        other => panic!("expected an answer, got {}", other.is_done()),
    }
}

#[test]
fn reliable_send_times_out_after_its_attempts() {
    let mut rs = reliable_send(b"x", client_addr(2), 50, &[PacketType::Ack], true, false, None, 5);
    let mut step = rs.step(Event::Start);
    let mut sends = 0;
    loop {
        match step {
            Step::Io(Action::Send { .. }) => {
                sends += 1;
                step = rs.step(Event::Sent);
            }
            Step::Io(Action::Receive { .. }) => {
                step = rs.step(Event::ReceiveFailed(timed_out()));
            }
            other => {
                assert!(matches!(other, Step::Done(Err(TransportError::TimedOut))));
                break;
            }
        }
    }
    assert_eq!(sends, 5);
}

#[test]
fn reliable_send_reports_the_answers_it_did_not_accept() {
    let peer = client_addr(2);
    let mut rs = reliable_send(b"x", peer, 50, &[PacketType::Ack], true, false, None, 2);
    assert!(matches!(
        rs.step(Event::Start),
        Step::Io(Action::Send { .. })
    ));
    rs.step(Event::Sent);
    let step = rs.step(answer(PacketType::Nak, 0, vec![], peer));
    assert!(matches!(step, Step::Io(Action::Sleep { ms: 1 })));
    assert!(matches!(
        rs.step(Event::Woke),
        Step::Io(Action::Send { .. })
    ));
    rs.step(Event::Sent);
    let step = rs.step(answer(PacketType::Fin, 0, vec![], peer));
    assert!(matches!(step, Step::Io(Action::Sleep { ms: 1 })));
    match rs.step(Event::Woke) {
        Step::Done(Err(TransportError::InvalidResponses { seen })) => {
            assert_eq!(seen, vec![PacketType::Nak, PacketType::Fin]);
        }
        other => panic!("expected the unaccepted answers, got {}", other.is_done()),
    }
}

#[test]
fn reliable_send_waits_for_a_socket_that_would_block_only_where_told() {
    let peer = client_addr(2);
    let mut rs = reliable_send(b"x", peer, 50, &[PacketType::Ack], true, true, None, 2);
    rs.step(Event::Start);
    rs.step(Event::Sent);
    // Tolerated: a pause, and no attempt is lost.
    for _ in 0..2 {
        let step = rs.step(Event::ReceiveFailed(would_block()));
        assert!(matches!(step, Step::Io(Action::Sleep { ms: 10 })));
        assert!(matches!(
            rs.step(Event::Woke),
            Step::Io(Action::Send { .. })
        ));
        rs.step(Event::Sent);
    }
    // But not for ever.
    match rs.step(Event::ReceiveFailed(would_block())) {
        Step::Done(Err(TransportError::Io(f))) => assert_eq!(f, would_block()),
        other => panic!("expected the failure, got {}", other.is_done()),
    }

    let mut rs = reliable_send(b"x", peer, 50, &[PacketType::Ack], true, false, None, 2);
    rs.step(Event::Start);
    rs.step(Event::Sent);
    match rs.step(Event::ReceiveFailed(would_block())) {
        Step::Done(Err(TransportError::Io(f))) => assert_eq!(f, would_block()),
        other => panic!("expected the failure, got {}", other.is_done()),
    }
}

#[test]
fn reliable_send_ends_on_a_failure_that_no_retry_cures() {
    let peer = client_addr(2);
    let mut rs = reliable_send(b"x", peer, 50, &[PacketType::Ack], true, false, None, 5);
    rs.step(Event::Start);
    match rs.step(Event::SendFailed(broken())) {
        Step::Done(Err(TransportError::Io(f))) => assert_eq!(f, broken()),
        other => panic!("expected the failure, got {}", other.is_done()),
    }
    let mut rs = reliable_send(b"x", peer, 50, &[PacketType::Ack], true, false, None, 5);
    rs.step(Event::Start);
    rs.step(Event::Sent);
    match rs.step(Event::ReceiveFailed(broken())) {
        Step::Done(Err(TransportError::Io(f))) => assert_eq!(f, broken()),
        other => panic!("expected the failure, got {}", other.is_done()),
    }
}

#[test]
fn reliable_send_goes_through_the_proxy() {
    let proxy = Endpoint {
        ip: [127, 0, 0, 1],
        port: 3000,
    };
    let mut rs = reliable_send(
        b"x",
        client_addr(2),
        50,
        &[PacketType::Ack],
        true,
        false,
        Some(proxy),
        5,
    );
    match rs.step(Event::Start) {
        Step::Io(Action::Send { to, .. }) => assert_eq!(to, proxy),
        other => panic!("expected a send, got {}", other.is_done()),
    }
}

fn syn(seq: u32, from: Endpoint) -> Event {
    Event::Received {
        datagram: Packet {
            ptyp: PacketType::Syn,
            nseq: seq,
            peer: SERVER.ip,
            port: SERVER.port,
            data: serialize_addr(from).to_vec(),
        }
        .raw(),
        from,
    }
}

fn accept_error(event: Event) -> TransportError {
    let mut l = UdpxListener::bind(SERVER);
    let mut op = AcceptOp::new();
    assert!(matches!(
        l.accept(&mut op, Event::Start, 0),
        Step::Io(Action::Receive { wait_ms: None })
    ));
    match l.accept(&mut op, event, 0) {
        Step::Done(Err(e)) => e,
        other => panic!("expected an error, got {}", other.is_done()),
    }
}

#[test]
fn accept_refuses_what_is_no_proper_syn() {
    let from = client_addr(1);
    assert!(matches!(
        accept_error(Event::Received {
            datagram: vec![1, 2, 3],
            from
        }),
        TransportError::Malformed { size: 3 }
    ));
    assert!(matches!(
        accept_error(data(3, b"x")),
        TransportError::NotSyn {
            ptyp: PacketType::Data
        }
    ));
    assert!(matches!(
        accept_error(syn(u32::MAX - 3, from)),
        TransportError::SeqOutOfRange { seq } if seq == u32::MAX - 3
    ));
    assert!(matches!(
        accept_error(control(PacketType::Syn, 0)),
        TransportError::MissingAddress
    ));
    match accept_error(Event::ReceiveFailed(would_block())) {
        TransportError::Io(f) => assert_eq!(f, would_block()),
        other => panic!("expected the failure, got {:?}", other),
    }
}

/// Takes a listener through an accept up to the point where the SYN-ACK has
/// been sent and its answer is awaited.
fn accept_up_to_answer(l: &mut UdpxListener, op: &mut AcceptOp, seq: u32, now: u64) -> Packet {
    let local = Endpoint {
        ip: [127, 0, 0, 1],
        port: 50001,
    };
    l.accept(op, Event::Start, now);
    assert!(matches!(
        l.accept(op, syn(seq, client_addr(1)), now),
        Step::Io(Action::Bind)
    ));
    let syn_ack = sent_packet(&l.accept(op, Event::Bound(local), now));
    assert!(matches!(
        l.accept(op, Event::Sent, now),
        Step::Io(Action::Receive { wait_ms: Some(50) })
    ));
    syn_ack
}

#[test]
fn accept_checks_the_sequence_number_of_the_ack() {
    let mut l = UdpxListener::bind(SERVER);
    let mut op = AcceptOp::new();
    let syn_ack = accept_up_to_answer(&mut l, &mut op, 10, 0);
    assert_eq!((syn_ack.ptyp, syn_ack.nseq), (PacketType::SynAck, 11));
    match l.accept(&mut op, control(PacketType::Ack, 13), 0) {
        Step::Done(Err(TransportError::BadAckSeq { got, expected })) => {
            assert_eq!((got, expected), (13, 12));
        }
        other => panic!("expected a bad ACK, got {}", other.is_done()),
    }

    let mut l = UdpxListener::bind(SERVER);
    let mut op = AcceptOp::new();
    accept_up_to_answer(&mut l, &mut op, 10, 0);
    assert!(matches!(
        l.accept(&mut op, control(PacketType::Ack, 12), 0),
        Step::Io(Action::Connect { to }) if to == client_addr(1)
    ));
    match l.accept(&mut op, Event::Connected, 0) {
        Step::Done(Ok((stream, addr))) => {
            assert_eq!(addr, client_addr(1));
            assert_eq!(stream.next_seq(), 14);
            assert_eq!(stream.next_expected_seq(), 13);
        }
        other => panic!("expected a stream, got {}", other.is_done()),
    }
}

#[test]
fn accept_fails_when_the_syn_ack_finds_no_answer() {
    let mut l = UdpxListener::bind(SERVER).with_timeout(7);
    assert_eq!(l.timeout(), 7);
    let mut op = AcceptOp::new();
    l.accept(&mut op, Event::Start, 0);
    l.accept(&mut op, syn(0, client_addr(1)), 0);
    let mut step = l.accept(
        &mut op,
        Event::Bound(Endpoint {
            ip: [127, 0, 0, 1],
            port: 50001,
        }),
        0,
    );
    let mut sends = 0;
    loop {
        match step {
            Step::Io(Action::Send { timeout_ms, .. }) => {
                assert_eq!(timeout_ms, 7);
                sends += 1;
                step = l.accept(&mut op, Event::Sent, 0);
            }
            Step::Io(Action::Receive { .. }) => {
                step = l.accept(&mut op, Event::ReceiveFailed(timed_out()), 0);
            }
            other => {
                assert!(matches!(other, Step::Done(Err(TransportError::TimedOut))));
                break;
            }
        }
    }
    assert_eq!(sends, 30);
}

#[test]
fn accept_fails_when_no_socket_can_be_bound_or_connected() {
    let mut l = UdpxListener::bind(SERVER);
    let mut op = AcceptOp::new();
    l.accept(&mut op, Event::Start, 0);
    l.accept(&mut op, syn(0, client_addr(1)), 0);
    match l.accept(&mut op, Event::BindFailed(broken()), 0) {
        Step::Done(Err(TransportError::Io(f))) => assert_eq!(f, broken()),
        other => panic!("expected the failure, got {}", other.is_done()),
    }

    let mut l = UdpxListener::bind(SERVER);
    let mut op = AcceptOp::new();
    accept_up_to_answer(&mut l, &mut op, 0, 0);
    l.accept(&mut op, control(PacketType::Ack, 2), 0);
    match l.accept(&mut op, Event::ConnectFailed(broken()), 0) {
        Step::Done(Err(TransportError::Io(f))) => assert_eq!(f, broken()),
        other => panic!("expected the failure, got {}", other.is_done()),
    }
}

#[test]
fn equal_syns_within_two_seconds_make_one_stream() {
    let mut l = UdpxListener::bind(SERVER);
    let p = Packet::from(&match syn(0, client_addr(1)) {
        Event::Received { datagram, .. } => datagram,
        _ => unreachable!(),
    });
    let other = Packet::from(&match syn(0, client_addr(2)) {
        Event::Received { datagram, .. } => datagram,
        _ => unreachable!(),
    });
    assert!(l.take_syn(&p, 10_000));
    assert!(!l.take_syn(&p, 10_000));
    assert!(l.take_syn(&other, 10_500));
    assert!(!l.take_syn(&p, 11_999));
    // A refusal does not start the two seconds anew.
    assert!(l.take_syn(&p, 12_000));
    assert!(!l.take_syn(&p, 13_999));
    assert!(!l.take_syn(&other, 12_499));
    assert!(l.take_syn(&other, 12_500));
    // A clock that goes backwards counts as no time gone.
    assert!(!l.take_syn(&p, 5));
}

#[test]
fn a_second_accept_refuses_the_same_syn() {
    let mut l = UdpxListener::bind(SERVER);
    let mut op = AcceptOp::new();
    accept_up_to_answer(&mut l, &mut op, 0, 1000);
    let mut op = AcceptOp::new();
    l.accept(&mut op, Event::Start, 1500);
    assert!(matches!(
        l.accept(&mut op, syn(0, client_addr(1)), 1500),
        Step::Done(Err(TransportError::DuplicateSyn))
    ));
    let mut op = AcceptOp::new();
    l.accept(&mut op, Event::Start, 3000);
    assert!(matches!(
        l.accept(&mut op, syn(0, client_addr(1)), 3000),
        Step::Io(Action::Bind)
    ));
}

#[test]
fn listener_remembers_its_settings() {
    let proxy = Endpoint {
        ip: [127, 0, 0, 1],
        port: 3000,
    };
    let mut l = UdpxListener::bind_with_proxy(SERVER, Some(proxy));
    assert_eq!(l.local_addr(), SERVER);
    assert_eq!(l.timeout(), 50);
    assert!(!l.nonblocking());
    l.set_nonblocking(true);
    assert!(l.nonblocking());
    // The SYN-ACK goes to the proxy, addressed to the client.
    let mut op = AcceptOp::new();
    l.accept(&mut op, Event::Start, 0);
    l.accept(&mut op, syn(0, client_addr(1)), 0);
    match l.accept(&mut op, Event::Bound(client_addr(7)), 0) {
        Step::Io(Action::Send { datagram, to, .. }) => {
            assert_eq!(to, proxy);
            let p = Packet::from(&datagram);
            assert_eq!((p.peer, p.port), (client_addr(1).ip, client_addr(1).port));
            assert_eq!(p.data, serialize_addr(client_addr(7)).to_vec());
        }
        other => panic!("expected a send, got {}", other.is_done()),
    }
}

#[test]
fn client_handshake_fails_when_the_server_is_silent() {
    let mut h: ClientHandshake = UdpxStream::connect(client_addr(1), SERVER);
    let mut step = h.handshake(Event::Start);
    let mut sends = 0;
    loop {
        match step {
            Step::Io(Action::Send { .. }) => {
                sends += 1;
                step = h.handshake(Event::Sent);
            }
            Step::Io(Action::Receive { .. }) => {
                step = h.handshake(Event::ReceiveFailed(timed_out()));
            }
            other => {
                assert!(matches!(other, Step::Done(Err(TransportError::TimedOut))));
                break;
            }
        }
    }
    assert_eq!(sends, 30);
    assert!(h.finished());
}

#[test]
fn client_handshake_fails_when_the_socket_fails() {
    let told = Endpoint {
        ip: [127, 0, 0, 1],
        port: 50001,
    };
    let connect = || {
        let mut h = UdpxStream::connect(client_addr(1), SERVER);
        h.handshake(Event::Start);
        h.handshake(Event::Sent);
        let step = h.handshake(answer(
            PacketType::SynAck,
            1,
            serialize_addr(told).to_vec(),
            told,
        ));
        assert!(matches!(step, Step::Io(Action::Connect { to }) if to == told));
        h
    };
    let mut h = connect();
    match h.handshake(Event::ConnectFailed(broken())) {
        Step::Done(Err(TransportError::Io(f))) => assert_eq!(f, broken()),
        other => panic!("expected the failure, got {}", other.is_done()),
    }
    let mut h = connect();
    let ack = sent_packet(&h.handshake(Event::Connected));
    assert_eq!((ack.ptyp, ack.nseq), (PacketType::Ack, 2));
    match h.handshake(Event::SendFailed(timed_out())) {
        Step::Done(Err(TransportError::Io(f))) => assert_eq!(f, timed_out()),
        other => panic!("expected the failure, got {}", other.is_done()),
    }
    let mut h = connect();
    h.handshake(Event::Connected);
    match h.handshake(Event::Sent) {
        Step::Done(Ok(s)) => {
            assert_eq!(s.peer_addr(), told);
            assert_eq!(s.local_addr(), client_addr(1));
        }
        other => panic!("expected a stream, got {}", other.is_done()),
    }
}

#[test]
fn addresses_travel_with_the_low_byte_of_the_port_first() {
    let e = Endpoint {
        ip: [192, 168, 2, 1],
        port: 0x1F90,
    };
    assert_eq!(serialize_addr(e), [192, 168, 2, 1, 0x90, 0x1F]);
    assert_eq!(deserialize_addr(&[192, 168, 2, 1, 0x90, 0x1F]), e);
    assert_eq!(deserialize_addr(&[192, 168, 2, 1, 0x90, 0x1F, 7, 7]), e);
    assert_eq!(try_deserialize_addr(&[192, 168, 2, 1, 0x90, 0x1F]), Some(e));
    assert_eq!(try_deserialize_addr(&[192, 168, 2, 1, 0x90]), None);
    assert_eq!(try_deserialize_addr(&[]), None);
    for port in [0u16, 1, 255, 256, 65535] {
        let e = Endpoint {
            ip: [0, 255, 1, 254],
            port,
        };
        assert_eq!(deserialize_addr(&serialize_addr(e)), e);
    }
    // In the header the port travels with its high byte first.
    let p = Packet {
        port: 0x1F90,
        ..Default::default()
    };
    assert_eq!(&p.raw()[9..11], &[0x1F, 0x90]);
    assert_eq!(p.peer_addr().port, 0x1F90);
}

#[test]
fn endpoints_compare_by_address_and_port() {
    let e = client_addr(1);
    assert!(e.same(&client_addr(1)));
    assert!(!e.same(&client_addr(2)));
    assert!(!e.same(&Endpoint {
        ip: [127, 0, 1, 1],
        port: e.port
    }));
}

#[test]
fn only_other_failures_are_for_good() {
    assert!(timed_out().is_transient());
    assert!(would_block().is_transient());
    assert!(IoFailure {
        kind: IoErrorKind::Interrupted,
        code: 4
    }
    .is_transient());
    assert!(!broken().is_transient());
}

#[test]
fn echo_survives_a_network_that_reorders_loses_and_doubles() {
    let mut net = Net::new();
    let (client, server) = connect(&mut net);
    net.shuffle = true;
    net.copies = 2;
    let mut count = 0;
    net.lose = Box::new(move |sent| {
        count += 1;
        sent.packet.ptyp != PacketType::Fin && count % 4 == 0
    });
    let msg = random_string(30_000);
    let mut writer = Script::new(
        client,
        vec![Cmd::Write(msg.as_bytes().to_vec()), Cmd::Shutdown],
    );
    let mut reader = Script::new(server, vec![Cmd::ReadToEnd]);
    run(&mut net, &mut [&mut writer, &mut reader]);
    assert_eq!(writer.counts.len(), 1);
    assert!(matches!(writer.counts[0], Ok(30_000)));
    assert_eq!(msg.as_bytes(), reader.red.as_slice());
}

#[test]
fn both_sides_talk() {
    let mut net = Net::new();
    let (client, server) = connect(&mut net);
    let request = random_string(3000);
    let response = random_string(5000);
    let mut asking = Script::new(
        client,
        vec![Cmd::Write(request.as_bytes().to_vec()), Cmd::ReadToEnd],
    );
    let mut answering = Script::new(
        server,
        vec![
            Cmd::Read(3000),
            Cmd::Write(response.as_bytes().to_vec()),
            Cmd::Shutdown,
        ],
    );
    run(&mut net, &mut [&mut asking, &mut answering]);
    assert_eq!(answering.red, request.as_bytes());
    assert_eq!(asking.red, response.as_bytes());
    // The client numbers its data from 3, the server from 4.
    let data = net.sent_of_type(PacketType::Data);
    let from_client = data.iter().filter(|d| d.from == client_addr(1));
    let from_server = data.iter().filter(|d| d.from != client_addr(1));
    assert_eq!(from_client.map(|d| d.packet.nseq).min(), Some(3));
    assert_eq!(from_server.map(|d| d.packet.nseq).min(), Some(4));
    assert!(asking.stream.is_closed());
}

#[test]
fn write_buffers_data_wherever_the_reader_stands() {
    let mut s = client_stream();
    assert_eq!(s.next_expected_seq(), 4);
    let mut op = WriteOp::new(10);
    let buf = b"hello".to_vec();
    sent_packet(&s.write(&mut op, &buf, Event::Start));
    assert!(is_receive(&s.write(&mut op, &buf, Event::Sent)));
    // A packet behind the reader is acknowledged and kept under its number.
    let ack = sent_packet(&s.write(&mut op, &buf, data(2, b"stale")));
    assert_eq!((ack.ptyp, ack.nseq), (PacketType::Ack, 2));
    assert!(s.is_buffered(2));
    assert_eq!(op.written, 0);
    // What is held under a number is not replaced.
    sent_packet(&s.write(&mut op, &buf, Event::Sent));
    assert!(is_receive(&s.write(&mut op, &buf, Event::Sent)));
    sent_packet(&s.write(&mut op, &buf, data(4, b"first")));
    sent_packet(&s.write(&mut op, &buf, Event::Sent));
    assert!(is_receive(&s.write(&mut op, &buf, Event::Sent)));
    sent_packet(&s.write(&mut op, &buf, data(4, b"second")));
    assert!(s.is_buffered(4));
    assert_eq!(op.written, 0);
    // The reader never looks behind itself.
    let mut out = Vec::new();
    assert_eq!(s.deliver(&mut out, 100), 5);
    assert_eq!(out, b"first");
    assert!(s.is_buffered(2));
    assert!(!s.is_buffered(4));
}

#[test]
fn read_discards_data_behind_the_reader() {
    let mut s = server_stream();
    let mut op = ReadOp::new(100, 50);
    let mut out = Vec::new();
    assert!(is_receive(&s.read(&mut op, &mut out, Event::Start)));
    let ack = sent_packet(&s.read(&mut op, &mut out, data(2, b"stale")));
    assert_eq!((ack.ptyp, ack.nseq), (PacketType::Ack, 2));
    assert!(!s.is_buffered(2));
}

#[test]
fn starting_data_is_held_under_its_number() {
    let p = |seq: u32, ptyp: PacketType, payload: &[u8]| Packet {
        ptyp,
        nseq: seq,
        peer: [127, 0, 0, 1],
        port: 1,
        data: payload.to_vec(),
    };
    let mut s = server_stream().with_starting_data(vec![
        p(3, PacketType::Data, b"abc"),
        p(5, PacketType::Ack, b"no data"),
        p(1, PacketType::Data, b"behind"),
    ]);
    assert!(s.is_buffered(3));
    assert!(!s.is_buffered(5));
    assert!(s.is_buffered(1));
    let mut out = Vec::new();
    assert_eq!(s.deliver(&mut out, 100), 3);
    assert_eq!(out, b"abc");
}

#[test]
fn several_writes_are_read_in_reads_of_any_size() {
    let mut net = Net::new();
    let (client, server) = connect(&mut net);
    net.shuffle = true;
    net.copies = 2;
    let parts = [random_string(1500), random_string(10), random_string(3000)];
    let mut todo: Vec<Cmd> = parts
        .iter()
        .map(|p| Cmd::Write(p.as_bytes().to_vec()))
        .collect();
    todo.push(Cmd::Shutdown);
    let mut writer = Script::new(client, todo);
    let mut reader = Script::new(
        server,
        vec![
            Cmd::Read(1),
            Cmd::Read(1013),
            Cmd::Read(2),
            Cmd::Read(2000),
            Cmd::ReadToEnd,
        ],
    );
    run(&mut net, &mut [&mut writer, &mut reader]);
    assert_eq!(parts.concat().as_bytes(), reader.red.as_slice());
    assert!(matches!(reader.counts[0], Ok(1)));
    assert!(matches!(reader.counts.last(), Some(Ok(0))));
}
