//! The wire packet: an 11-byte header followed by at most 1014 payload bytes.
//!
//! ```text
//! byte 0      packet type
//! bytes 1..5  sequence number, big-endian
//! bytes 5..9  IPv4 address of the intended endpoint
//! bytes 9..11 port of the intended endpoint, big-endian
//! bytes 11..  payload
//! ```

use crate::parse::{is_word, same_word};
use crate::transport::Endpoint;
use vstd::arithmetic::div_mod::lemma_fundamental_div_mod_converse;
use vstd::prelude::*;
use vstd::std_specs::cmp::PartialEqSpecImpl;
use vstd::std_specs::convert::FromSpecImpl;
use vstd::utf8::encode_utf8;

verus! {

/// The size of a packet with an empty payload.
pub const MIN_PACKET_SIZE: usize = 11;

/// The largest payload a single packet carries.
pub const PACKET_DATA_CAPACITY: usize = 1014;

/// The size of a packet with a full payload.
pub const MAX_PACKET_SIZE: usize = 1025;

/// The kind of a packet, carried in the first header byte.
#[derive(Debug, PartialEq, Eq, Structural, PartialOrd, Ord, Hash, Clone, Copy)]
pub enum PacketType {
    Ack,
    Syn,
    SynAck,
    Nak,
    Data,
    Fin,
    FinAck,
    Flush,
    Invalid,
}

/// The header byte that stands for a packet type.
pub open spec fn type_code(t: PacketType) -> u8 {
    match t {
        PacketType::Ack => 0,
        PacketType::Syn => 1,
        PacketType::SynAck => 2,
        PacketType::Nak => 3,
        PacketType::Data => 4,
        PacketType::Fin => 5,
        PacketType::FinAck => 6,
        PacketType::Flush => 7,
        PacketType::Invalid => 0xFF,
    }
}

/// The packet type that a header byte stands for; every unassigned byte is
/// `Invalid`.
pub open spec fn type_of_code(b: u8) -> PacketType {
    match b {
        0 => PacketType::Ack,
        1 => PacketType::Syn,
        2 => PacketType::SynAck,
        3 => PacketType::Nak,
        4 => PacketType::Data,
        5 => PacketType::Fin,
        6 => PacketType::FinAck,
        7 => PacketType::Flush,
        _ => PacketType::Invalid,
    }
}

impl From<u8> for PacketType {
    fn from(b: u8) -> (t: PacketType) {
        match b {
            0 => PacketType::Ack,
            1 => PacketType::Syn,
            2 => PacketType::SynAck,
            3 => PacketType::Nak,
            4 => PacketType::Data,
            5 => PacketType::Fin,
            6 => PacketType::FinAck,
            7 => PacketType::Flush,
            _ => PacketType::Invalid,
        }
    }
}

impl FromSpecImpl<u8> for PacketType {
    open spec fn obeys_from_spec() -> bool {
        true
    }

    open spec fn from_spec(b: u8) -> PacketType {
        type_of_code(b)
    }
}

impl From<PacketType> for u8 {
    fn from(t: PacketType) -> (b: u8) {
        match t {
            PacketType::Ack => 0,
            PacketType::Syn => 1,
            PacketType::SynAck => 2,
            PacketType::Nak => 3,
            PacketType::Data => 4,
            PacketType::Fin => 5,
            PacketType::FinAck => 6,
            PacketType::Flush => 7,
            PacketType::Invalid => u8::MAX,
        }
    }
}

impl FromSpecImpl<PacketType> for u8 {
    open spec fn obeys_from_spec() -> bool {
        true
    }

    open spec fn from_spec(t: PacketType) -> u8 {
        type_code(t)
    }
}

/// The packet type that a name stands for, in any mix of upper and lower
/// case; a name that is not known stands for `Data`.
pub open spec fn type_of_name(name: Seq<u8>) -> PacketType {
    if same_word(name, encode_utf8("ack"@)) {
        PacketType::Ack
    } else if same_word(name, encode_utf8("syn"@)) {
        PacketType::Syn
    } else if same_word(name, encode_utf8("synack"@)) || same_word(
        name,
        encode_utf8("syn-ack"@),
    ) {
        PacketType::SynAck
    } else if same_word(name, encode_utf8("nak"@)) {
        PacketType::Nak
    } else if same_word(name, encode_utf8("fin"@)) {
        PacketType::Fin
    } else if same_word(name, encode_utf8("finack"@)) || same_word(
        name,
        encode_utf8("fin-ack"@),
    ) {
        PacketType::FinAck
    } else {
        PacketType::Data
    }
}

impl<'a> From<&'a str> for PacketType {
    fn from(s: &'a str) -> (t: PacketType) {
        let name = s.as_bytes();
        if is_word(name, "ack".as_bytes()) {
            PacketType::Ack
        } else if is_word(name, "syn".as_bytes()) {
            PacketType::Syn
        } else if is_word(name, "synack".as_bytes()) || is_word(name, "syn-ack".as_bytes()) {
            PacketType::SynAck
        } else if is_word(name, "nak".as_bytes()) {
            PacketType::Nak
        } else if is_word(name, "fin".as_bytes()) {
            PacketType::Fin
        } else if is_word(name, "finack".as_bytes()) || is_word(name, "fin-ack".as_bytes()) {
            PacketType::FinAck
        } else {
            PacketType::Data
        }
    }
}

impl<'a> FromSpecImpl<&'a str> for PacketType {
    open spec fn obeys_from_spec() -> bool {
        true
    }

    open spec fn from_spec(s: &'a str) -> PacketType {
        type_of_name(encode_utf8(s@))
    }
}

impl From<String> for PacketType {
    fn from(s: String) -> (t: PacketType) {
        PacketType::from(s.as_str())
    }
}

impl FromSpecImpl<String> for PacketType {
    open spec fn obeys_from_spec() -> bool {
        true
    }

    open spec fn from_spec(s: String) -> PacketType {
        type_of_name(encode_utf8(s@))
    }
}

impl Default for PacketType {
    fn default() -> (t: PacketType)
        ensures
            t == PacketType::Data,
    {
        PacketType::Data
    }
}

/// Every packet type survives the trip through its header byte.
pub proof fn lemma_type_code_round_trip(t: PacketType)
    ensures
        type_of_code(type_code(t)) == t,
{
}

/// The four bytes of a 32-bit number, most significant first.
pub open spec fn be32(v: u32) -> Seq<u8> {
    seq![
        (v / 0x100_0000) as u8,
        ((v / 0x1_0000) % 0x100) as u8,
        ((v / 0x100) % 0x100) as u8,
        (v % 0x100) as u8,
    ]
}

/// The number whose big-endian bytes are the first four of `b`.
pub open spec fn from_be32(b: Seq<u8>) -> u32 {
    (b[0] * 0x100_0000 + b[1] * 0x1_0000 + b[2] * 0x100 + b[3]) as u32
}

/// The two bytes of a 16-bit number, most significant first.
pub open spec fn be16(v: u16) -> Seq<u8> {
    seq![(v / 0x100) as u8, (v % 0x100) as u8]
}

/// The number whose big-endian bytes are the first two of `b`.
pub open spec fn from_be16(b: Seq<u8>) -> u16 {
    (b[0] * 0x100 + b[1]) as u16
}

/// The big-endian bytes of a 32-bit number give the number back.
pub proof fn lemma_be32_round_trip(v: u32)
    ensures
        be32(v).len() == 4,
        from_be32(be32(v)) == v,
{
    let a = v as int / 0x100_0000;
    let b = (v as int / 0x1_0000) % 0x100;
    let c = (v as int / 0x100) % 0x100;
    let d = v as int % 0x100;
    assert(v as int == a * 0x100_0000 + b * 0x1_0000 + c * 0x100 + d);
}

/// The big-endian bytes of a 16-bit number give the number back.
pub proof fn lemma_be16_round_trip(v: u16)
    ensures
        be16(v).len() == 2,
        from_be16(be16(v)) == v,
{
}

/// Four bytes are the big-endian bytes of the number they stand for.
pub proof fn lemma_be32_inverse(b: Seq<u8>)
    requires
        b.len() == 4,
    ensures
        be32(from_be32(b)) == b,
{
    let v = from_be32(b) as int;
    let low3 = b[1] * 0x1_0000 + b[2] * 0x100 + b[3];
    let low2 = b[2] * 0x100 + b[3];
    assert(v == b[0] * 0x100_0000 + low3);
    lemma_fundamental_div_mod_converse(v, 0x100_0000, b[0] as int, low3);
    lemma_fundamental_div_mod_converse(v, 0x1_0000, b[0] * 0x100 + b[1], low2);
    lemma_fundamental_div_mod_converse(b[0] * 0x100 + b[1], 0x100, b[0] as int, b[1] as int);
    lemma_fundamental_div_mod_converse(
        v,
        0x100,
        b[0] * 0x1_0000 + b[1] * 0x100 + b[2],
        b[3] as int,
    );
    lemma_fundamental_div_mod_converse(
        b[0] * 0x1_0000 + b[1] * 0x100 + b[2],
        0x100,
        b[0] * 0x100 + b[1],
        b[2] as int,
    );
    assert(be32(from_be32(b)) =~= b);
}

/// Two bytes are the big-endian bytes of the number they stand for.
pub proof fn lemma_be16_inverse(b: Seq<u8>)
    requires
        b.len() == 2,
    ensures
        be16(from_be16(b)) == b,
{
    let v = from_be16(b) as int;
    lemma_fundamental_div_mod_converse(v, 0x100, b[0] as int, b[1] as int);
    assert(be16(from_be16(b)) =~= b);
}

/// One unit of transmission.
#[derive(Debug)]
pub struct Packet {
    /// Packet type.
    pub ptyp: PacketType,
    /// Sequence number.
    pub nseq: u32,
    /// IPv4 address of the intended endpoint.
    pub peer: [u8; 4],
    /// Port of the intended endpoint.
    pub port: u16,
    /// Payload.
    pub data: Vec<u8>,
}

/// A packet as a mathematical value: the payload is a sequence of bytes.
pub struct PacketView {
    pub ptyp: PacketType,
    pub nseq: u32,
    pub peer: [u8; 4],
    pub port: u16,
    pub data: Seq<u8>,
}

impl View for Packet {
    type V = PacketView;

    open spec fn view(&self) -> PacketView {
        PacketView {
            ptyp: self.ptyp,
            nseq: self.nseq,
            peer: self.peer,
            port: self.port,
            data: self.data@,
        }
    }
}

impl PacketView {
    /// A packet that may travel: its type is a known one and its payload fits
    /// in one datagram.
    pub open spec fn well_formed(self) -> bool {
        &&& self.ptyp != PacketType::Invalid
        &&& self.data.len() <= PACKET_DATA_CAPACITY
    }
}

/// The bytes that stand for a packet on the wire.
pub open spec fn spec_encode(p: PacketView) -> Seq<u8> {
    seq![type_code(p.ptyp)] + be32(p.nseq) + p.peer@ + be16(p.port) + p.data
}

/// The packet that a datagram stands for, if it holds a whole header.
pub open spec fn spec_decode(b: Seq<u8>) -> Option<PacketView> {
    if b.len() < MIN_PACKET_SIZE {
        None
    } else {
        Some(
            PacketView {
                ptyp: type_of_code(b[0]),
                nseq: from_be32(b.subrange(1, 5)),
                peer: [b[5], b[6], b[7], b[8]],
                port: from_be16(b.subrange(9, 11)),
                data: b.subrange(11, b.len() as int),
            },
        )
    }
}

/// Decoding undoes encoding: for every packet `p`, well-formed or not,
/// `decode(encode(p))` is `p`.
pub proof fn lemma_decode_encode(p: PacketView)
    ensures
        spec_decode(spec_encode(p)) == Some(p),
{
    let b = spec_encode(p);
    lemma_be32_round_trip(p.nseq);
    lemma_be16_round_trip(p.port);
    assert(b.subrange(1, 5) =~= be32(p.nseq));
    assert(b.subrange(9, 11) =~= be16(p.port));
    assert(b.subrange(11, b.len() as int) =~= p.data);
    let q = spec_decode(b).unwrap();
    assert(q.ptyp == p.ptyp);
    assert(q.peer =~= p.peer);
}

/// An encoded packet is its payload behind an 11-byte header, so a
/// well-formed packet fills between 11 and 1025 bytes.
pub proof fn lemma_encoded_len(p: PacketView)
    ensures
        spec_encode(p).len() == MIN_PACKET_SIZE + p.data.len(),
        p.well_formed() ==> MIN_PACKET_SIZE <= spec_encode(p).len() <= MAX_PACKET_SIZE,
{
}

/// Encoding undoes decoding whenever the type byte is an assigned one (or
/// `0xFF`, the byte of `Invalid`).
pub proof fn lemma_encode_decode(b: Seq<u8>)
    requires
        b.len() >= MIN_PACKET_SIZE,
        type_code(type_of_code(b[0])) == b[0],
    ensures
        spec_encode(spec_decode(b).unwrap()) == b,
{
    let p = spec_decode(b).unwrap();
    let e = spec_encode(p);
    lemma_be32_inverse(b.subrange(1, 5));
    lemma_be16_inverse(b.subrange(9, 11));
    assert(e.len() == b.len());
    assert forall|i: int| 0 <= i < b.len() implies e[i] == b[i] by {
        if i == 0 {
        } else if i < 5 {
            assert(e[i] == be32(p.nseq)[i - 1]);
            assert(b.subrange(1, 5)[i - 1] == b[i]);
        } else if i < 9 {
            assert(e[i] == p.peer@[i - 5]);
        } else if i < 11 {
            assert(e[i] == be16(p.port)[i - 9]);
            assert(b.subrange(9, 11)[i - 9] == b[i]);
        } else {
            assert(e[i] == p.data[i - 11]);
        }
    }
    assert(e =~= b);
}

/// Why a datagram is no packet: it is shorter than a header.
#[derive(Debug, PartialEq, Eq, Structural, Clone, Copy)]
pub struct MalformedPacket {
    /// The length of the datagram that was refused.
    pub size: usize,
}

/// Why a packet could not be written into a buffer: the buffer is shorter
/// than the encoded packet.
#[derive(Debug, PartialEq, Eq, Structural, Clone, Copy)]
pub struct BufferTooSmall {
    /// The number of bytes the packet needs.
    pub needed: usize,
    /// The number of bytes the buffer has.
    pub available: usize,
}

/// Appends the big-endian bytes of `v` to `out`.
fn push_be32(out: &mut Vec<u8>, v: u32)
    ensures
        final(out)@ == old(out)@ + be32(v),
{
    out.push((v / 0x100_0000) as u8);
    out.push(((v / 0x1_0000) % 0x100) as u8);
    out.push(((v / 0x100) % 0x100) as u8);
    out.push((v % 0x100) as u8);
    assert(out@ =~= old(out)@ + be32(v));
}

/// Appends the big-endian bytes of `v` to `out`.
fn push_be16(out: &mut Vec<u8>, v: u16)
    ensures
        final(out)@ == old(out)@ + be16(v),
{
    out.push((v / 0x100) as u8);
    out.push((v % 0x100) as u8);
    assert(out@ =~= old(out)@ + be16(v));
}

/// Appends every byte of `src` to `out`.
pub fn extend_from(out: &mut Vec<u8>, src: &[u8])
    ensures
        final(out)@ == old(out)@ + src@,
{
    let mut i: usize = 0;
    while i < src.len()
        invariant
            i <= src.len(),
            out@ == old(out)@ + src@.subrange(0, i as int),
        decreases src.len() - i,
    {
        out.push(src[i]);
        i += 1;
        assert(out@ =~= old(out)@ + src@.subrange(0, i as int));
    }
    assert(src@.subrange(0, src.len() as int) =~= src@);
}

/// A copy of the bytes `src[from..to]`.
pub fn copy_range(src: &[u8], from: usize, to: usize) -> (out: Vec<u8>)
    requires
        from <= to <= src.len(),
    ensures
        out@ == src@.subrange(from as int, to as int),
{
    let mut out: Vec<u8> = Vec::new();
    let mut i: usize = from;
    while i < to
        invariant
            from <= i <= to <= src.len(),
            out@ == src@.subrange(from as int, i as int),
        decreases to - i,
    {
        out.push(src[i]);
        i += 1;
        assert(out@ =~= src@.subrange(from as int, i as int));
    }
    out
}

impl Packet {
    /// The size of a packet with an empty payload.
    pub const MIN_PACKET_SIZE: usize = 11;

    /// The size of a packet with a full payload.
    pub const MAX_PACKET_SIZE: usize = 1025;

    /// The largest payload a single packet carries.
    pub const PACKET_DATA_CAPACITY: usize = 1014;

    /// The number of bytes this packet fills on the wire.
    pub fn len(&self) -> (n: usize)
        requires
            self.data@.len() + MIN_PACKET_SIZE <= usize::MAX,
        ensures
            n == spec_encode(self@).len(),
            n == self.data@.len() + MIN_PACKET_SIZE,
    {
        self.data.len() + MIN_PACKET_SIZE
    }

    /// The endpoint that this packet is meant for.
    pub fn peer_addr(&self) -> (e: Endpoint)
        ensures
            e == (Endpoint { ip: self.peer, port: self.port }),
    {
        Endpoint { ip: self.peer, port: self.port }
    }

    /// A packet is never empty: it always has its header.
    pub fn is_empty(&self) -> (b: bool)
        ensures
            !b,
    {
        false
    }

    /// Serializes the whole packet.
    pub fn raw(&self) -> (out: Vec<u8>)
        ensures
            out@ == spec_encode(self@),
            out@.len() == MIN_PACKET_SIZE + self.data@.len(),
    {
        let mut out: Vec<u8> = Vec::new();
        out.push(u8::from(self.ptyp));
        push_be32(&mut out, self.nseq);
        out.push(self.peer[0]);
        out.push(self.peer[1]);
        out.push(self.peer[2]);
        out.push(self.peer[3]);
        assert(out@ =~= seq![type_code(self.ptyp)] + be32(self.nseq) + self.peer@);
        push_be16(&mut out, self.port);
        extend_from(&mut out, self.data.as_slice());
        out
    }

    /// Writes the serialized packet over the front of `buf` and returns how
    /// many bytes it took. A buffer that is too short is left as it was.
    pub fn write_to(&self, buf: &mut Vec<u8>) -> (r: Result<usize, BufferTooSmall>)
        ensures
            match r {
                Ok(n) => {
                    &&& n == spec_encode(self@).len()
                    &&& n <= old(buf)@.len()
                    &&& final(buf)@ == spec_encode(self@) + old(buf)@.subrange(
                        n as int,
                        old(buf)@.len() as int,
                    )
                },
                Err(e) => {
                    &&& spec_encode(self@).len() > old(buf)@.len()
                    &&& e.needed == spec_encode(self@).len()
                    &&& e.available == old(buf)@.len()
                    &&& final(buf)@ == old(buf)@
                },
            },
    {
        let bytes = self.raw();
        let n = bytes.len();
        if n > buf.len() {
            return Err(BufferTooSmall { needed: n, available: buf.len() });
        }
        let mut i: usize = 0;
        while i < n
            invariant
                i <= n,
                n == bytes@.len(),
                n <= buf@.len(),
                buf@.len() == old(buf)@.len(),
                buf@ == bytes@.subrange(0, i as int) + old(buf)@.subrange(
                    i as int,
                    old(buf)@.len() as int,
                ),
            decreases n - i,
        {
            buf.set(i, bytes[i]);
            i += 1;
            assert(buf@ =~= bytes@.subrange(0, i as int) + old(buf)@.subrange(
                i as int,
                old(buf)@.len() as int,
            ));
        }
        assert(bytes@.subrange(0, n as int) =~= bytes@);
        Ok(n)
    }

    /// Reads a packet from a datagram. Only a datagram shorter than a header
    /// is refused; an unassigned type byte gives the type `Invalid`.
    pub fn try_from(buf: &[u8]) -> (r: Result<Packet, MalformedPacket>)
        ensures
            match r {
                Ok(p) => spec_decode(buf@) == Some(p@),
                Err(e) => spec_decode(buf@) is None && e.size == buf@.len(),
            },
    {
        if buf.len() < MIN_PACKET_SIZE {
            return Err(MalformedPacket { size: buf.len() });
        }
        let nseq: u32 = (buf[1] as u32) * 0x100_0000 + (buf[2] as u32) * 0x1_0000 + (buf[3] as u32)
            * 0x100 + (buf[4] as u32);
        let port: u16 = (buf[9] as u16) * 0x100 + (buf[10] as u16);
        let p = Packet {
            ptyp: PacketType::from(buf[0]),
            nseq,
            peer: [buf[5], buf[6], buf[7], buf[8]],
            port,
            data: copy_range(buf, MIN_PACKET_SIZE, buf.len()),
        };
        assert(p@.peer =~= spec_decode(buf@).unwrap().peer);
        assert(buf@.subrange(1, 5) =~= seq![buf@[1], buf@[2], buf@[3], buf@[4]]);
        assert(buf@.subrange(9, 11) =~= seq![buf@[9], buf@[10]]);
        Ok(p)
    }

    /// Reads a packet from a datagram that is known to hold a whole header.
    pub fn from(buf: &[u8]) -> (p: Packet)
        requires
            buf@.len() >= MIN_PACKET_SIZE,
        ensures
            spec_decode(buf@) == Some(p@),
    {
        Packet::try_from(buf).unwrap()
    }
}

impl Default for Packet {
    /// An empty data packet with sequence number 0, addressed to port 0 of
    /// the local host.
    fn default() -> (p: Packet)
        ensures
            p@ == (PacketView {
                ptyp: PacketType::Data,
                nseq: 0,
                peer: [127u8, 0u8, 0u8, 1u8],
                port: 0,
                data: Seq::empty(),
            }),
    {
        let p = Packet {
            ptyp: PacketType::Data,
            nseq: 0,
            peer: [127, 0, 0, 1],
            port: 0,
            data: Vec::new(),
        };
        assert(p@.peer =~= [127u8, 0u8, 0u8, 1u8]);
        p
    }
}

impl Clone for Packet {
    fn clone(&self) -> (p: Packet)
        ensures
            p@ == self@,
    {
        let data = copy_range(self.data.as_slice(), 0, self.data.len());
        assert(data@ =~= self.data@);
        Packet { ptyp: self.ptyp, nseq: self.nseq, peer: self.peer, port: self.port, data }
    }
}

impl PartialEq for Packet {
    fn eq(&self, other: &Packet) -> (r: bool) {
        if self.ptyp != other.ptyp || self.nseq != other.nseq || self.port != other.port {
            return false;
        }
        if self.peer[0] != other.peer[0] || self.peer[1] != other.peer[1] || self.peer[2]
            != other.peer[2] || self.peer[3] != other.peer[3] {
            assert(self.peer@ != other.peer@);
            return false;
        }
        assert(self.peer =~= other.peer);
        if self.data.len() != other.data.len() {
            return false;
        }
        let mut i: usize = 0;
        while i < self.data.len()
            invariant
                i <= self.data@.len(),
                self.data@.len() == other.data@.len(),
                self.data@.subrange(0, i as int) == other.data@.subrange(0, i as int),
            decreases self.data@.len() - i,
        {
            if self.data[i] != other.data[i] {
                return false;
            }
            i += 1;
            assert(self.data@.subrange(0, i as int) =~= self.data@.subrange(0, i - 1).push(
                self.data@[i - 1],
            ));
            assert(other.data@.subrange(0, i as int) =~= other.data@.subrange(0, i - 1).push(
                other.data@[i - 1],
            ));
        }
        assert(self.data@ =~= self.data@.subrange(0, i as int));
        assert(other.data@ =~= other.data@.subrange(0, i as int));
        true
    }
}

impl Eq for Packet {

}

impl PartialEqSpecImpl for Packet {
    open spec fn obeys_eq_spec() -> bool {
        true
    }

    open spec fn eq_spec(&self, other: &Packet) -> bool {
        self@ == other@
    }
}

/// How many packets it takes to carry `len` bytes.
pub open spec fn chunk_count(len: nat) -> nat {
    (len + PACKET_DATA_CAPACITY - 1) as nat / (PACKET_DATA_CAPACITY as nat)
}

/// The `i`-th payload when `bytes` is cut into full payloads, the last one
/// taking what is left.
pub open spec fn chunk_at(bytes: Seq<u8>, i: int) -> Seq<u8> {
    let start = i * PACKET_DATA_CAPACITY;
    let end = if start + PACKET_DATA_CAPACITY <= bytes.len() {
        start + PACKET_DATA_CAPACITY
    } else {
        bytes.len() as int
    };
    bytes.subrange(start, end)
}

/// How many packets a stream over `len` bytes yields when its first sequence
/// number is `first`: one per chunk, as long as sequence numbers below
/// `u32::MAX` are left.
pub open spec fn stream_len(len: nat, first: u32) -> nat {
    if chunk_count(len) <= u32::MAX - first {
        chunk_count(len)
    } else {
        (u32::MAX - first) as nat
    }
}

/// The packets that carry `bytes`: consecutive sequence numbers from `first`,
/// each payload the next chunk of at most 1014 bytes.
pub open spec fn stream_packets(
    bytes: Seq<u8>,
    first: u32,
    ptyp: PacketType,
    peer: [u8; 4],
    port: u16,
) -> Seq<PacketView> {
    Seq::new(
        stream_len(bytes.len(), first),
        |i: int|
            PacketView { ptyp, nseq: (first + i) as u32, peer, port, data: chunk_at(bytes, i) },
    )
}

/// Cuts a byte source into packets, one chunk at a time.
#[derive(Debug)]
pub struct PacketStream {
    source: Vec<u8>,
    pos: usize,
    packet_type: PacketType,
    seq: u32,
    port: u16,
    peer: [u8; 4],
    active: bool,
}

impl PacketStream {
    /// What holds of every stream: it stands within its source.
    pub closed spec fn wf(&self) -> bool {
        self.pos <= self.source@.len()
    }

    /// Whether a packet has been asked for already; from then on the setters
    /// change nothing.
    pub closed spec fn started(&self) -> bool {
        self.active
    }

    /// The bytes that have not been handed out yet.
    pub closed spec fn rest(&self) -> Seq<u8> {
        self.source@.skip(self.pos as int)
    }

    /// The sequence number that the next packet gets.
    pub closed spec fn spec_seq(&self) -> u32 {
        self.seq
    }

    /// The type that every packet gets.
    pub closed spec fn spec_type(&self) -> PacketType {
        self.packet_type
    }

    /// The address that every packet is meant for.
    pub closed spec fn spec_peer(&self) -> [u8; 4] {
        self.peer
    }

    /// The port that every packet is meant for.
    pub closed spec fn spec_port(&self) -> u16 {
        self.port
    }

    /// The packets this stream has yet to yield.
    pub open spec fn remaining(&self) -> Seq<PacketView> {
        stream_packets(
            self.rest(),
            self.spec_seq(),
            self.spec_type(),
            self.spec_peer(),
            self.spec_port(),
        )
    }

    /// Sets the sequence number of the first packet.
    pub fn seq(self, seq: u32) -> (s: PacketStream)
        requires
            self.wf(),
        ensures
            s.wf(),
            s.started() == self.started(),
            s.rest() == self.rest(),
            s.spec_seq() == if self.started() {
                self.spec_seq()
            } else {
                seq
            },
            s.spec_type() == self.spec_type(),
            s.spec_peer() == self.spec_peer(),
            s.spec_port() == self.spec_port(),
    {
        if self.active {
            return self;
        }
        let mut s = self;
        s.seq = seq;
        s
    }

    /// Sets the port that every packet is addressed to.
    pub fn port(self, port: u16) -> (s: PacketStream)
        requires
            self.wf(),
        ensures
            s.wf(),
            s.started() == self.started(),
            s.rest() == self.rest(),
            s.spec_seq() == self.spec_seq(),
            s.spec_type() == self.spec_type(),
            s.spec_peer() == self.spec_peer(),
            s.spec_port() == if self.started() {
                self.spec_port()
            } else {
                port
            },
    {
        if self.active {
            return self;
        }
        let mut s = self;
        s.port = port;
        s
    }

    /// Sets the address that every packet is addressed to.
    pub fn peer(self, peer: [u8; 4]) -> (s: PacketStream)
        requires
            self.wf(),
        ensures
            s.wf(),
            s.started() == self.started(),
            s.rest() == self.rest(),
            s.spec_seq() == self.spec_seq(),
            s.spec_type() == self.spec_type(),
            s.spec_peer() == if self.started() {
                self.spec_peer()
            } else {
                peer
            },
            s.spec_port() == self.spec_port(),
    {
        if self.active {
            return self;
        }
        let mut s = self;
        s.peer = peer;
        s
    }

    /// Sets the type of every packet.
    pub fn packet_type(self, packet_type: PacketType) -> (s: PacketStream)
        requires
            self.wf(),
        ensures
            s.wf(),
            s.started() == self.started(),
            s.rest() == self.rest(),
            s.spec_seq() == self.spec_seq(),
            s.spec_type() == if self.started() {
                self.spec_type()
            } else {
                packet_type
            },
            s.spec_peer() == self.spec_peer(),
            s.spec_port() == self.spec_port(),
    {
        if self.active {
            return self;
        }
        let mut s = self;
        s.packet_type = packet_type;
        s
    }

    /// Sets both the address and the port that every packet is meant for.
    pub fn remote(self, addr: Endpoint) -> (s: PacketStream)
        requires
            self.wf(),
        ensures
            s.wf(),
            s.started() == self.started(),
            s.rest() == self.rest(),
            s.spec_seq() == self.spec_seq(),
            s.spec_type() == self.spec_type(),
            s.spec_peer() == if self.started() {
                self.spec_peer()
            } else {
                addr.ip
            },
            s.spec_port() == if self.started() {
                self.spec_port()
            } else {
                addr.port
            },
    {
        self.peer(addr.ip).port(addr.port)
    }

    /// The sequence number that the next packet will carry.
    pub fn current_seq(&self) -> (n: u32)
        ensures
            n == self.spec_seq(),
    {
        self.seq
    }

    /// Yields the next packet, or `None` once the source is used up or no
    /// sequence number below `u32::MAX` is left.
    pub fn next(&mut self) -> (r: Option<Packet>)
        requires
            old(self).wf(),
        ensures
            final(self).wf(),
            final(self).started(),
            final(self).spec_type() == old(self).spec_type(),
            final(self).spec_peer() == old(self).spec_peer(),
            final(self).spec_port() == old(self).spec_port(),
            match r {
                Some(p) => {
                    &&& old(self).remaining().len() > 0
                    &&& p@ == old(self).remaining()[0]
                    &&& 0 < p@.data.len() <= PACKET_DATA_CAPACITY
                    &&& final(self).remaining() == old(self).remaining().skip(1)
                    &&& final(self).spec_seq() == old(self).spec_seq() + 1
                    &&& final(self).rest() == old(self).rest().skip(p@.data.len() as int)
                },
                None => {
                    &&& old(self).remaining().len() == 0
                    &&& final(self).remaining() == old(self).remaining()
                    &&& final(self).spec_seq() == old(self).spec_seq()
                    &&& final(self).rest() == old(self).rest()
                },
            },
    {
        self.active = true;
        let len = self.source.len();
        if self.pos >= len || self.seq == u32::MAX {
            proof {
                assert(self.remaining() =~= old(self).remaining());
            }
            return None;
        }
        let end = if len - self.pos >= PACKET_DATA_CAPACITY {
            self.pos + PACKET_DATA_CAPACITY
        } else {
            len
        };
        let data = copy_range(self.source.as_slice(), self.pos, end);
        let p = Packet {
            ptyp: self.packet_type,
            nseq: self.seq,
            peer: self.peer,
            port: self.port,
            data,
        };
        proof {
            let rest = old(self).rest();
            let n = end - self.pos;
            assert(p@.data =~= chunk_at(rest, 0));
            let new_rest = self.source@.skip(end as int);
            assert(new_rest =~= rest.skip(n));
            lemma_stream_tail(
                rest,
                self.seq,
                self.packet_type,
                self.peer,
                self.port,
            );
        }
        self.pos = end;
        self.seq = self.seq + 1;
        Some(p)
    }

    /// Yields every packet that is left.
    pub fn collect(self) -> (out: Vec<Packet>)
        requires
            self.wf(),
        ensures
            out@.len() == self.remaining().len(),
            forall|i: int| 0 <= i < out@.len() ==> out@[i]@ == self.remaining()[i],
    {
        let mut s = self;
        let mut out: Vec<Packet> = Vec::new();
        loop
            invariant
                s.wf(),
                self.remaining().len() == out@.len() + s.remaining().len(),
                forall|i: int| 0 <= i < out@.len() ==> out@[i]@ == self.remaining()[i],
                forall|i: int|
                    0 <= i < s.remaining().len() ==> s.remaining()[i] == self.remaining()[out@.len()
                        + i],
            decreases s.remaining().len(),
        {
            let ghost before = s.remaining();
            match s.next() {
                Some(p) => {
                    out.push(p);
                    assert forall|i: int| 0 <= i < s.remaining().len() implies s.remaining()[i]
                        == self.remaining()[out@.len() + i] by {
                        assert(s.remaining()[i] == before[i + 1]);
                    }
                },
                None => {
                    return out;
                },
            }
        }
    }
}

/// Every packet of a stream carries at least one byte and at most 1014, and
/// the packets are numbered one after the other from the first sequence
/// number.
pub proof fn lemma_stream_packets_fit(
    bytes: Seq<u8>,
    first: u32,
    ptyp: PacketType,
    peer: [u8; 4],
    port: u16,
)
    ensures
        forall|i: int|
            0 <= i < stream_packets(bytes, first, ptyp, peer, port).len() ==> {
                &&& 0 < (#[trigger] stream_packets(bytes, first, ptyp, peer, port)[i]).data.len()
                    <= PACKET_DATA_CAPACITY
                &&& stream_packets(bytes, first, ptyp, peer, port)[i].nseq == first + i
                &&& (ptyp != PacketType::Invalid ==> stream_packets(
                    bytes,
                    first,
                    ptyp,
                    peer,
                    port,
                )[i].well_formed())
            },
{
}

/// Dropping the first packet of a stream leaves the stream over the bytes
/// behind the first chunk, numbered from the next sequence number.
pub proof fn lemma_stream_tail(
    bytes: Seq<u8>,
    first: u32,
    ptyp: PacketType,
    peer: [u8; 4],
    port: u16,
)
    requires
        bytes.len() > 0,
        first < u32::MAX,
    ensures
        stream_packets(bytes, first, ptyp, peer, port).len() > 0,
        stream_packets(bytes, first, ptyp, peer, port).skip(1) == stream_packets(
            bytes.skip(chunk_at(bytes, 0).len() as int),
            (first + 1) as u32,
            ptyp,
            peer,
            port,
        ),
{
    let n = chunk_at(bytes, 0).len() as int;
    let tail = bytes.skip(n);
    let a = stream_packets(bytes, first, ptyp, peer, port).skip(1);
    let b = stream_packets(tail, (first + 1) as u32, ptyp, peer, port);
    if bytes.len() <= PACKET_DATA_CAPACITY {
        assert(chunk_count(bytes.len()) == 1);
        assert(tail.len() == 0);
        assert(chunk_count(tail.len()) == 0);
    } else {
        assert(n == PACKET_DATA_CAPACITY);
        assert(chunk_count(bytes.len()) == chunk_count(tail.len()) + 1);
    }
    assert(a.len() == b.len());
    assert forall|i: int| 0 <= i < a.len() implies a[i] == b[i] by {
        assert(chunk_at(bytes, i + 1) =~= chunk_at(tail, i));
    }
    assert(a =~= b);
}

impl Packet {
    /// Turns a byte source into a stream of data packets, numbered from 1 and
    /// addressed to port 0 of the local host until the setters say otherwise.
    pub fn stream(reader: &[u8]) -> (s: PacketStream)
        ensures
            s.wf(),
            !s.started(),
            s.rest() == reader@,
            s.spec_seq() == 1,
            s.spec_type() == PacketType::Data,
            s.spec_peer() == [127u8, 0u8, 0u8, 1u8],
            s.spec_port() == 0,
    {
        let source = copy_range(reader, 0, reader.len());
        let s = PacketStream {
            source,
            pos: 0,
            packet_type: PacketType::Data,
            seq: 1,
            port: 0,
            peer: [127, 0, 0, 1],
            active: false,
        };
        assert(s.rest() =~= reader@);
        assert(s.peer =~= [127u8, 0u8, 0u8, 1u8]);
        s
    }
}

/// A zeroed buffer of `S` bytes.
pub fn buffer<const S: usize>() -> (b: [u8; S])
    ensures
        forall|i: int| 0 <= i < S ==> b@[i] == 0u8,
{
    [0u8;S]
}

/// A zeroed buffer that holds any packet.
pub fn packet_buffer() -> (b: Vec<u8>)
    ensures
        b@.len() == MAX_PACKET_SIZE,
        forall|i: int| 0 <= i < b@.len() ==> b@[i] == 0u8,
{
    zeroes(MAX_PACKET_SIZE)
}

/// A zeroed buffer that holds any payload.
pub fn data_buffer() -> (b: Vec<u8>)
    ensures
        b@.len() == PACKET_DATA_CAPACITY,
        forall|i: int| 0 <= i < b@.len() ==> b@[i] == 0u8,
{
    zeroes(PACKET_DATA_CAPACITY)
}

/// A buffer of `n` zero bytes.
pub fn zeroes(n: usize) -> (b: Vec<u8>)
    ensures
        b@.len() == n,
        forall|i: int| 0 <= i < b@.len() ==> b@[i] == 0u8,
{
    let mut b: Vec<u8> = Vec::new();
    while b.len() < n
        invariant
            b@.len() <= n,
            forall|i: int| 0 <= i < b@.len() ==> b@[i] == 0u8,
        decreases n - b@.len(),
    {
        b.push(0);
    }
    b
}

} // verus!
