//! Why the reader sees what the writer wrote.
//!
//! A writer cuts what it writes into data packets with consecutive sequence
//! numbers. Whatever happens to them on the way (any order, any number of
//! copies, any delay), a reader that started at the writer's first sequence
//! number hands out a prefix of the written bytes at every moment, read by
//! read the bytes that come next, and all of them once every packet has
//! arrived. On the writer's side every acknowledged byte is counted once.

use crate::packet::{chunk_at, chunk_count, spec_decode, stream_packets, PacketType, PacketView,
    PACKET_DATA_CAPACITY};
use crate::stream::{ReadOp, ReadPhase, StreamView, WriteOp, WritePhase};
use crate::transport::Event;
use vstd::prelude::*;

verus! {

/// Where the `i`-th chunk of `len` bytes ends.
pub open spec fn chunk_end(len: nat, i: int) -> int {
    if (i + 1) * PACKET_DATA_CAPACITY <= len {
        (i + 1) * PACKET_DATA_CAPACITY
    } else {
        len as int
    }
}

/// The bytes that a run of packets carries: their payloads, one after the
/// other.
pub open spec fn payloads(ps: Seq<PacketView>) -> Seq<u8>
    decreases ps.len(),
{
    if ps.len() == 0 {
        Seq::empty()
    } else {
        payloads(ps.drop_last()) + ps.last().data
    }
}

/// Whether the packets are numbered one after the other from `first`, with
/// sequence numbers to spare for all of them.
pub open spec fn numbered(ps: Seq<PacketView>, first: u32) -> bool {
    &&& first + ps.len() <= 0x1_0000_0000
    &&& forall|i: int| 0 <= i < ps.len() ==> (#[trigger] ps[i]).nseq == first + i
}

/// The reader `s` is in step with the packets `ps`, numbered from `first`,
/// of whose bytes it has handed out `out`: it stands at the packet whose
/// payload comes next, `out` is the payloads before that packet and the part
/// of its payload that was read, and whatever the reader holds at or past
/// its place is the unread part of the payload with that sequence number.
pub open spec fn carries(s: StreamView, ps: Seq<PacketView>, first: u32, out: Seq<u8>) -> bool {
    let k = ps.len() as int;
    let j = s.next_expected - first;
    let r = out.len() - payloads(ps.take(j)).len();
    &&& numbered(ps, first)
    &&& 0 <= j <= k
    &&& 0 <= r
    &&& if j < k {
        &&& out == payloads(ps.take(j)) + ps[j].data.take(r)
        &&& (r == 0 || r < ps[j].data.len())
    } else {
        out == payloads(ps)
    }
    &&& (j < k && r > 0 ==> s.recv_buffer.contains_key(s.next_expected as u32))
    &&& forall|q: u32| #[trigger]
        s.recv_buffer.contains_key(q) && q >= s.next_expected ==> {
            &&& q - first < k
            &&& s.recv_buffer[q] == ps[q - first].data.skip(
                if q == s.next_expected {
                    r
                } else {
                    0
                },
            )
        }
    &&& (s.last_seq matches Some(l) ==> l >= first + k)
}

/// The payload with sequence number `q` has reached the reader: it is
/// buffered, or the reader is past it.
pub open spec fn held(s: StreamView, q: int) -> bool {
    q < s.next_expected || (0 <= q <= u32::MAX && s.recv_buffer.contains_key(q as u32))
}

/// The payloads of the first `j + 1` packets are those of the first `j`
/// and the payload of the next.
pub proof fn lemma_payloads_step(ps: Seq<PacketView>, j: int)
    requires
        0 <= j < ps.len(),
    ensures
        payloads(ps.take(j + 1)) == payloads(ps.take(j)) + ps[j].data,
{
    assert(ps.take(j + 1).drop_last() =~= ps.take(j));
    assert(ps.take(j + 1).last() == ps[j]);
}

/// The payloads of the first `j` packets stand at the front of the payloads
/// of all.
pub proof fn lemma_payloads_prefix(ps: Seq<PacketView>, j: int)
    requires
        0 <= j <= ps.len(),
    ensures
        payloads(ps.take(j)).len() <= payloads(ps).len(),
        payloads(ps.take(j)) == payloads(ps).take(payloads(ps.take(j)).len() as int),
    decreases ps.len() - j,
{
    if j == ps.len() {
        assert(ps.take(j) =~= ps);
        assert(payloads(ps).take(payloads(ps).len() as int) =~= payloads(ps));
    } else {
        lemma_payloads_prefix(ps, j + 1);
        lemma_payloads_step(ps, j);
        let a = payloads(ps.take(j));
        let b = payloads(ps.take(j + 1));
        assert(a =~= b.take(a.len() as int));
        assert(a =~= payloads(ps).take(a.len() as int));
    }
}

/// The payloads of two runs of packets, one behind the other, are the
/// payloads of the first and then those of the second.
pub proof fn lemma_payloads_append(a: Seq<PacketView>, b: Seq<PacketView>)
    ensures
        payloads(a + b) == payloads(a) + payloads(b),
    decreases b.len(),
{
    if b.len() == 0 {
        assert(a + b =~= a);
        assert(payloads(a) + payloads(b) =~= payloads(a));
    } else {
        lemma_payloads_append(a, b.drop_last());
        assert((a + b).drop_last() =~= a + b.drop_last());
        assert((a + b).last() == b.last());
        assert(payloads(a) + (payloads(b.drop_last()) + b.last().data) =~= (payloads(a)
            + payloads(b.drop_last())) + b.last().data);
    }
}

/// A reader in step has handed out bytes that stand at the front of the
/// bytes that the packets carry.
pub proof fn lemma_carries_prefix(s: StreamView, ps: Seq<PacketView>, first: u32, out: Seq<u8>)
    requires
        carries(s, ps, first, out),
    ensures
        out.len() <= payloads(ps).len(),
        out == payloads(ps).take(out.len() as int),
{
    let j = s.next_expected - first;
    if j < ps.len() {
        let r = out.len() - payloads(ps.take(j)).len();
        lemma_payloads_prefix(ps, j);
        lemma_payloads_prefix(ps, j + 1);
        lemma_payloads_step(ps, j);
        let a = payloads(ps.take(j));
        let b = payloads(ps.take(j + 1));
        assert(out =~= b.take(out.len() as int));
        assert(out =~= payloads(ps).take(out.len() as int));
    } else {
        assert(payloads(ps).take(payloads(ps).len() as int) =~= payloads(ps));
    }
}

/// A reader that has read nothing and holds nothing at or past its place,
/// and has not been told of an end before the last packet, is in step with
/// any packets numbered from its place.
pub proof fn lemma_fresh_carries(s: StreamView, ps: Seq<PacketView>, first: u32)
    requires
        s.next_expected == first,
        forall|q: u32| #[trigger] s.recv_buffer.contains_key(q) ==> q < first,
        s.last_seq matches Some(l) ==> l >= first + ps.len(),
        numbered(ps, first),
    ensures
        carries(s, ps, first, Seq::<u8>::empty()),
{
    assert(ps.take(0) =~= Seq::<PacketView>::empty());
    if ps.len() > 0 {
        assert(payloads(ps.take(0)) + ps[0].data.take(0) =~= Seq::<u8>::empty());
    } else {
        assert(payloads(ps) =~= Seq::<u8>::empty());
    }
}

/// The arrival of any of the packets, for the first time or again, during a
/// read or while the reader's side writes, leaves the reader in step.
pub proof fn lemma_arrival_carries(
    s: StreamView,
    ps: Seq<PacketView>,
    first: u32,
    out: Seq<u8>,
    i: int,
)
    requires
        carries(s, ps, first, out),
        0 <= i < ps.len(),
    ensures
        carries(s.accept_data(ps[i].nseq, ps[i].data), ps, first, out),
        carries(s.buffer_data(ps[i].nseq, ps[i].data), ps, first, out),
        held(s.accept_data(ps[i].nseq, ps[i].data), first + i),
        held(s.buffer_data(ps[i].nseq, ps[i].data), first + i),
        forall|q: int| held(s, q) ==> held(s.accept_data(ps[i].nseq, ps[i].data), q),
        forall|q: int| held(s, q) ==> held(s.buffer_data(ps[i].nseq, ps[i].data), q),
{
    let seq = ps[i].nseq;
    assert(seq == first + i);
    let k = ps.len() as int;
    let j = s.next_expected - first;
    let r = out.len() - payloads(ps.take(j)).len();
    assert(ps[i].data.skip(0) =~= ps[i].data);
    let t = s.accept_data(seq, ps[i].data);
    let u = s.buffer_data(seq, ps[i].data);
    assert forall|q: u32| #[trigger] t.recv_buffer.contains_key(q) && q >= t.next_expected implies {
        &&& q - first < k
        &&& t.recv_buffer[q] == ps[q - first].data.skip(
            if q == t.next_expected {
                r
            } else {
                0
            },
        )
    } by {
        if q != seq || s.recv_buffer.contains_key(q) {
            assert(s.recv_buffer.contains_key(q));
        }
    }
    assert forall|q: u32| #[trigger] u.recv_buffer.contains_key(q) && q >= u.next_expected implies {
        &&& q - first < k
        &&& u.recv_buffer[q] == ps[q - first].data.skip(
            if q == u.next_expected {
                r
            } else {
                0
            },
        )
    } by {
        if q != seq || s.recv_buffer.contains_key(q) {
            assert(s.recv_buffer.contains_key(q));
        }
    }
}

/// A reader in step that holds the payload which comes next stays in step
/// when it hands out all that is left of that payload and moves on.
pub proof fn lemma_advance_carries(s: StreamView, ps: Seq<PacketView>, first: u32, out: Seq<u8>)
    requires
        carries(s, ps, first, out),
        s.head() is Some,
    ensures
        s.next_expected - first < ps.len(),
        carries(
            StreamView {
                next_expected: s.next_expected + 1,
                recv_buffer: s.recv_buffer.remove(s.next_expected as u32),
                ..s
            },
            ps,
            first,
            out + s.head().unwrap(),
        ),
{
    let k = ps.len() as int;
    let j = s.next_expected - first;
    let r = out.len() - payloads(ps.take(j)).len();
    let key = s.next_expected as u32;
    assert(s.recv_buffer.contains_key(key) && key >= s.next_expected);
    assert(j < k);
    let data = ps[j].data;
    let d = s.head().unwrap();
    assert(d == data.skip(r));
    lemma_payloads_step(ps, j);
    let after = StreamView {
        next_expected: s.next_expected + 1,
        recv_buffer: s.recv_buffer.remove(key),
        ..s
    };
    let got = out + d;
    assert(data.take(r) + data.skip(r) =~= data);
    assert(got =~= payloads(ps.take(j)) + (data.take(r) + data.skip(r)));
    assert(got == payloads(ps.take(j + 1)));
    if j + 1 < k {
        assert(ps[j + 1].data.take(0) =~= Seq::<u8>::empty());
        assert(got =~= payloads(ps.take(j + 1)) + ps[j + 1].data.take(0));
    } else {
        assert(ps.take(j + 1) =~= ps);
    }
    assert forall|q: u32| #[trigger]
        after.recv_buffer.contains_key(q) && q >= after.next_expected implies {
        &&& q - first < k
        &&& after.recv_buffer[q] == ps[q - first].data.skip(0)
    } by {
        assert(s.recv_buffer.contains_key(q));
        assert(q != key);
    }
}

/// Reading leaves the reader in step: what it hands out joins what it has
/// handed out before, and nothing that has reached it is lost.
pub proof fn lemma_drain_carries(
    s: StreamView,
    ps: Seq<PacketView>,
    first: u32,
    out: Seq<u8>,
    room: nat,
)
    requires
        carries(s, ps, first, out),
    ensures
        s.drain(room).1.len() <= room,
        carries(s.drain(room).0, ps, first, out + s.drain(room).1),
        s.drain(room).0.next_expected >= s.next_expected,
        forall|q: int| held(s, q) ==> held(s.drain(room).0, q),
    decreases 0x1_0000_0000 - s.next_expected,
{
    let k = ps.len() as int;
    let j = s.next_expected - first;
    let r = out.len() - payloads(ps.take(j)).len();
    if room == 0 || s.drained() || s.head() is None {
        assert(out + s.drain(room).1 =~= out);
    } else {
        let key = s.next_expected as u32;
        assert(s.recv_buffer.contains_key(key) && key >= s.next_expected);
        assert(j < k);
        let data = ps[j].data;
        let d = s.head().unwrap();
        assert(d == data.skip(r));
        lemma_payloads_step(ps, j);
        if d.len() <= room {
            let after = StreamView {
                next_expected: s.next_expected + 1,
                recv_buffer: s.recv_buffer.remove(key),
                ..s
            };
            let got = out + d;
            lemma_advance_carries(s, ps, first, out);
            lemma_drain_carries(after, ps, first, got, (room - d.len()) as nat);
            let more = after.drain((room - d.len()) as nat).1;
            assert(s.drain(room).1 == d + more);
            assert(out + (d + more) =~= got + more);
            assert forall|q: int| held(s, q) implies held(s.drain(room).0, q) by {
                assert(held(after, q));
            }
        } else {
            let t = s.drain(room).0;
            let got = out + d.take(room as int);
            assert(data.take(r) + data.skip(r).take(room as int) =~= data.take(r + room));
            assert(got =~= payloads(ps.take(j)) + data.take(r + room));
            assert(d.skip(room as int) =~= data.skip(r + room));
            assert forall|q: u32| #[trigger]
                t.recv_buffer.contains_key(q) && q >= t.next_expected implies {
                &&& q - first < k
                &&& t.recv_buffer[q] == ps[q - first].data.skip(
                    if q == t.next_expected {
                        r + room
                    } else {
                        0
                    },
                )
            } by {
                if q != key {
                    assert(s.recv_buffer.contains_key(q));
                }
            }
            assert(carries(t, ps, first, got));
        }
    }
}

/// Once every packet that the reader has not finished has reached it, a
/// read hands out exactly the bytes that come next: as many as it has room
/// for, or all that are left.
pub proof fn lemma_drain_exact(
    s: StreamView,
    ps: Seq<PacketView>,
    first: u32,
    out: Seq<u8>,
    room: nat,
)
    requires
        carries(s, ps, first, out),
        forall|q: int| first <= q < first + ps.len() ==> #[trigger] held(s, q),
    ensures
        out.len() <= payloads(ps).len(),
        s.drain(room).1.len() == if room <= payloads(ps).len() - out.len() {
            room as int
        } else {
            payloads(ps).len() - out.len()
        },
    decreases 0x1_0000_0000 - s.next_expected,
{
    let k = ps.len() as int;
    let j = s.next_expected - first;
    let r = out.len() - payloads(ps.take(j)).len();
    lemma_carries_prefix(s, ps, first, out);
    if j == k {
        if s.next_expected <= u32::MAX && s.recv_buffer.contains_key(s.next_expected as u32) {
            assert(false);
        }
    } else if room > 0 {
        assert(held(s, s.next_expected as int));
        let key = s.next_expected as u32;
        assert(s.recv_buffer.contains_key(key) && key >= s.next_expected);
        assert(!s.drained());
        let data = ps[j].data;
        let d = s.head().unwrap();
        assert(d == data.skip(r));
        lemma_payloads_step(ps, j);
        lemma_payloads_prefix(ps, j + 1);
        if d.len() <= room {
            let after = StreamView {
                next_expected: s.next_expected + 1,
                recv_buffer: s.recv_buffer.remove(key),
                ..s
            };
            lemma_advance_carries(s, ps, first, out);
            assert forall|q: int| first <= q < first + ps.len() implies #[trigger] held(
                after,
                q,
            ) by {
                assert(held(s, q));
            }
            lemma_drain_exact(after, ps, first, out + d, (room - d.len()) as nat);
        }
    }
}

/// What happens at the reader's end.
pub enum Happening {
    /// The `i`-th packet arrives (once more) and reaches a read.
    Arrival(int),
    /// The `i`-th packet arrives (once more) while the reader's side writes.
    ArrivalInWrite(int),
    /// The reader reads with room for so many bytes.
    Read(nat),
}

/// The packet that arrives at a happening, if one does.
pub open spec fn arrived(h: Happening) -> Option<int> {
    match h {
        Happening::Arrival(i) => Some(i),
        Happening::ArrivalInWrite(i) => Some(i),
        Happening::Read(_) => None,
    }
}

/// Whether every arrival in `history` is one of the packets `0..count`.
pub open spec fn arrivals_known(history: Seq<Happening>, count: nat) -> bool {
    forall|h: int|
        0 <= h < history.len() ==> (arrived(#[trigger] history[h]) matches Some(i) ==> 0 <= i
            < count)
}

/// Whether the `i`-th packet arrives at some point of `history`.
pub open spec fn arrives(history: Seq<Happening>, i: int) -> bool {
    exists|h: int| 0 <= h < history.len() && arrived(#[trigger] history[h]) == Some(i)
}

/// Whether each of the packets `0..count` arrives at some point of
/// `history`.
pub open spec fn all_arrive(history: Seq<Happening>, count: nat) -> bool {
    forall|i: int| 0 <= i < count ==> #[trigger] arrives(history, i)
}

/// The reader after `history`, and all the bytes it has handed out.
pub open spec fn replay(s: StreamView, packets: Seq<PacketView>, history: Seq<Happening>) -> (
    StreamView,
    Seq<u8>,
)
    decreases history.len(),
{
    if history.len() == 0 {
        (s, Seq::<u8>::empty())
    } else {
        let (t, out) = replay(s, packets, history.drop_last());
        match history.last() {
            Happening::Arrival(i) => (t.accept_data(packets[i].nseq, packets[i].data), out),
            Happening::ArrivalInWrite(i) => (
                t.buffer_data(packets[i].nseq, packets[i].data),
                out,
            ),
            Happening::Read(room) => (t.drain(room).0, out + t.drain(room).1),
        }
    }
}

/// Sequencing, first part: whatever arrives, in whatever order and however
/// often, and whenever the reader reads and with however much room, the
/// bytes it has read so far stand at the front of the bytes that the packets
/// carry: none is missing, none comes twice, none is out of its place.
pub proof fn lemma_reader_sees_prefix(
    s: StreamView,
    ps: Seq<PacketView>,
    first: u32,
    history: Seq<Happening>,
)
    requires
        s.next_expected == first,
        forall|q: u32| #[trigger] s.recv_buffer.contains_key(q) ==> q < first,
        s.last_seq matches Some(l) ==> l >= first + ps.len(),
        numbered(ps, first),
        arrivals_known(history, ps.len()),
    ensures
        ({
            let (t, out) = replay(s, ps, history);
            &&& out.len() <= payloads(ps).len()
            &&& out == payloads(ps).take(out.len() as int)
            &&& carries(t, ps, first, out)
            &&& forall|h: int|
                0 <= h < history.len() ==> (arrived(#[trigger] history[h]) matches Some(i)
                    ==> held(t, first + i))
        }),
    decreases history.len(),
{
    if history.len() == 0 {
        lemma_fresh_carries(s, ps, first);
    } else {
        let before = history.drop_last();
        assert forall|h: int| 0 <= h < before.len() implies (arrived(
            #[trigger] before[h],
        ) matches Some(i) ==> 0 <= i < ps.len()) by {
            assert(before[h] == history[h]);
        }
        lemma_reader_sees_prefix(s, ps, first, before);
        let (t, out) = replay(s, ps, before);
        let (u, all) = replay(s, ps, history);
        let last = history[history.len() - 1];
        assert(last == history.last());
        match history.last() {
            Happening::Arrival(i) => {
                assert(arrived(last) == Some(i));
                lemma_arrival_carries(t, ps, first, out, i);
            },
            Happening::ArrivalInWrite(i) => {
                assert(arrived(last) == Some(i));
                lemma_arrival_carries(t, ps, first, out, i);
            },
            Happening::Read(room) => {
                lemma_drain_carries(t, ps, first, out, room);
            },
        }
        assert forall|h: int| 0 <= h < history.len() implies (arrived(
            #[trigger] history[h],
        ) matches Some(x) ==> held(u, first + x)) by {
            if h < before.len() {
                assert(before[h] == history[h]);
                if let Some(x) = arrived(history[h]) {
                    assert(held(t, first + x));
                }
            }
        }
    }
    let (u, all) = replay(s, ps, history);
    lemma_carries_prefix(u, ps, first, all);
}

/// Sequencing, second part: once every packet has arrived at least once,
/// each further read, of whatever size, hands out exactly the bytes that
/// come next, as many as it has room for or all that are left. So the reads
/// that follow one another, up to the first that hands out nothing, hand
/// out all the bytes that the packets carry, and a read hands out nothing
/// only where it has no room or nothing is left.
pub proof fn lemma_reader_sees_next(
    s: StreamView,
    ps: Seq<PacketView>,
    first: u32,
    history: Seq<Happening>,
    room: nat,
)
    requires
        s.next_expected == first,
        forall|q: u32| #[trigger] s.recv_buffer.contains_key(q) ==> q < first,
        s.last_seq matches Some(l) ==> l >= first + ps.len(),
        numbered(ps, first),
        arrivals_known(history, ps.len()),
        all_arrive(history, ps.len()),
    ensures
        ({
            let before = replay(s, ps, history).1;
            let after = replay(s, ps, history.push(Happening::Read(room))).1;
            let rest = payloads(ps).len() - before.len();
            &&& rest >= 0
            &&& after.len() == before.len() + if room <= rest {
                room as int
            } else {
                rest
            }
            &&& after == payloads(ps).take(after.len() as int)
        }),
{
    let whole = history.push(Happening::Read(room));
    assert(whole.drop_last() =~= history);
    assert(whole.last() == Happening::Read(room));
    lemma_reader_sees_prefix(s, ps, first, history);
    let (t, out) = replay(s, ps, history);
    assert forall|q: int| first <= q < first + ps.len() implies #[trigger] held(t, q) by {
        let i = q - first;
        assert(arrives(history, i));
        let h = choose|h: int| 0 <= h < history.len() && arrived(#[trigger] history[h]) == Some(i);
        assert(arrived(history[h]) matches Some(x) ==> held(t, first + x));
    }
    lemma_drain_exact(t, ps, first, out, room);
    assert(replay(s, ps, whole).1 == out + t.drain(room).1);
    assert forall|h: int| 0 <= h < whole.len() implies (arrived(
        #[trigger] whole[h],
    ) matches Some(i) ==> 0 <= i < ps.len()) by {
        if h < history.len() {
            assert(whole[h] == history[h]);
        }
    }
    lemma_reader_sees_prefix(s, ps, first, whole);
}

/// Sequencing, in one: once every packet has arrived at least once, a read
/// with room for all the bytes completes what the reader has read to
/// exactly the bytes that the packets carry.
pub proof fn lemma_reader_sees_all(
    s: StreamView,
    ps: Seq<PacketView>,
    first: u32,
    history: Seq<Happening>,
    room: nat,
)
    requires
        s.next_expected == first,
        forall|q: u32| #[trigger] s.recv_buffer.contains_key(q) ==> q < first,
        s.last_seq matches Some(l) ==> l >= first + ps.len(),
        numbered(ps, first),
        arrivals_known(history, ps.len()),
        all_arrive(history, ps.len()),
        room >= payloads(ps).len(),
    ensures
        replay(s, ps, history.push(Happening::Read(room))).1 == payloads(ps),
{
    lemma_reader_sees_next(s, ps, first, history, room);
    let after = replay(s, ps, history.push(Happening::Read(room))).1;
    assert(payloads(ps).take(payloads(ps).len() as int) =~= payloads(ps));
}

/// The bytes of several writes, one after the other.
pub open spec fn written(writes: Seq<Seq<u8>>) -> Seq<u8>
    decreases writes.len(),
{
    if writes.len() == 0 {
        Seq::empty()
    } else {
        written(writes.drop_last()) + writes.last()
    }
}

/// The writer after several writes have queued their bytes, one after the
/// other.
pub open spec fn after_writes(w: StreamView, writes: Seq<Seq<u8>>) -> StreamView
    decreases writes.len(),
{
    if writes.len() == 0 {
        w
    } else {
        after_writes(w, writes.drop_last()).enqueue(writes.last())
    }
}

/// How many packets several writes take.
pub open spec fn packets_needed(writes: Seq<Seq<u8>>) -> nat
    decreases writes.len(),
{
    if writes.len() == 0 {
        0
    } else {
        packets_needed(writes.drop_last()) + chunk_count(writes.last().len())
    }
}

/// The packets that carry `bytes` carry exactly `bytes`, as long as the
/// sequence numbers suffice for them.
pub proof fn lemma_stream_payloads(
    bytes: Seq<u8>,
    first: u32,
    ptyp: PacketType,
    peer: [u8; 4],
    port: u16,
)
    requires
        first + chunk_count(bytes.len()) <= u32::MAX,
    ensures
        stream_packets(bytes, first, ptyp, peer, port).len() == chunk_count(bytes.len()),
        payloads(stream_packets(bytes, first, ptyp, peer, port)) == bytes,
{
    let packets = stream_packets(bytes, first, ptyp, peer, port);
    lemma_stream_payloads_prefix(bytes, packets, packets.len() as int);
    assert(packets.take(packets.len() as int) =~= packets);
    let k = chunk_count(bytes.len()) as int;
    if k > 0 {
        assert(chunk_end(bytes.len(), k - 1) == bytes.len());
    }
    assert(bytes.take(bytes.len() as int) =~= bytes);
}

/// The first `n` of the packets that carry `bytes` carry the bytes up to the
/// end of the last of them.
proof fn lemma_stream_payloads_prefix(bytes: Seq<u8>, packets: Seq<PacketView>, n: int)
    requires
        packets.len() == chunk_count(bytes.len()),
        forall|i: int|
            0 <= i < packets.len() ==> (#[trigger] packets[i]).data == chunk_at(bytes, i),
        0 <= n <= packets.len(),
    ensures
        payloads(packets.take(n)) == bytes.take(
            if n == 0 {
                0
            } else {
                chunk_end(bytes.len(), n - 1)
            },
        ),
    decreases n,
{
    if n > 0 {
        lemma_stream_payloads_prefix(bytes, packets, n - 1);
        lemma_payloads_step(packets, n - 1);
        assert(packets[n - 1].data == chunk_at(bytes, n - 1));
        if n > 1 {
            assert(chunk_end(bytes.len(), n - 2) == PACKET_DATA_CAPACITY * (n - 1));
        }
        assert(payloads(packets.take(n)) =~= bytes.take(chunk_end(bytes.len(), n - 1)));
    } else {
        assert(packets.take(0) =~= Seq::<PacketView>::empty());
        assert(bytes.take(0) =~= Seq::<u8>::empty());
    }
}

/// Several writes from an empty queue leave a queue of packets that are
/// numbered one after the other from the writer's first sequence number and
/// carry the written bytes in order, as long as the sequence numbers suffice
/// for them.
pub proof fn lemma_writes_queue(w: StreamView, writes: Seq<Seq<u8>>)
    requires
        w.send_queue.len() == 0,
        w.next_seq + packets_needed(writes) <= u32::MAX,
    ensures
        after_writes(w, writes).next_seq == w.next_seq + packets_needed(writes),
        after_writes(w, writes).send_queue.len() == packets_needed(writes),
        numbered(after_writes(w, writes).send_queue, w.next_seq),
        payloads(after_writes(w, writes).send_queue) == written(writes),
    decreases writes.len(),
{
    if writes.len() == 0 {
        assert(payloads(w.send_queue) =~= Seq::<u8>::empty());
    } else {
        let earlier = writes.drop_last();
        lemma_writes_queue(w, earlier);
        let t = after_writes(w, earlier);
        let fresh = stream_packets(
            writes.last(),
            t.next_seq,
            PacketType::Data,
            t.remote.ip,
            t.remote.port,
        );
        lemma_stream_payloads(
            writes.last(),
            t.next_seq,
            PacketType::Data,
            t.remote.ip,
            t.remote.port,
        );
        lemma_payloads_append(t.send_queue, fresh);
        let u = after_writes(w, writes);
        assert(u.send_queue == t.send_queue + fresh);
        assert forall|i: int| 0 <= i < u.send_queue.len() implies (#[trigger] u.send_queue[i]).nseq
            == w.next_seq + i by {
            if i >= t.send_queue.len() {
                assert(u.send_queue[i] == fresh[i - t.send_queue.len()]);
            } else {
                assert(u.send_queue[i] == t.send_queue[i]);
            }
        }
    }
}

/// Sequencing, as the two sides see it: let one side, with nothing queued,
/// write several times, and let the other stand at the writer's first
/// sequence number and hold nothing at or past it. Then whatever becomes of
/// the packets that the writes queue, the reader has read a front part of
/// the written bytes at every moment; and once each packet has arrived at
/// least once, every further read hands out exactly the bytes that come
/// next, as many as it has room for or all that are left. The writer must
/// have sequence numbers left for all its packets, and the reader must not
/// have been told of an end before them.
pub proof fn lemma_written_is_read(
    writer: StreamView,
    reader: StreamView,
    writes: Seq<Seq<u8>>,
    history: Seq<Happening>,
    room: nat,
)
    requires
        writer.send_queue.len() == 0,
        writer.next_seq + packets_needed(writes) <= u32::MAX,
        reader.next_expected == writer.next_seq,
        forall|q: u32| #[trigger] reader.recv_buffer.contains_key(q) ==> q < writer.next_seq,
        reader.last_seq matches Some(l) ==> l >= writer.next_seq + packets_needed(writes),
        arrivals_known(history, packets_needed(writes)),
    ensures
        ({
            let queue = after_writes(writer, writes).send_queue;
            let before = replay(reader, queue, history).1;
            let after = replay(reader, queue, history.push(Happening::Read(room))).1;
            let rest = written(writes).len() - before.len();
            &&& rest >= 0
            &&& before == written(writes).take(before.len() as int)
            &&& all_arrive(history, packets_needed(writes)) ==> {
                &&& after.len() == before.len() + if room <= rest {
                    room as int
                } else {
                    rest
                }
                &&& after == written(writes).take(after.len() as int)
                &&& (room >= rest ==> after == written(writes))
            }
        }),
{
    lemma_writes_queue(writer, writes);
    let queue = after_writes(writer, writes).send_queue;
    lemma_reader_sees_prefix(reader, queue, writer.next_seq, history);
    if all_arrive(history, packets_needed(writes)) {
        lemma_reader_sees_next(reader, queue, writer.next_seq, history, room);
        assert(written(writes).take(written(writes).len() as int) =~= written(writes));
    }
}

/// Whether `p` is one of the packets `ps`, by its sequence number and its
/// payload.
pub open spec fn one_of(p: PacketView, ps: Seq<PacketView>) -> bool {
    exists|i: int| 0 <= i < ps.len() && (#[trigger] ps[i]).nseq == p.nseq && ps[i].data == p.data
}

/// Whether what `event` brings belongs to the conversation in which the
/// packets `ps`, numbered from `first`, are all the data: a data packet is
/// one of them, and a FLUSH or a FIN names an end that is not before the
/// last of them. An event that brings no packet always does.
pub open spec fn fits(event: Event, ps: Seq<PacketView>, first: u32) -> bool {
    event matches Event::Received { datagram, from } ==> (spec_decode(datagram@) matches Some(p)
        ==> {
        &&& p.ptyp == PacketType::Data ==> one_of(p, ps)
        &&& p.ptyp == PacketType::Fin || p.ptyp == PacketType::Flush ==> p.nseq >= first
            + ps.len()
    })
}

/// One step of an operation that runs at the reader's end.
pub enum Turn {
    /// A step of the read `read` that takes `event`.
    Read { read: ReadOp, event: Event },
    /// A step of the write `write` of `bytes` that takes `event`.
    Write { write: WriteOp, bytes: Seq<u8>, event: Event },
}

/// The event that a turn takes.
pub open spec fn taken(t: Turn) -> Event {
    match t {
        Turn::Read { read, event } => event,
        Turn::Write { write, bytes, event } => event,
    }
}

/// The stream after the steps `turns`, and all the bytes that the reads
/// among them have handed out.
pub open spec fn run(s: StreamView, turns: Seq<Turn>) -> (StreamView, Seq<u8>)
    decreases turns.len(),
{
    if turns.len() == 0 {
        (s, Seq::<u8>::empty())
    } else {
        let (t, out) = run(s, turns.drop_last());
        match turns.last() {
            Turn::Read { read, event } => (
                t.read_step(read, event).0,
                out + t.read_step(read, event).2,
            ),
            Turn::Write { write, bytes, event } => (t.write_step(write, bytes, event).0, out),
        }
    }
}

/// A read that has nothing to wait for leaves the reader in step, whatever
/// it decides.
proof fn lemma_decide_carries(
    s: StreamView,
    op: ReadOp,
    ps: Seq<PacketView>,
    first: u32,
    out: Seq<u8>,
)
    requires
        carries(s, ps, first, out),
    ensures
        carries(s.read_decide(op).0, ps, first, out + s.read_decide(op).2),
{
    assert(out + Seq::<u8>::empty() =~= out);
    if op.red < op.want {
        lemma_drain_carries(s, ps, first, out, (op.want - op.red) as nat);
    }
}

/// Every step of a read leaves the reader in step: whatever the socket
/// brings, as long as it belongs to the conversation, the bytes that the
/// step hands out are those that come next.
pub proof fn lemma_read_step_carries(
    s: StreamView,
    op: ReadOp,
    event: Event,
    ps: Seq<PacketView>,
    first: u32,
    out: Seq<u8>,
)
    requires
        carries(s, ps, first, out),
        fits(event, ps, first),
    ensures
        carries(s.read_step(op, event).0, ps, first, out + s.read_step(op, event).2),
{
    assert(out + Seq::<u8>::empty() =~= out);
    match op.phase {
        ReadPhase::Idle => {
            lemma_decide_carries(s, op, ps, first, out);
        },
        ReadPhase::Receiving => {
            match event {
                Event::Received { datagram, from } => {
                    match spec_decode(datagram@) {
                        None => {
                            lemma_decide_carries(s, op, ps, first, out);
                        },
                        Some(p) => {
                            if p.ptyp == PacketType::Data {
                                let i = choose|i: int|
                                    0 <= i < ps.len() && (#[trigger] ps[i]).nseq == p.nseq
                                        && ps[i].data == p.data;
                                lemma_arrival_carries(s, ps, first, out, i);
                            }
                            lemma_decide_carries(s.read_packet(p), op, ps, first, out);
                        },
                    }
                },
                Event::ReceiveFailed(f) => {
                    lemma_decide_carries(s.latch(f), op, ps, first, out);
                    lemma_decide_carries(s, op, ps, first, out);
                },
                _ => {
                    lemma_decide_carries(s, op, ps, first, out);
                },
            }
        },
        ReadPhase::Acking => {
            lemma_decide_carries(s.after_send(event), op, ps, first, out);
        },
        ReadPhase::FinAcking(left) => {
            lemma_decide_carries(s, op, ps, first, out);
        },
        ReadPhase::Finished(_) => {},
    }
}

/// The data packet that a step of the write `op` takes in with `event`, if
/// it takes one in: the write waits for an answer and a data packet comes.
pub open spec fn data_in_write(op: WriteOp, event: Event) -> Option<PacketView> {
    match (op.phase, event) {
        (WritePhase::Awaiting(left), Event::Received { datagram, from }) => {
            match spec_decode(datagram@) {
                Some(p) => if left > 0 && p.ptyp == PacketType::Data {
                    Some(p)
                } else {
                    None
                },
                None => None,
            }
        },
        _ => None,
    }
}

/// Every step of a write at the reader's end leaves the reader in step:
/// a data packet that arrives meanwhile is kept for the reads to come, and
/// nothing else that the write does touches what is read.
pub proof fn lemma_write_step_carries(
    s: StreamView,
    op: WriteOp,
    bytes: Seq<u8>,
    event: Event,
    ps: Seq<PacketView>,
    first: u32,
    out: Seq<u8>,
)
    requires
        carries(s, ps, first, out),
        fits(event, ps, first),
    ensures
        carries(s.write_step(op, bytes, event).0, ps, first, out),
{
    let t = s.write_step(op, bytes, event).0;
    if let Some(p) = data_in_write(op, event) {
        let i = choose|i: int|
            0 <= i < ps.len() && (#[trigger] ps[i]).nseq == p.nseq && ps[i].data == p.data;
        lemma_arrival_carries(s, ps, first, out, i);
    } else {
        assert(t.next_expected == s.next_expected);
        assert(t.recv_buffer == s.recv_buffer);
        assert(t.last_seq == s.last_seq);
    }
}

/// Reads and writes hand the bytes on in order, step by step: take a
/// stream in step with the packets `ps`, and let any steps of reads and
/// writes follow, of reads of any size and with any budget, fed with any
/// events that belong to the conversation: packets in any order, copies,
/// timeouts, failures. Then the stream is still in step, and all the bytes
/// that the reads have handed out, one after the other, stand at the front
/// of the bytes that the packets carry. Once the stream has reached the end
/// that the other side named, they are all the bytes that the packets
/// carry.
pub proof fn lemma_run_hands_out_prefix(
    s: StreamView,
    ps: Seq<PacketView>,
    first: u32,
    out: Seq<u8>,
    turns: Seq<Turn>,
)
    requires
        carries(s, ps, first, out),
        forall|h: int| 0 <= h < turns.len() ==> fits(taken(#[trigger] turns[h]), ps, first),
    ensures
        carries(run(s, turns).0, ps, first, out + run(s, turns).1),
        (out + run(s, turns).1).len() <= payloads(ps).len(),
        out + run(s, turns).1 == payloads(ps).take((out + run(s, turns).1).len() as int),
        run(s, turns).0.drained() ==> out + run(s, turns).1 == payloads(ps),
    decreases turns.len(),
{
    if turns.len() == 0 {
        assert(out + Seq::<u8>::empty() =~= out);
    } else {
        let before = turns.drop_last();
        assert forall|h: int| 0 <= h < before.len() implies fits(
            taken(#[trigger] before[h]),
            ps,
            first,
        ) by {
            assert(before[h] == turns[h]);
        }
        lemma_run_hands_out_prefix(s, ps, first, out, before);
        let (t, got) = run(s, before);
        assert(fits(taken(turns[turns.len() - 1]), ps, first));
        match turns.last() {
            Turn::Read { read, event } => {
                lemma_read_step_carries(t, read, event, ps, first, out + got);
                let more = t.read_step(read, event).2;
                assert((out + got) + more =~= out + (got + more));
            },
            Turn::Write { write, bytes, event } => {
                lemma_write_step_carries(t, write, bytes, event, ps, first, out + got);
            },
        }
    }
    lemma_carries_prefix(run(s, turns).0, ps, first, out + run(s, turns).1);
}

/// Sequencing, step by step: let one side, with nothing queued, write
/// several times, and let the other stand at the writer's first sequence
/// number and hold nothing at or past it. Let any
/// steps of reads and writes follow at the reader's end, of reads of any
/// size, fed with the writer's data packets in any order and number, with
/// a FLUSH or a FIN that names the writer's next sequence number or a later
/// one, and with any other events. Then all the bytes that the reads have
/// handed out, one after the other, stand at the front of the written bytes,
/// and they are all the written bytes once the reader has reached the end
/// that the writer named.
pub proof fn lemma_written_is_read_in_steps(
    writer: StreamView,
    reader: StreamView,
    writes: Seq<Seq<u8>>,
    turns: Seq<Turn>,
)
    requires
        writer.send_queue.len() == 0,
        writer.next_seq + packets_needed(writes) <= u32::MAX,
        reader.next_expected == writer.next_seq,
        forall|q: u32| #[trigger] reader.recv_buffer.contains_key(q) ==> q < writer.next_seq,
        reader.last_seq matches Some(l) ==> l >= writer.next_seq + packets_needed(writes),
        forall|h: int|
            0 <= h < turns.len() ==> fits(
                taken(#[trigger] turns[h]),
                after_writes(writer, writes).send_queue,
                writer.next_seq,
            ),
    ensures
        run(reader, turns).1.len() <= written(writes).len(),
        run(reader, turns).1 == written(writes).take(run(reader, turns).1.len() as int),
        run(reader, turns).0.drained() ==> run(reader, turns).1 == written(writes),
{
    lemma_writes_queue(writer, writes);
    let queue = after_writes(writer, writes).send_queue;
    lemma_fresh_carries(reader, queue, writer.next_seq);
    lemma_run_hands_out_prefix(reader, queue, writer.next_seq, Seq::<u8>::empty(), turns);
    assert(Seq::<u8>::empty() + run(reader, turns).1 =~= run(reader, turns).1);
}

/// The number of payload bytes in a run of packets.
pub open spec fn payload_total(q: Seq<PacketView>) -> nat
    decreases q.len(),
{
    if q.len() == 0 {
        0
    } else {
        payload_total(q.drop_last()) + q.last().data.len()
    }
}

/// Whether one of the packets has the sequence number `n`.
pub open spec fn has_seq(q: Seq<PacketView>, n: u32) -> bool {
    exists|i: int| 0 <= i < q.len() && (#[trigger] q[i]).nseq == n
}

/// The writer after acknowledgements for `seqs` have arrived, one after the
/// other, and the number of payload bytes that they acknowledged.
pub open spec fn acknowledge_all(s: StreamView, seqs: Seq<u32>) -> (StreamView, nat)
    decreases seqs.len(),
{
    if seqs.len() == 0 {
        (s, 0)
    } else {
        let (t, n) = acknowledge_all(s, seqs.drop_last());
        (t.acked(seqs.last()).0, n + t.acked(seqs.last()).1)
    }
}

/// A run of packets without one of them holds that packet's payload bytes
/// less.
pub proof fn lemma_payload_total_remove(q: Seq<PacketView>, i: int)
    requires
        0 <= i < q.len(),
    ensures
        payload_total(q.remove(i)) + q[i].data.len() == payload_total(q),
    decreases q.len(),
{
    if i == q.len() - 1 {
        assert(q.remove(i) =~= q.drop_last());
    } else {
        lemma_payload_total_remove(q.drop_last(), i);
        assert(q.remove(i).drop_last() =~= q.drop_last().remove(i));
        assert(q.remove(i).last() == q.last());
    }
}

/// The packets that carry `bytes` hold as many payload bytes as `bytes`
/// has, as long as the sequence numbers suffice for them.
pub proof fn lemma_payload_total_stream(
    bytes: Seq<u8>,
    first: u32,
    ptyp: PacketType,
    peer: [u8; 4],
    port: u16,
)
    requires
        first + chunk_count(bytes.len()) <= u32::MAX,
    ensures
        payload_total(stream_packets(bytes, first, ptyp, peer, port)) == bytes.len(),
{
    let packets = stream_packets(bytes, first, ptyp, peer, port);
    lemma_payload_total_prefix(bytes, packets, packets.len() as int);
    assert(packets.take(packets.len() as int) =~= packets);
    let k = chunk_count(bytes.len()) as int;
    if k > 0 {
        assert(chunk_end(bytes.len(), k - 1) == bytes.len());
    }
}

/// The first `n` of the packets that carry `bytes` hold the bytes up to
/// the end of the last of them.
proof fn lemma_payload_total_prefix(bytes: Seq<u8>, packets: Seq<PacketView>, n: int)
    requires
        packets.len() == chunk_count(bytes.len()),
        forall|i: int|
            0 <= i < packets.len() ==> (#[trigger] packets[i]).data == chunk_at(bytes, i),
        0 <= n <= packets.len(),
    ensures
        payload_total(packets.take(n)) == if n == 0 {
            0
        } else {
            chunk_end(bytes.len(), n - 1)
        },
    decreases n,
{
    if n > 0 {
        lemma_payload_total_prefix(bytes, packets, n - 1);
        assert(packets.take(n).drop_last() =~= packets.take(n - 1));
        assert(packets.take(n).last() == packets[n - 1]);
        assert(packets[n - 1].data == chunk_at(bytes, n - 1));
        assert(chunk_at(bytes, n - 1).len() == chunk_end(bytes.len(), n - 1) - PACKET_DATA_CAPACITY
            * (n - 1));
        if n > 1 {
            assert(chunk_end(bytes.len(), n - 2) == PACKET_DATA_CAPACITY * (n - 1));
        }
    }
}

/// An acknowledgement leaves the writer in order: the queue loses at most
/// the one packet that is acknowledged, the bytes counted are that packet's,
/// and no packet with that sequence number stays behind.
pub proof fn lemma_acked(s: StreamView, seq: u32)
    requires
        s.valid(),
    ensures
        s.acked(seq).0.valid(),
        s.acked(seq).1 + payload_total(s.acked(seq).0.send_queue) == payload_total(s.send_queue),
        !has_seq(s.acked(seq).0.send_queue, seq),
        forall|n: u32| #[trigger]
            has_seq(s.acked(seq).0.send_queue, n) ==> has_seq(s.send_queue, n),
{
    let q = s.send_queue;
    let t = s.acked(seq).0;
    crate::stream::lemma_find_seq(q, seq);
    match crate::stream::find_seq(q, seq) {
        Some(i) => {
            let after = q.remove(i);
            lemma_payload_total_remove(q, i);
            assert forall|j: int| 0 <= j < after.len() implies #[trigger] after[j] == q[if j < i {
                j
            } else {
                j + 1
            }] by {}
            assert(t.valid());
            assert forall|n: u32| has_seq(after, n) implies has_seq(q, n) by {
                let j = choose|j: int| 0 <= j < after.len() && (#[trigger] after[j]).nseq == n;
                assert(q[if j < i {
                    j
                } else {
                    j + 1
                }].nseq == n);
            }
            if has_seq(after, seq) {
                let j = choose|j: int| 0 <= j < after.len() && (#[trigger] after[j]).nseq == seq;
                let k = if j < i {
                    j
                } else {
                    j + 1
                };
                assert(q[k].nseq == seq && k != i);
                if k < i {
                    assert(q[k].nseq < q[i].nseq);
                } else {
                    assert(q[i].nseq < q[k].nseq);
                }
            }
        },
        None => {
            if has_seq(q, seq) {
                let j = choose|j: int| 0 <= j < q.len() && (#[trigger] q[j]).nseq == seq;
                assert(q[j].nseq != seq);
            }
        },
    }
}

/// Acknowledgements, in whatever order and however often they come, count
/// every payload byte that leaves the queue exactly once; and once every
/// queued packet has been acknowledged, the queue is empty.
pub proof fn lemma_acknowledge_all(s: StreamView, seqs: Seq<u32>)
    requires
        s.valid(),
    ensures
        acknowledge_all(s, seqs).0.valid(),
        acknowledge_all(s, seqs).1 + payload_total(acknowledge_all(s, seqs).0.send_queue)
            == payload_total(s.send_queue),
        forall|n: u32| #[trigger]
            has_seq(acknowledge_all(s, seqs).0.send_queue, n) ==> has_seq(s.send_queue, n)
                && !seqs.contains(n),
        (forall|i: int| 0 <= i < s.send_queue.len() ==> seqs.contains(
            (#[trigger] s.send_queue[i]).nseq,
        )) ==> acknowledge_all(s, seqs).0.send_queue.len() == 0 && acknowledge_all(s, seqs).1
            == payload_total(s.send_queue),
    decreases seqs.len(),
{
    let done = acknowledge_all(s, seqs).0;
    if seqs.len() > 0 {
        let earlier = seqs.drop_last();
        lemma_acknowledge_all(s, earlier);
        let t = acknowledge_all(s, earlier).0;
        lemma_acked(t, seqs.last());
        assert(done == t.acked(seqs.last()).0);
        assert forall|n: u32| has_seq(done.send_queue, n) implies has_seq(s.send_queue, n)
            && !seqs.contains(n) by {
            assert(has_seq(t.send_queue, n));
            assert(has_seq(s.send_queue, n) && !earlier.contains(n));
            assert(n != seqs.last());
            if seqs.contains(n) {
                let k = choose|k: int| 0 <= k < seqs.len() && seqs[k] == n;
                assert(k < seqs.len() - 1);
                assert(earlier[k] == n);
            }
        }
    } else {
        assert(done == s);
        assert forall|n: u32| has_seq(done.send_queue, n) implies has_seq(s.send_queue, n)
            && !seqs.contains(n) by {}
    }
    if forall|i: int|
        0 <= i < s.send_queue.len() ==> seqs.contains((#[trigger] s.send_queue[i]).nseq) {
        if done.send_queue.len() > 0 {
            let n = done.send_queue[0].nseq;
            assert(has_seq(done.send_queue, n));
            assert(has_seq(s.send_queue, n) && !seqs.contains(n));
            let i = choose|i: int| 0 <= i < s.send_queue.len() && (#[trigger] s.send_queue[i]).nseq
                == n;
            assert(seqs.contains(s.send_queue[i].nseq));
        }
        assert(payload_total(done.send_queue) == 0);
    }
}

/// What is acknowledged is written: let a writer with nothing queued queue
/// `bytes`. Once an acknowledgement has come for each of the packets, in
/// whatever order and among whatever other acknowledgements, the queue is
/// empty again and the bytes counted are as many as `bytes` has.
pub proof fn lemma_acknowledged_is_written(writer: StreamView, bytes: Seq<u8>, seqs: Seq<u32>)
    requires
        writer.valid(),
        writer.send_queue.len() == 0,
        writer.next_seq + chunk_count(bytes.len()) <= u32::MAX,
        forall|n: u32|
            writer.next_seq <= n < writer.next_seq + chunk_count(bytes.len())
                ==> #[trigger] seqs.contains(n),
    ensures
        acknowledge_all(writer.enqueue(bytes), seqs).0.send_queue.len() == 0,
        acknowledge_all(writer.enqueue(bytes), seqs).1 == bytes.len(),
{
    let packets = stream_packets(
        bytes,
        writer.next_seq,
        PacketType::Data,
        writer.remote.ip,
        writer.remote.port,
    );
    let queued = writer.enqueue(bytes);
    assert(queued.send_queue =~= packets);
    assert(queued.valid());
    lemma_payload_total_stream(
        bytes,
        writer.next_seq,
        PacketType::Data,
        writer.remote.ip,
        writer.remote.port,
    );
    assert forall|i: int| 0 <= i < queued.send_queue.len() implies seqs.contains(
        (#[trigger] queued.send_queue[i]).nseq,
    ) by {
        assert(queued.send_queue[i].nseq == (writer.next_seq + i) as u32);
    }
    lemma_acknowledge_all(queued, seqs);
}

} // verus!
