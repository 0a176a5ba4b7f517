use rand::distributions::Alphanumeric;
use rand::{thread_rng, Rng};
use udpx::packet::{
    buffer, data_buffer, packet_buffer, BufferTooSmall, MalformedPacket, Packet, PacketStream,
    PacketType,
};
use udpx::transport::Endpoint;

fn default_peer() -> [u8; 4] {
    [192, 168, 2, 1]
}

/// Asserts that a packet stream has the specified contents
fn assert_packet_stream(packets: PacketStream, expected: &[Packet]) {
    assert_eq!(expected, packets.collect().as_slice());
}

/// Converts a string to the packets that carry it
fn to_packet_chunks(data: &str) -> Vec<Packet> {
    let mut seq = 1;
    data.as_bytes()
        .chunks(Packet::PACKET_DATA_CAPACITY)
        .map(|chunk| Packet {
            nseq: {
                seq += 1;
                seq - 1
            },
            peer: default_peer(),
            data: chunk.into(),
            ..Default::default()
        })
        .collect()
}

/// Creates a [Packet] with randomized fields
fn random_packet() -> Packet {
    let r = || thread_rng().gen();
    Packet {
        ptyp: thread_rng().gen_range(0u8..=5).into(),
        nseq: thread_rng().gen(),
        peer: [r(), r(), r(), r()],
        port: thread_rng().gen(),
        data: thread_rng()
            .sample_iter(&Alphanumeric)
            .take(Packet::PACKET_DATA_CAPACITY)
            .collect(),
    }
}

fn random_string(n: usize) -> String {
    thread_rng()
        .sample_iter(&Alphanumeric)
        .take(n)
        .map(char::from)
        .collect::<String>()
}

#[test]
fn test_packet_stream_empty() {
    assert_packet_stream(Packet::stream("".as_bytes()), &[]);
}

#[test]
fn test_packet_stream_simple() {
    let peer = default_peer();
    let data = "Hello world!";
    assert_packet_stream(
        Packet::stream(data.as_bytes())
            .seq(1)
            .port(8080)
            .peer(peer)
            .packet_type(PacketType::Data),
        &[Packet {
            peer,
            port: 8080,
            ptyp: PacketType::Data,
            nseq: 1,
            data: data.as_bytes().into(),
        }],
    )
}

#[test]
fn test_packet_stream_two_packets() {
    let peer = default_peer();
    let data = "a".repeat(Packet::PACKET_DATA_CAPACITY).repeat(2);
    assert_packet_stream(
        Packet::stream(data.as_bytes()).peer(peer),
        &to_packet_chunks(&data),
    )
}

#[test]
fn test_stream_chunking_sizes() {
    for shift in 1..=20 {
        let data = random_string(1 << shift);
        assert_packet_stream(
            Packet::stream(data.as_bytes()).peer(default_peer()),
            &to_packet_chunks(&data),
        )
    }
}

/// Tests that packet serialization and deserialization works as expected by
/// creating random packets then serializing and deserializing them
#[test]
fn test_packet_serialization() {
    for packet in (0..100).map(|_| random_packet()) {
        let packet2 = Packet::from(&packet.raw());
        assert_eq!(packet, packet2);
    }
}

#[test]
fn encoding_is_header_then_payload() {
    let p = Packet {
        ptyp: PacketType::Data,
        nseq: 0x01020304,
        peer: [10, 20, 30, 40],
        port: 0x1F90,
        data: vec![b'h', b'i'],
    };
    assert_eq!(
        p.raw(),
        vec![4, 1, 2, 3, 4, 10, 20, 30, 40, 0x1F, 0x90, b'h', b'i']
    );
    assert_eq!(p.len(), 13);
    assert!(!p.is_empty());
}

#[test]
fn header_only_packet_is_eleven_bytes() {
    let p = Packet {
        ptyp: PacketType::Ack,
        nseq: 2,
        peer: [127, 0, 0, 1],
        port: 8080,
        data: vec![],
    };
    let raw = p.raw();
    assert_eq!(raw.len(), Packet::MIN_PACKET_SIZE);
    assert_eq!(raw, vec![0, 0, 0, 0, 2, 127, 0, 0, 1, 0x1F, 0x90]);
    assert_eq!(Packet::try_from(&raw), Ok(p));
}

#[test]
fn full_packet_is_1025_bytes() {
    let p = Packet {
        data: vec![7; Packet::PACKET_DATA_CAPACITY],
        ..Default::default()
    };
    assert_eq!(p.raw().len(), Packet::MAX_PACKET_SIZE);
    assert_eq!(Packet::MAX_PACKET_SIZE, 1025);
    assert_eq!(Packet::PACKET_DATA_CAPACITY, 1014);
}

#[test]
fn short_datagram_is_malformed() {
    for n in 0..11 {
        let buf = vec![1u8; n];
        assert_eq!(Packet::try_from(&buf), Err(MalformedPacket { size: n }));
    }
    assert!(Packet::try_from(&[1u8; 11]).is_ok());
}

#[test]
fn type_codes_are_fixed() {
    let all = [
        (PacketType::Ack, 0u8),
        (PacketType::Syn, 1),
        (PacketType::SynAck, 2),
        (PacketType::Nak, 3),
        (PacketType::Data, 4),
        (PacketType::Fin, 5),
        (PacketType::FinAck, 6),
        (PacketType::Flush, 7),
        (PacketType::Invalid, 0xFF),
    ];
    for (t, code) in all {
        assert_eq!(u8::from(t), code);
        assert_eq!(PacketType::from(code), t);
    }
    for code in 8u8..0xFF {
        assert_eq!(PacketType::from(code), PacketType::Invalid);
    }
    assert_eq!(PacketType::default(), PacketType::Data);
}

#[test]
fn unknown_type_byte_decodes_as_invalid() {
    let mut raw = Packet::default().raw();
    raw[0] = 42;
    assert_eq!(Packet::from(&raw).ptyp, PacketType::Invalid);
}

#[test]
fn round_trip_keeps_every_field() {
    for code in [0u8, 1, 2, 3, 4, 5, 6, 7] {
        for len in [0usize, 1, 6, 1013, 1014] {
            let p = Packet {
                ptyp: code.into(),
                nseq: u32::MAX - code as u32,
                peer: [255, 0, code, 1],
                port: 65535 - len as u16,
                data: (0..len).map(|i| (i % 251) as u8).collect(),
            };
            assert_eq!(Packet::try_from(&p.raw()), Ok(p.clone()));
            assert_eq!(p.raw().len(), 11 + len);
        }
    }
}

#[test]
fn write_to_fills_the_front_of_a_buffer() {
    let p = Packet {
        ptyp: PacketType::Syn,
        nseq: 0,
        peer: [1, 2, 3, 4],
        port: 5,
        data: vec![9, 9],
    };
    let mut buf = vec![0xAA; 16];
    assert_eq!(p.write_to(&mut buf), Ok(13));
    assert_eq!(&buf[..13], p.raw().as_slice());
    assert_eq!(&buf[13..], &[0xAA, 0xAA, 0xAA]);

    let mut small = vec![0xAA; 12];
    assert_eq!(
        p.write_to(&mut small),
        Err(BufferTooSmall {
            needed: 13,
            available: 12
        })
    );
    assert_eq!(small, vec![0xAA; 12]);
}

#[test]
fn default_packet_is_empty_data_to_localhost() {
    let p = Packet::default();
    assert_eq!(p.ptyp, PacketType::Data);
    assert_eq!(p.nseq, 0);
    assert_eq!(p.peer, [127, 0, 0, 1]);
    assert_eq!(p.port, 0);
    assert!(p.data.is_empty());
}

#[test]
fn packets_compare_by_value() {
    let p = random_packet();
    let mut q = p.clone();
    assert_eq!(p, q);
    q.data[3] ^= 1;
    assert_ne!(p, q);
    let mut q = p.clone();
    q.peer[2] = q.peer[2].wrapping_add(1);
    assert_ne!(p, q);
    let mut q = p.clone();
    q.data.pop();
    assert_ne!(p, q);
}

#[test]
fn stream_numbers_chunks_from_the_start_seq() {
    let data = vec![5u8; 1014 * 2 + 10];
    let packets = Packet::stream(&data)
        .seq(40)
        .remote(Endpoint {
            ip: [9, 8, 7, 6],
            port: 4242,
        })
        .packet_type(PacketType::Data)
        .collect();
    assert_eq!(packets.len(), 3);
    for (i, p) in packets.iter().enumerate() {
        assert_eq!(p.nseq, 40 + i as u32);
        assert_eq!(p.peer, [9, 8, 7, 6]);
        assert_eq!(p.port, 4242);
        assert_eq!(p.ptyp, PacketType::Data);
    }
    assert_eq!(packets[0].data.len(), 1014);
    assert_eq!(packets[1].data.len(), 1014);
    assert_eq!(packets[2].data.len(), 10);
}

#[test]
fn stream_setters_are_ignored_once_started() {
    let data = vec![1u8; 2000];
    let mut s = Packet::stream(&data).seq(7);
    assert_eq!(s.current_seq(), 7);
    let first = s.next().unwrap();
    assert_eq!(first.nseq, 7);
    let mut s = s
        .seq(100)
        .port(9)
        .peer([1, 1, 1, 1])
        .packet_type(PacketType::Fin);
    assert_eq!(s.current_seq(), 8);
    let second = s.next().unwrap();
    assert_eq!(second.nseq, 8);
    assert_eq!(second.port, 0);
    assert_eq!(second.peer, [127, 0, 0, 1]);
    assert_eq!(second.ptyp, PacketType::Data);
    assert!(s.next().is_none());
    assert!(s.next().is_none());
}

#[test]
fn stream_ends_where_sequence_numbers_end() {
    let data = vec![1u8; 1014 * 3];
    let packets = Packet::stream(&data).seq(u32::MAX - 2).collect();
    assert_eq!(packets.len(), 2);
    assert_eq!(packets[1].nseq, u32::MAX - 1);
    assert!(Packet::stream(&data).seq(u32::MAX).collect().is_empty());
}

#[test]
fn buffers_are_zeroed() {
    assert_eq!(packet_buffer(), vec![0u8; 1025]);
    assert_eq!(data_buffer(), vec![0u8; 1014]);
    assert_eq!(buffer::<5>(), [0u8; 5]);
}

#[test]
fn packet_types_have_names() {
    assert_eq!(PacketType::from("ack"), PacketType::Ack);
    assert_eq!(PacketType::from("SYN"), PacketType::Syn);
    assert_eq!(PacketType::from("SynAck"), PacketType::SynAck);
    assert_eq!(PacketType::from("syn-ack"), PacketType::SynAck);
    assert_eq!(PacketType::from("nak"), PacketType::Nak);
    assert_eq!(PacketType::from("Fin"), PacketType::Fin);
    assert_eq!(PacketType::from("FINACK"), PacketType::FinAck);
    assert_eq!(PacketType::from("fin-ack"), PacketType::FinAck);
    assert_eq!(PacketType::from("data"), PacketType::Data);
    assert_eq!(PacketType::from("flush"), PacketType::Data);
    assert_eq!(PacketType::from(""), PacketType::Data);
    assert_eq!(PacketType::from("syn_ack"), PacketType::Data);
    assert_eq!(PacketType::from(String::from("Nak")), PacketType::Nak);
}
