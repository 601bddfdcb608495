use socketioxide::packet::{Encoding, FramingError, Packet};

fn samples() -> Vec<Packet> {
    vec![
        Packet::Open(b"{\"sid\":\"abc\"}".to_vec()),
        Packet::Open(vec![]),
        Packet::Close,
        Packet::Ping { probe: false },
        Packet::Ping { probe: true },
        Packet::Pong { probe: false },
        Packet::Pong { probe: true },
        Packet::Message(b"2[\"hello\"]".to_vec()),
        Packet::Message(vec![]),
        Packet::Message(vec![0, 255, 7]),
        Packet::Upgrade,
        Packet::Noop,
    ]
}

#[test]
fn text_frames_start_with_a_digit() {
    assert_eq!(Packet::Open(b"{}".to_vec()).encode(Encoding::Text), b"0{}");
    assert_eq!(Packet::Close.encode(Encoding::Text), b"1");
    assert_eq!(Packet::Ping { probe: false }.encode(Encoding::Text), b"2");
    assert_eq!(Packet::Ping { probe: true }.encode(Encoding::Text), b"2probe");
    assert_eq!(Packet::Pong { probe: false }.encode(Encoding::Text), b"3");
    assert_eq!(Packet::Pong { probe: true }.encode(Encoding::Text), b"3probe");
    assert_eq!(Packet::Message(b"hello".to_vec()).encode(Encoding::Text), b"4hello");
    assert_eq!(Packet::Upgrade.encode(Encoding::Text), b"5");
    assert_eq!(Packet::Noop.encode(Encoding::Text), b"6");
}

#[test]
fn binary_frames_start_with_the_bare_code() {
    assert_eq!(Packet::Open(b"{}".to_vec()).encode(Encoding::Binary), [0, b'{', b'}']);
    assert_eq!(Packet::Close.encode(Encoding::Binary), [1]);
    assert_eq!(Packet::Ping { probe: true }.encode(Encoding::Binary), b"\x02probe");
    assert_eq!(Packet::Pong { probe: false }.encode(Encoding::Binary), [3]);
    assert_eq!(Packet::Message(vec![9, 8]).encode(Encoding::Binary), [4, 9, 8]);
    assert_eq!(Packet::Upgrade.encode(Encoding::Binary), [5]);
    assert_eq!(Packet::Noop.encode(Encoding::Binary), [6]);
}

#[test]
fn frames_decode_to_their_packets() {
    assert_eq!(Packet::decode(b"2probe", Encoding::Text), Ok(Packet::Ping { probe: true }));
    assert_eq!(Packet::decode(b"3", Encoding::Text), Ok(Packet::Pong { probe: false }));
    assert_eq!(Packet::decode(b"4", Encoding::Text), Ok(Packet::Message(vec![])));
    assert_eq!(Packet::decode(b"4probe", Encoding::Text), Ok(Packet::Message(b"probe".to_vec())));
    assert_eq!(Packet::decode(&[5], Encoding::Binary), Ok(Packet::Upgrade));
    assert_eq!(Packet::decode(&[0, 1, 2], Encoding::Binary), Ok(Packet::Open(vec![1, 2])));
}

#[test]
fn every_packet_survives_its_frame() {
    for encoding in [Encoding::Text, Encoding::Binary] {
        for packet in samples() {
            let frame = packet.encode(encoding);
            assert_eq!(Packet::decode(&frame, encoding), Ok(packet));
        }
    }
}

#[test]
fn every_frame_is_the_frame_of_its_packet() {
    let frames: [&[u8]; 5] = [b"0abc", b"1", b"2probe", b"4", b"6"];
    for frame in frames {
        let packet = Packet::decode(frame, Encoding::Text).unwrap();
        assert_eq!(packet.encode(Encoding::Text), frame);
    }
}

#[test]
fn an_empty_frame_is_refused() {
    assert_eq!(Packet::decode(b"", Encoding::Text), Err(FramingError::Empty));
    assert_eq!(Packet::decode(b"", Encoding::Binary), Err(FramingError::Empty));
}

#[test]
fn an_unknown_type_is_refused() {
    assert_eq!(Packet::decode(b"7", Encoding::Text), Err(FramingError::UnknownType));
    assert_eq!(Packet::decode(b"x4", Encoding::Text), Err(FramingError::UnknownType));
    assert_eq!(Packet::decode(b"/", Encoding::Text), Err(FramingError::UnknownType));
    assert_eq!(Packet::decode(&[4], Encoding::Text), Err(FramingError::UnknownType));
    assert_eq!(Packet::decode(&[7], Encoding::Binary), Err(FramingError::UnknownType));
    assert_eq!(Packet::decode(b"4", Encoding::Binary), Err(FramingError::UnknownType));
}

#[test]
fn data_where_none_belongs_is_refused() {
    assert_eq!(Packet::decode(b"1x", Encoding::Text), Err(FramingError::UnexpectedData));
    assert_eq!(Packet::decode(b"5 ", Encoding::Text), Err(FramingError::UnexpectedData));
    assert_eq!(Packet::decode(b"6probe", Encoding::Text), Err(FramingError::UnexpectedData));
    assert_eq!(Packet::decode(b"2prob", Encoding::Text), Err(FramingError::UnexpectedData));
    assert_eq!(Packet::decode(b"3probes", Encoding::Text), Err(FramingError::UnexpectedData));
    assert_eq!(Packet::decode(&[2, 0], Encoding::Binary), Err(FramingError::UnexpectedData));
}
