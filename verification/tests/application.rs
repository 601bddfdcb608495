use socketioxide::application::{ApplicationPacket, PacketKind};
use socketioxide::error::DecodeError;

fn packet(
    kind: PacketKind,
    namespace: &str,
    ack_id: Option<u64>,
    attachments: u64,
    payload: &str,
) -> ApplicationPacket {
    ApplicationPacket {
        kind,
        namespace: namespace.as_bytes().to_vec(),
        ack_id,
        attachments,
        payload: payload.as_bytes().to_vec(),
    }
}

fn samples() -> Vec<(ApplicationPacket, &'static str)> {
    vec![
        (packet(PacketKind::Connect, "/", None, 0, ""), "0"),
        (packet(PacketKind::Connect, "/admin", None, 0, "{\"token\":\"123\"}"), "0/admin,{\"token\":\"123\"}"),
        (packet(PacketKind::Disconnect, "/admin", None, 0, ""), "1/admin,"),
        (packet(PacketKind::Event, "/", None, 0, "[\"hello\",1]"), "2[\"hello\",1]"),
        (packet(PacketKind::Event, "/", Some(1), 0, "[\"chat message\",\"hi\"]"), "21[\"chat message\",\"hi\"]"),
        (
            packet(PacketKind::Event, "/admin", Some(456), 0, "[\"project:delete\",123]"),
            "2/admin,456[\"project:delete\",123]",
        ),
        (packet(PacketKind::Ack, "/admin", Some(456), 0, "[]"), "3/admin,456[]"),
        (packet(PacketKind::Ack, "/", Some(0), 0, "[\"ok\"]"), "30[\"ok\"]"),
        (
            packet(PacketKind::ConnectError, "/", None, 0, "{\"message\":\"Not authorized\"}"),
            "4{\"message\":\"Not authorized\"}",
        ),
        (
            packet(PacketKind::BinaryEvent, "/", None, 1, "[\"hello\",{\"_placeholder\":true,\"num\":0}]"),
            "51-[\"hello\",{\"_placeholder\":true,\"num\":0}]",
        ),
        (
            packet(PacketKind::BinaryAck, "/admin", Some(456), 1, "[{\"_placeholder\":true,\"num\":0}]"),
            "61-/admin,456[{\"_placeholder\":true,\"num\":0}]",
        ),
        (
            packet(PacketKind::BinaryEvent, "/", Some(u64::MAX), 12, "[]"),
            "512-18446744073709551615[]",
        ),
        (packet(PacketKind::BinaryEvent, "/", None, 0, "[]"), "50-[]"),
    ]
}

#[test]
fn packets_are_written_as_the_protocol_says() {
    for (packet, text) in samples() {
        assert_eq!(packet.encode(), text.as_bytes());
    }
}

#[test]
fn texts_are_read_as_the_protocol_says() {
    for (packet, text) in samples() {
        assert_eq!(ApplicationPacket::decode(text.as_bytes()), Ok(packet));
    }
}

#[test]
fn every_representable_packet_survives_its_text() {
    for (packet, _) in samples() {
        let text = packet.encode();
        assert_eq!(ApplicationPacket::decode(&text), Ok(packet));
    }
}

#[test]
fn a_namespace_may_end_the_text() {
    let expected = packet(PacketKind::Connect, "/admin", None, 0, "");
    assert_eq!(ApplicationPacket::decode(b"0/admin"), Ok(expected));
}

#[test]
fn an_ack_id_may_have_leading_zeros() {
    let expected = packet(PacketKind::Event, "/", Some(7), 0, "[]");
    assert_eq!(ApplicationPacket::decode(b"2007[]"), Ok(expected));
}

#[test]
fn an_empty_text_ends_early() {
    assert_eq!(ApplicationPacket::decode(b""), Err(DecodeError::UnexpectedEof));
}

#[test]
fn an_unknown_type_is_malformed() {
    assert_eq!(ApplicationPacket::decode(b"7[]"), Err(DecodeError::InvalidFormat));
    assert_eq!(ApplicationPacket::decode(b"[]"), Err(DecodeError::InvalidFormat));
    assert_eq!(ApplicationPacket::decode(b"9bad"), Err(DecodeError::InvalidFormat));
}

#[test]
fn a_binary_packet_needs_its_count() {
    assert_eq!(ApplicationPacket::decode(b"5[\"x\"]"), Err(DecodeError::InvalidFormat));
    assert_eq!(ApplicationPacket::decode(b"51[\"x\"]"), Err(DecodeError::InvalidFormat));
    assert_eq!(ApplicationPacket::decode(b"61"), Err(DecodeError::InvalidFormat));
    assert_eq!(ApplicationPacket::decode(b"5-[]"), Err(DecodeError::InvalidFormat));
}

#[test]
fn a_number_that_does_not_fit_is_out_of_range() {
    assert_eq!(
        ApplicationPacket::decode(b"218446744073709551616[]"),
        Err(DecodeError::OutOfRange)
    );
    assert_eq!(
        ApplicationPacket::decode(b"599999999999999999999999-[]"),
        Err(DecodeError::OutOfRange)
    );
    assert_eq!(
        ApplicationPacket::decode(b"2/a,99999999999999999999999999999999999999999999"),
        Err(DecodeError::OutOfRange)
    );
}

#[test]
fn kinds_have_their_codes() {
    let kinds = [
        PacketKind::Connect,
        PacketKind::Disconnect,
        PacketKind::Event,
        PacketKind::Ack,
        PacketKind::ConnectError,
        PacketKind::BinaryEvent,
        PacketKind::BinaryAck,
    ];
    for (code, kind) in kinds.iter().enumerate() {
        assert_eq!(kind.code() as usize, code);
        assert_eq!(kind.is_binary(), code >= 5);
    }
}

#[test]
fn the_root_namespace_is_recognised() {
    assert!(packet(PacketKind::Event, "/", None, 0, "[]").in_root());
    assert!(!packet(PacketKind::Event, "/a", None, 0, "[]").in_root());
    assert!(!packet(PacketKind::Event, "", None, 0, "[]").in_root());
}
