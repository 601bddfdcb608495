use socketioxide::error::DecodeError;
use socketioxide::handshake::OpenPacket;

fn open(sid: &str, websocket_upgrade: bool) -> OpenPacket {
    OpenPacket {
        sid: sid.as_bytes().to_vec(),
        websocket_upgrade,
        ping_interval: 25000,
        ping_timeout: 20000,
        max_payload: 100000,
    }
}

const WITH_UPGRADE: &str = "{\"sid\":\"abc\",\"upgrades\":[\"websocket\"],\"pingInterval\":25000,\"pingTimeout\":20000,\"maxPayload\":100000}";
const WITHOUT_UPGRADE: &str =
    "{\"sid\":\"abc\",\"upgrades\":[],\"pingInterval\":25000,\"pingTimeout\":20000,\"maxPayload\":100000}";

#[test]
fn the_document_is_written_member_by_member() {
    assert_eq!(open("abc", true).encode(), WITH_UPGRADE.as_bytes());
    assert_eq!(open("abc", false).encode(), WITHOUT_UPGRADE.as_bytes());
}

#[test]
fn the_document_is_read_back() {
    assert_eq!(OpenPacket::decode(WITH_UPGRADE.as_bytes()), Ok(open("abc", true)));
    assert_eq!(OpenPacket::decode(WITHOUT_UPGRADE.as_bytes()), Ok(open("abc", false)));
}

#[test]
fn every_handshake_survives_its_document() {
    let samples = [
        OpenPacket { sid: vec![], websocket_upgrade: false, ping_interval: 0, ping_timeout: 0, max_payload: 0 },
        OpenPacket {
            sid: b"oSO0OpakMV_3jnilAAAA".to_vec(),
            websocket_upgrade: true,
            ping_interval: u64::MAX,
            ping_timeout: 1,
            max_payload: 10,
        },
        open("a,b:c}]", true),
    ];
    for sample in samples {
        let document = sample.encode();
        assert_eq!(OpenPacket::decode(&document), Ok(sample));
    }
}

#[test]
fn a_document_that_ends_early_is_reported() {
    assert_eq!(OpenPacket::decode(b""), Err(DecodeError::UnexpectedEof));
    assert_eq!(OpenPacket::decode(b"{\"sid\":\"abc"), Err(DecodeError::UnexpectedEof));
    assert_eq!(OpenPacket::decode(b"{\"sid\":\"abc\",\"upgr"), Err(DecodeError::UnexpectedEof));
    let cut = &WITH_UPGRADE.as_bytes()[..WITH_UPGRADE.len() - 1];
    assert_eq!(OpenPacket::decode(cut), Err(DecodeError::UnexpectedEof));
}

#[test]
fn a_document_of_another_shape_is_malformed() {
    assert_eq!(OpenPacket::decode(b"{\"id\":\"abc\",\"x\":1}"), Err(DecodeError::InvalidFormat));
    let reordered = "{\"sid\":\"abc\",\"pingInterval\":25000,\"upgrades\":[],\"pingTimeout\":20000,\"maxPayload\":100000}";
    assert_eq!(OpenPacket::decode(reordered.as_bytes()), Err(DecodeError::InvalidFormat));
    let escaped = "{\"sid\":\"a\\\\b\",\"upgrades\":[],\"pingInterval\":1,\"pingTimeout\":2,\"maxPayload\":3}";
    assert_eq!(OpenPacket::decode(escaped.as_bytes()), Err(DecodeError::InvalidFormat));
    let no_number = "{\"sid\":\"abc\",\"upgrades\":[],\"pingInterval\":x,\"pingTimeout\":2,\"maxPayload\":3}";
    assert_eq!(OpenPacket::decode(no_number.as_bytes()), Err(DecodeError::InvalidFormat));
    let mut trailing = WITH_UPGRADE.as_bytes().to_vec();
    trailing.push(b' ');
    assert_eq!(OpenPacket::decode(&trailing), Err(DecodeError::InvalidFormat));
}

#[test]
fn a_timing_that_does_not_fit_is_out_of_range() {
    let big = "{\"sid\":\"abc\",\"upgrades\":[],\"pingInterval\":18446744073709551616,\"pingTimeout\":2,\"maxPayload\":3}";
    assert_eq!(OpenPacket::decode(big.as_bytes()), Err(DecodeError::OutOfRange));
}
