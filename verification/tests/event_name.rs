use socketioxide::error::DecodeError;
use socketioxide::msgpack::{read_event, Deserializer, SeqVisitor};

#[test]
fn read_event_yields_the_name() {
    // ["foo", 1]
    let data = [0x92, 0xa3, b'f', b'o', b'o', 0x01];
    assert_eq!(read_event(&data), Ok("foo"));
}

#[test]
fn read_event_ignores_malformed_arguments() {
    // ["foo", <reserved marker>, <truncated str>]
    let data = [0x93, 0xa3, b'f', b'o', b'o', 0xc1, 0xdb, 0xff];
    assert_eq!(read_event(&data), Ok("foo"));
}

#[test]
fn read_event_depends_on_the_name_alone() {
    let head = [0x92u8, 0xa3, b'f', b'o', b'o'];
    let tails: [&[u8]; 4] = [&[], &[0x01], &[0xc1, 0xc1, 0xc1], &[0xdd, 0xff, 0xff]];
    for tail in tails {
        let mut data = head.to_vec();
        data.extend_from_slice(tail);
        assert_eq!(read_event(&data), Ok("foo"));
    }
}

#[test]
fn read_event_reads_every_string_header() {
    assert_eq!(read_event(&[0x91, 0xa0]), Ok(""));
    assert_eq!(read_event(&[0x91, 0xd9, 0x03, b'b', b'a', b'r']), Ok("bar"));
    assert_eq!(read_event(&[0x91, 0xda, 0x00, 0x03, b'b', b'a', b'z']), Ok("baz"));
    assert_eq!(read_event(&[0x91, 0xdb, 0x00, 0x00, 0x00, 0x02, b'h', b'i']), Ok("hi"));
}

#[test]
fn read_event_reads_every_array_header() {
    assert_eq!(read_event(&[0x9f, 0xa1, b'x']), Ok("x"));
    assert_eq!(read_event(&[0xdc, 0x00, 0x01, 0xa1, b'x']), Ok("x"));
    assert_eq!(read_event(&[0xdc, 0x01, 0x00, 0xa1, b'x']), Ok("x"));
    assert_eq!(read_event(&[0xdd, 0x00, 0x00, 0x00, 0x01, 0xa1, b'y']), Ok("y"));
}

#[test]
fn read_event_reads_a_long_name() {
    let name = "n".repeat(300);
    let mut data = vec![0x91, 0xda, 0x01, 0x2c];
    data.extend_from_slice(name.as_bytes());
    data.push(0xc0);
    assert_eq!(read_event(&data), Ok(name.as_str()));
}

#[test]
fn read_event_reads_a_name_that_is_not_ascii() {
    let data = [0x91, 0xa2, 0xc3, 0xa9];
    assert_eq!(read_event(&data), Ok("\u{e9}"));
}

#[test]
fn read_event_rejects_an_empty_array() {
    assert_eq!(read_event(&[0x90]), Err(DecodeError::OutOfRange));
    assert_eq!(read_event(&[0xdc, 0x00, 0x00]), Err(DecodeError::OutOfRange));
}

#[test]
fn read_event_reports_a_buffer_that_ends_early() {
    assert_eq!(read_event(&[]), Err(DecodeError::UnexpectedEof));
    assert_eq!(read_event(&[0x92]), Err(DecodeError::UnexpectedEof));
    assert_eq!(read_event(&[0xdc, 0x00]), Err(DecodeError::UnexpectedEof));
    assert_eq!(read_event(&[0xdd, 0x00, 0x00, 0x00]), Err(DecodeError::UnexpectedEof));
    assert_eq!(read_event(&[0x91, 0xd9]), Err(DecodeError::UnexpectedEof));
    assert_eq!(read_event(&[0x91, 0xda, 0x00]), Err(DecodeError::UnexpectedEof));
    assert_eq!(read_event(&[0x91, 0xa3, b'f']), Err(DecodeError::UnexpectedEof));
}

#[test]
fn read_event_rejects_a_wrong_marker() {
    // a string where the array should be
    assert_eq!(read_event(&[0xa3, b'f', b'o', b'o']), Err(DecodeError::InvalidFormat));
    // a map
    assert_eq!(read_event(&[0x81, 0xa1, b'a', 0x01]), Err(DecodeError::InvalidFormat));
    // a number where the name should be
    assert_eq!(read_event(&[0x91, 0x01]), Err(DecodeError::InvalidFormat));
}

#[test]
fn read_event_rejects_text_that_is_not_utf8() {
    assert_eq!(read_event(&[0x91, 0xa2, 0xff, 0xfe]), Err(DecodeError::InvalidUtf8));
}

#[test]
fn seq_visitor_keeps_its_parts() {
    let visitor = SeqVisitor::new("inner", true);
    assert_eq!(visitor.inner, "inner");
    assert!(visitor.skip_first_element);
}

#[test]
fn seq_visitor_hides_the_event_name() {
    let seq = [10, 20, 30];
    assert_eq!(SeqVisitor::new((), true).visit_seq(&seq), &[20, 30]);
    assert_eq!(SeqVisitor::new((), false).visit_seq(&seq), &[10, 20, 30]);
    let empty: [u8; 0] = [];
    assert_eq!(SeqVisitor::new((), true).visit_seq(&empty), &empty);
}

#[test]
fn deserializer_wraps_sequence_visitors() {
    let de = Deserializer { inner: 1u8, skip_first_element: true };
    let visitor = de.seq_visitor("v");
    assert_eq!(visitor.inner, "v");
    assert!(visitor.skip_first_element);
    let de = Deserializer { inner: 1u8, skip_first_element: false };
    assert!(!de.seq_visitor("v").skip_first_element);
}
