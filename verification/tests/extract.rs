use socketioxide::error::DecodeError;
use socketioxide::extract::{Data, TryData};
use socketioxide::wire::{copy_range, extend, push_decimal, read_number, same_bytes};

#[test]
fn data_passes_the_value_on() {
    assert_eq!(Data::from_message_parts(Ok(5)), Ok(Data(5)));
    assert_eq!(Data::from_connect_parts(Ok("auth")), Ok(Data("auth")));
}

#[test]
fn data_passes_the_error_on() {
    let failed: Result<u8, DecodeError> = Err(DecodeError::InvalidUtf8);
    assert_eq!(Data::from_message_parts(failed), Err(DecodeError::InvalidUtf8));
    let failed: Result<u8, DecodeError> = Err(DecodeError::UnexpectedEof);
    assert_eq!(Data::from_connect_parts(failed), Err(DecodeError::UnexpectedEof));
}

#[test]
fn try_data_keeps_either() {
    assert_eq!(TryData::from_message_parts(Ok(5)), TryData(Ok(5)));
    let failed: Result<u8, DecodeError> = Err(DecodeError::OutOfRange);
    assert_eq!(TryData::from_message_parts(failed), TryData(Err(DecodeError::OutOfRange)));
    assert_eq!(TryData::from_connect_parts(Ok(())), TryData(Ok(())));
    let failed: Result<u8, DecodeError> = Err(DecodeError::InvalidFormat);
    assert_eq!(TryData::from_connect_parts(failed), TryData(Err(DecodeError::InvalidFormat)));
}

#[test]
fn decimal_text_has_no_leading_zeros() {
    let cases: [(u64, &str); 6] =
        [(0, "0"), (7, "7"), (10, "10"), (456, "456"), (25000, "25000"), (u64::MAX, "18446744073709551615")];
    for (n, text) in cases {
        let mut out = b"x".to_vec();
        push_decimal(&mut out, n);
        assert_eq!(out, format!("x{}", text).as_bytes());
    }
}

#[test]
fn a_number_is_all_leading_digits() {
    assert_eq!(read_number(b"456[\"x\"]"), Ok(Some((456, 3))));
    assert_eq!(read_number(b"0"), Ok(Some((0, 1))));
    assert_eq!(read_number(b"0012-"), Ok(Some((12, 4))));
    assert_eq!(read_number(b"18446744073709551615"), Ok(Some((u64::MAX, 20))));
    assert_eq!(read_number(b""), Ok(None));
    assert_eq!(read_number(b"[1]"), Ok(None));
    assert_eq!(read_number(b"-1"), Ok(None));
    assert_eq!(read_number(b"18446744073709551616"), Err(DecodeError::OutOfRange));
    assert_eq!(read_number(b"99999999999999999999x"), Err(DecodeError::OutOfRange));
}

#[test]
fn bytes_are_copied_and_compared() {
    let mut out = vec![1];
    extend(&mut out, &[2, 3]);
    extend(&mut out, &[]);
    assert_eq!(out, [1, 2, 3]);
    assert_eq!(copy_range(&out, 1, 3), [2, 3]);
    assert_eq!(copy_range(&out, 2, 2), []);
    assert!(same_bytes(b"abc", b"abc"));
    assert!(same_bytes(b"", b""));
    assert!(!same_bytes(b"abc", b"abd"));
    assert!(!same_bytes(b"abc", b"ab"));
}
