//! Reading the event name out of a MessagePack-encoded payload.
//!
//! A payload is an array whose first slot is the event name. The name is read
//! from the array and string headers alone, so nothing that follows the name
//! can make the extraction fail.

use vstd::prelude::*;
use vstd::slice::slice_subrange;
use vstd::utf8::{decode_utf8, valid_utf8};
use crate::error::DecodeError;

verus! {

/// Why a MessagePack length header could not be read.
#[derive(Clone, Copy, Debug, PartialEq, Eq, Structural)]
pub enum HeaderError {
    /// The buffer is empty: there is no marker byte.
    MarkerRead,
    /// The marker announces length bytes that the buffer does not hold.
    DataRead,
    /// The marker is not one of the expected family.
    TypeMismatch,
}

/// The big-endian number held in the `width` bytes of `s` that start at `at`.
pub open spec fn be_uint(s: Seq<u8>, at: int, width: nat) -> nat
    decreases width,
{
    if width == 0 {
        0
    } else {
        be_uint(s, at, (width - 1) as nat) * 256 + s[at + width - 1] as nat
    }
}

/// The array header at the start of `s`: the number of elements it announces
/// and the number of bytes the header takes.
///
/// `0x90..=0x9f` holds the length in its low four bits; `0xdc` is followed by a
/// 16-bit and `0xdd` by a 32-bit big-endian length.
pub open spec fn array_header(s: Seq<u8>) -> Result<(u32, int), HeaderError> {
    if s.len() == 0 {
        Err(HeaderError::MarkerRead)
    } else if 0x90 <= s[0] <= 0x9f {
        Ok(((s[0] & 0x0f) as u32, 1))
    } else if s[0] == 0xdc {
        if s.len() >= 3 {
            Ok((be_uint(s, 1, 2) as u32, 3))
        } else {
            Err(HeaderError::DataRead)
        }
    } else if s[0] == 0xdd {
        if s.len() >= 5 {
            Ok((be_uint(s, 1, 4) as u32, 5))
        } else {
            Err(HeaderError::DataRead)
        }
    } else {
        Err(HeaderError::TypeMismatch)
    }
}

/// The string header at the start of `s`: the number of bytes of text it
/// announces and the number of bytes the header takes.
///
/// `0xa0..=0xbf` holds the length in its low five bits; `0xd9`, `0xda` and
/// `0xdb` are followed by an 8-, 16- and 32-bit big-endian length.
pub open spec fn str_header(s: Seq<u8>) -> Result<(u32, int), HeaderError> {
    if s.len() == 0 {
        Err(HeaderError::MarkerRead)
    } else if 0xa0 <= s[0] <= 0xbf {
        Ok(((s[0] & 0x1f) as u32, 1))
    } else if s[0] == 0xd9 {
        if s.len() >= 2 {
            Ok((s[1] as u32, 2))
        } else {
            Err(HeaderError::DataRead)
        }
    } else if s[0] == 0xda {
        if s.len() >= 3 {
            Ok((be_uint(s, 1, 2) as u32, 3))
        } else {
            Err(HeaderError::DataRead)
        }
    } else if s[0] == 0xdb {
        if s.len() >= 5 {
            Ok((be_uint(s, 1, 4) as u32, 5))
        } else {
            Err(HeaderError::DataRead)
        }
    } else {
        Err(HeaderError::TypeMismatch)
    }
}

/// What a header reader hands back for `data`, given what the header is.
pub open spec fn header_read(
    data: Seq<u8>,
    header: Result<(u32, int), HeaderError>,
    r: Result<(u32, &[u8]), HeaderError>,
) -> bool {
    match header {
        Ok((len, used)) => r matches Ok((n, rest)) && n == len && rest@ == data.skip(used),
        Err(e) => r matches Err(e2) && e2 == e,
    }
}

/// Calls `rmp::decode::read_array_len` on a byte slice.
///
/// Trusted: the call reads the array header described by [`array_header`] and
/// leaves the slice at the first byte after it; it fails with the marker-read
/// error on an empty slice, with the data-read error where the length bytes
/// are cut short, and with a type mismatch on any other marker.
#[verifier::external_body]
fn read_array_len(data: &[u8]) -> (r: Result<(u32, &[u8]), HeaderError>)
    ensures
        header_read(data@, array_header(data@), r),
{
    let mut rd = data;
    match rmp::decode::read_array_len(&mut rd) {
        Ok(len) => Ok((len, rd)),
        Err(rmp::decode::ValueReadError::InvalidMarkerRead(_)) => Err(HeaderError::MarkerRead),
        Err(rmp::decode::ValueReadError::InvalidDataRead(_)) => Err(HeaderError::DataRead),
        Err(rmp::decode::ValueReadError::TypeMismatch(_)) => Err(HeaderError::TypeMismatch),
    }
}

/// Calls `rmp::decode::read_str_len` on a byte slice.
///
/// Trusted: the call reads the string header described by [`str_header`] and
/// leaves the slice at the first byte of the text; its errors are those of
/// [`read_array_len`].
#[verifier::external_body]
fn read_str_len(data: &[u8]) -> (r: Result<(u32, &[u8]), HeaderError>)
    ensures
        header_read(data@, str_header(data@), r),
{
    let mut rd = data;
    match rmp::decode::read_str_len(&mut rd) {
        Ok(len) => Ok((len, rd)),
        Err(rmp::decode::ValueReadError::InvalidMarkerRead(_)) => Err(HeaderError::MarkerRead),
        Err(rmp::decode::ValueReadError::InvalidDataRead(_)) => Err(HeaderError::DataRead),
        Err(rmp::decode::ValueReadError::TypeMismatch(_)) => Err(HeaderError::TypeMismatch),
    }
}

/// `core::str::Utf8Error`, carried through and never looked into.
#[verifier::external_type_specification]
#[verifier::external_body]
pub struct ExUtf8Error(core::str::Utf8Error);

/// `core::str::from_utf8` succeeds exactly on well-formed UTF-8 and then
/// returns the text that the bytes encode.
pub assume_specification[ core::str::from_utf8 ](v: &[u8]) -> (r: Result<
    &str,
    core::str::Utf8Error,
>)
    ensures
        r is Ok <==> valid_utf8(v@),
        r matches Ok(s) ==> s@ == decode_utf8(v@),
;

/// The decode error that a header error stands for: a buffer that ends too
/// early is `UnexpectedEof`, a wrong marker is `InvalidFormat`.
pub open spec fn header_error(e: HeaderError) -> DecodeError {
    match e {
        HeaderError::MarkerRead => DecodeError::UnexpectedEof,
        HeaderError::DataRead => DecodeError::UnexpectedEof,
        HeaderError::TypeMismatch => DecodeError::InvalidFormat,
    }
}

fn decode_error(e: HeaderError) -> (r: DecodeError)
    ensures
        r == header_error(e),
{
    match e {
        HeaderError::MarkerRead => DecodeError::UnexpectedEof,
        HeaderError::DataRead => DecodeError::UnexpectedEof,
        HeaderError::TypeMismatch => DecodeError::InvalidFormat,
    }
}

/// The bytes of the event name in `data`, where the array and string headers
/// are well formed, the array is not empty and the text is all there.
pub open spec fn event_name_bytes(data: Seq<u8>) -> Result<Seq<u8>, DecodeError> {
    match array_header(data) {
        Err(e) => Err(header_error(e)),
        Ok((count, used)) => {
            if count < 1 {
                Err(DecodeError::OutOfRange)
            } else {
                match str_header(data.skip(used)) {
                    Err(e) => Err(header_error(e)),
                    Ok((len, used_str)) => {
                        let text = data.skip(used).skip(used_str);
                        if text.len() < len {
                            Err(DecodeError::UnexpectedEof)
                        } else {
                            Ok(text.take(len as int))
                        }
                    },
                }
            }
        },
    }
}

/// The event name of the payload `data`: the text of its first slot.
pub open spec fn event_name(data: Seq<u8>) -> Result<Seq<char>, DecodeError> {
    match event_name_bytes(data) {
        Err(e) => Err(e),
        Ok(text) => if valid_utf8(text) {
            Ok(decode_utf8(text))
        } else {
            Err(DecodeError::InvalidUtf8)
        },
    }
}

/// The number of leading bytes of `data` that [`event_name`] depends on.
pub open spec fn event_name_extent(data: Seq<u8>) -> int {
    match array_header(data) {
        Err(_) => 0,
        Ok((_, used)) => match str_header(data.skip(used)) {
            Err(_) => used,
            Ok((len, used_str)) => used + used_str + len,
        },
    }
}

/// Reads the first element of the payload array as the event name.
///
/// The name must be a string. What follows it in the buffer is not looked at.
pub fn read_event(data: &[u8]) -> (r: Result<&str, DecodeError>)
    ensures
        match event_name(data@) {
            Ok(name) => r matches Ok(s) && s@ == name,
            Err(e) => r matches Err(e2) && e2 == e,
        },
{
    let (count, after_array) = match read_array_len(data) {
        Ok(found) => found,
        Err(e) => return Err(decode_error(e)),
    };
    if count < 1 {
        return Err(DecodeError::OutOfRange);
    }
    let (len, text) = match read_str_len(after_array) {
        Ok(found) => found,
        Err(e) => return Err(decode_error(e)),
    };
    let len: usize = len as usize;
    if text.len() < len {
        return Err(DecodeError::UnexpectedEof);
    }
    let name = slice_subrange(text, 0, len);
    match core::str::from_utf8(name) {
        Ok(s) => Ok(s),
        Err(_) => Err(DecodeError::InvalidUtf8),
    }
}

proof fn lemma_be_uint_agrees(a: Seq<u8>, b: Seq<u8>, at: int, width: nat)
    requires
        forall|i: int| at <= i < at + width ==> a[i] == b[i],
    ensures
        be_uint(a, at, width) == be_uint(b, at, width),
    decreases width,
{
    if width > 0 {
        lemma_be_uint_agrees(a, b, at, (width - 1) as nat);
    }
}

proof fn lemma_array_header_agrees(a: Seq<u8>, b: Seq<u8>)
    requires
        array_header(a) is Ok,
        b.len() >= array_header(a).unwrap().1,
        forall|i: int| 0 <= i < array_header(a).unwrap().1 ==> a[i] == b[i],
    ensures
        array_header(b) == array_header(a),
{
    let used = array_header(a).unwrap().1;
    if used == 3 {
        lemma_be_uint_agrees(a, b, 1, 2);
    } else if used == 5 {
        lemma_be_uint_agrees(a, b, 1, 4);
    }
}

proof fn lemma_str_header_agrees(a: Seq<u8>, b: Seq<u8>)
    requires
        str_header(a) is Ok,
        b.len() >= str_header(a).unwrap().1,
        forall|i: int| 0 <= i < str_header(a).unwrap().1 ==> a[i] == b[i],
    ensures
        str_header(b) == str_header(a),
{
    let used = str_header(a).unwrap().1;
    if used == 3 {
        lemma_be_uint_agrees(a, b, 1, 2);
    } else if used == 5 {
        lemma_be_uint_agrees(a, b, 1, 4);
    }
}

/// The event name does not depend on the arguments: when a name can be read
/// from `data`, it is read unchanged from any buffer that starts with the same
/// headers and name, whatever `tail` follows them.
pub proof fn lemma_event_name_ignores_arguments(data: Seq<u8>, tail: Seq<u8>)
    requires
        event_name(data) is Ok,
    ensures
        0 <= event_name_extent(data) <= data.len(),
        event_name(data.take(event_name_extent(data)) + tail) == event_name(data),
{
    let extent = event_name_extent(data);
    let (count, used) = array_header(data).unwrap();
    let (len, used_str) = str_header(data.skip(used)).unwrap();
    let other = data.take(extent) + tail;
    lemma_array_header_agrees(data, other);
    lemma_str_header_agrees(data.skip(used), other.skip(used));
    assert(other.skip(used).skip(used_str).take(len as int) =~= data.skip(used).skip(
        used_str,
    ).take(len as int));
}

/// A sequence visitor that hides the leading event-name slot from the visitor
/// it wraps.
pub struct SeqVisitor<V> {
    pub inner: V,
    pub skip_first_element: bool,
}

impl<V> SeqVisitor<V> {
    pub fn new(inner: V, skip_first_element: bool) -> (r: Self)
        ensures
            r.inner == inner,
            r.skip_first_element == skip_first_element,
    {
        Self { inner, skip_first_element }
    }

    /// The elements that the wrapped visitor gets to see of `seq`: all of
    /// them, or all but the first where the event name is to be skipped. An
    /// empty sequence stays empty.
    pub fn visit_seq<'a, T>(&self, seq: &'a [T]) -> (rest: &'a [T])
        ensures
            rest@ == if self.skip_first_element && seq@.len() > 0 {
                seq@.skip(1)
            } else {
                seq@
            },
    {
        if self.skip_first_element && seq.len() > 0 {
            slice_subrange(seq, 1, seq.len())
        } else {
            seq
        }
    }
}

/// A deserializer that hands every request on to `inner`, and wraps the
/// visitor of a sequence, a tuple or a tuple struct in a [`SeqVisitor`].
pub struct Deserializer<D> {
    pub inner: D,
    pub skip_first_element: bool,
}

impl<D> Deserializer<D> {
    /// The visitor that stands in for `visitor` when a sequence is asked for.
    pub fn seq_visitor<V>(&self, visitor: V) -> (r: SeqVisitor<V>)
        ensures
            r.inner == visitor,
            r.skip_first_element == self.skip_first_element,
    {
        SeqVisitor::new(visitor, self.skip_first_element)
    }
}

} // verus!
