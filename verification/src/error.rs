//! Error kinds shared by the decoders.

use vstd::prelude::*;

verus! {

/// Why a payload could not be decoded.
///
/// A decode error concerns one application-level frame; it is handed to the
/// caller and does not close the session.
#[derive(Clone, Copy, Debug, PartialEq, Eq, Structural)]
pub enum DecodeError {
    /// A length prefix or type marker is not one the format allows here.
    InvalidFormat,
    /// The buffer ends in the middle of a value.
    UnexpectedEof,
    /// A string slot holds bytes that are not UTF-8.
    InvalidUtf8,
    /// A length or number lies outside what the protocol accepts.
    OutOfRange,
}

} // verus!
