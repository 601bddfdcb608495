//! What a handler is given of a packet's data.
//!
//! Decoding the data into the handler's own type is the caller's work. These
//! two wrappers say what becomes of the outcome: [`Data`] lets an error keep
//! the handler from running, [`TryData`] hands the error to the handler.

use vstd::prelude::*;
use crate::error::DecodeError;

verus! {

/// The decoded data. Where decoding failed, there is no such value and the
/// handler is not called.
#[derive(Debug, PartialEq, Eq)]
pub struct Data<T>(pub T);

/// The decoded data or the error that decoding gave. The handler is called
/// either way.
#[derive(Debug, PartialEq, Eq)]
pub struct TryData<T>(pub Result<T, DecodeError>);

impl<T> Data<T> {
    /// The extractor for a connect handler, given what decoding the
    /// authentication data gave.
    pub fn from_connect_parts(decoded: Result<T, DecodeError>) -> (r: Result<Self, DecodeError>)
        ensures
            match decoded {
                Ok(value) => r matches Ok(data) && data.0 == value,
                Err(e) => r matches Err(e2) && e2 == e,
            },
    {
        match decoded {
            Ok(value) => Ok(Data(value)),
            Err(e) => Err(e),
        }
    }

    /// The extractor for a message handler, given what decoding the
    /// arguments behind the event name gave.
    pub fn from_message_parts(decoded: Result<T, DecodeError>) -> (r: Result<Self, DecodeError>)
        ensures
            match decoded {
                Ok(value) => r matches Ok(data) && data.0 == value,
                Err(e) => r matches Err(e2) && e2 == e,
            },
    {
        match decoded {
            Ok(value) => Ok(Data(value)),
            Err(e) => Err(e),
        }
    }
}

impl<T> TryData<T> {
    /// The extractor for a connect handler, given what decoding the
    /// authentication data gave. It cannot fail.
    pub fn from_connect_parts(decoded: Result<T, DecodeError>) -> (r: Self)
        ensures
            r.0 == decoded,
    {
        TryData(decoded)
    }

    /// The extractor for a message handler, given what decoding the
    /// arguments behind the event name gave. It cannot fail.
    pub fn from_message_parts(decoded: Result<T, DecodeError>) -> (r: Self)
        ensures
            r.0 == decoded,
    {
        TryData(decoded)
    }
}

} // verus!
