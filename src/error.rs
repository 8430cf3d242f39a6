//! The errors of a share conversion.

use vstd::prelude::*;

verus! {

/// A failure of the oblivious linear evaluation that a conversion runs on.
#[derive(Clone, Debug, PartialEq, Eq)]
pub enum OLEError {
    /// The evaluation could not complete; the text says why.
    Aborted(String),
    /// The evaluation returned another number of elements than it was given.
    LengthMismatch { expected: usize, actual: usize },
}

/// A received message that does not have the expected shape.
#[derive(Clone, Debug, PartialEq, Eq)]
pub enum MessageError {
    /// The record could not be read as a message of the protocol; the text
    /// says why.
    Malformed(String),
    /// The message carries another number of elements than the batch has.
    LengthMismatch { expected: usize, actual: usize },
}

/// An error for share conversion.
#[derive(Clone, Debug, PartialEq, Eq)]
pub enum ShareConversionError {
    /// The oblivious linear evaluation failed.
    OLE(OLEError),
    /// Sending to or receiving from the other party failed; the text says why.
    Io(String),
    /// A received message could not be used.
    Message(MessageError),
}

impl ShareConversionError {
    /// A description of the error.
    pub fn describe(&self) -> (r: String)
        ensures
            self matches ShareConversionError::OLE(OLEError::Aborted(s)) ==> r@ == s@,
            self matches ShareConversionError::Io(s) ==> r@ == s@,
            self matches ShareConversionError::Message(MessageError::Malformed(s)) ==> r@ == s@,
    {
        match self {
            ShareConversionError::OLE(OLEError::Aborted(s)) => s.clone(),
            ShareConversionError::OLE(OLEError::LengthMismatch { .. }) => {
                String::from_str("oblivious linear evaluation returned a wrong number of elements")
            },
            ShareConversionError::Io(s) => s.clone(),
            ShareConversionError::Message(MessageError::Malformed(s)) => s.clone(),
            ShareConversionError::Message(MessageError::LengthMismatch { .. }) => {
                String::from_str("message carries a wrong number of elements")
            },
        }
    }
}

} // verus!
