//! The ways in which a received datagram can fail to be a frame.

use vstd::prelude::*;

verus! {

/// A received datagram does not have the length that its frame kind asks for.
#[derive(Debug, Clone, Copy, PartialEq, Eq, Structural)]
pub enum FramingError {
    /// The number of bytes received is not the length that the header
    /// declares plus the length of the header.
    LengthMismatch,
    /// The number of bytes received is not the size of the record.
    SizeMismatch,
}

impl FramingError {
    /// The text that describes each error.
    pub open spec fn description_text(self) -> Seq<char> {
        match self {
            FramingError::LengthMismatch => {
                "length of received message doesn't match the length declared in its header"@
            },
            FramingError::SizeMismatch => {
                "length of received message doesn't match the size of the record"@
            },
        }
    }

    /// Describes the error in words.
    pub fn description(&self) -> (text: String)
        ensures
            text@ == self.description_text(),
    {
        match self {
            FramingError::LengthMismatch => {
                "length of received message doesn't match the length declared in its header"
                    .to_owned()
            },
            FramingError::SizeMismatch => {
                "length of received message doesn't match the size of the record".to_owned()
            },
        }
    }
}

} // verus!
