//! Protocol errors: every way a frame stream or a message can be malformed.
//! All of them are fatal to the connection that produced them.

use vstd::prelude::*;

verus! {

/// A violation of the framing protocol or of a message invariant.
#[derive(Clone, Copy, Debug, PartialEq, Eq, Structural)]
pub enum Error {
    /// A frame arrived with one of the three reserved header bits set.
    ReservedBitsSet,
    /// A frame arrived with an opcode outside the closed set.
    BadOpcode,
    /// A control frame arrived with, or was asked to carry, a payload of
    /// more than 125 bytes.
    ControlTooLong,
    /// A control frame arrived without its fin bit set.
    ControlFragmented,
    /// A continuation frame arrived with no fragmented message in progress.
    DanglingContinuation,
    /// A new data frame arrived while a fragmented message was in progress.
    NestedDataFrame,
    /// A text payload, or a close reason, was not valid UTF-8.
    InvalidUtf8,
    /// A close payload was a single byte: too short to hold a close code.
    InvalidClosePayload,
    /// A frame advertised a length beyond what this host can buffer.
    FrameTooLong,
}

impl Error {
    /// A short description of the violation.
    pub fn description(&self) -> (r: &'static str)
        ensures
            r@.len() > 0,
    {
        let r: &'static str = match self {
            Error::ReservedBitsSet => "reserved bits are not supported",
            Error::BadOpcode => "opcode is not supported",
            Error::ControlTooLong => "control frames must be shorter than 126 bytes",
            Error::ControlFragmented => "control frames must not be fragmented",
            Error::DanglingContinuation => "continuation must not be first frame",
            Error::NestedDataFrame => "continuation frame must have continuation opcode",
            Error::InvalidUtf8 => "text is not valid utf8",
            Error::InvalidClosePayload => "close frames must be at least 2 bytes long",
            Error::FrameTooLong => "frame is too long",
        };
        proof {
            reveal_strlit("reserved bits are not supported");
            reveal_strlit("opcode is not supported");
            reveal_strlit("control frames must be shorter than 126 bytes");
            reveal_strlit("control frames must not be fragmented");
            reveal_strlit("continuation must not be first frame");
            reveal_strlit("continuation frame must have continuation opcode");
            reveal_strlit("text is not valid utf8");
            reveal_strlit("close frames must be at least 2 bytes long");
            reveal_strlit("frame is too long");
        }
        r
    }
}

} // verus!
