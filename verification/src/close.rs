//! Close status codes and the parsed form of a close payload.

use vstd::prelude::*;

verus! {

/// Normal closure.
pub const NORMAL: u16 = 1000;

/// The endpoint is going away.
pub const GOING_AWAY: u16 = 1001;

/// The peer violated the protocol.
pub const PROTOCOL_ERROR: u16 = 1002;

/// The endpoint cannot accept data of the kind it received.
pub const UNSUPPORTED: u16 = 1003;

/// A payload was inconsistent with its message type.
pub const INVALID_PAYLOAD: u16 = 1007;

/// A message violated the endpoint's policy.
pub const POLICY_VIOLATION: u16 = 1008;

/// A message was too large to process.
pub const TOO_LARGE: u16 = 1009;

/// The client expected an extension the server did not negotiate.
pub const EXTENSION_REQUIRED: u16 = 1010;

/// The server hit an unexpected condition.
pub const INTERNAL_ERROR: u16 = 1011;

/// A 16-bit close status value.
#[derive(Clone, Copy, Debug, PartialEq, Eq, Structural)]
pub struct CloseCode {
    pub code: u16,
}

impl CloseCode {
    /// Wraps a raw 16-bit status value.
    pub fn from_u16(code: u16) -> (r: CloseCode)
        ensures
            r.code == code,
    {
        CloseCode { code }
    }

    /// The raw 16-bit status value.
    pub fn value(&self) -> (r: u16)
        ensures
            r == self.code,
    {
        self.code
    }
}

/// A close payload in parsed form: the status code and the remaining
/// reason bytes (UTF-8, by the close-message invariant).
#[derive(Clone, Debug)]
pub struct CloseFrame {
    pub code: CloseCode,
    pub reason: Vec<u8>,
}

} // verus!
