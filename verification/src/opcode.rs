//! Frame opcodes: the closed set of message kinds RFC 6455 defines.
//!
//! Opcode 0 (continuation) exists only at the frame level; it never tags a
//! complete message, so the decoder handles it separately and this enum
//! holds the five message-level opcodes.

use vstd::prelude::*;

verus! {

/// The kind of a WebSocket message: text, binary, or one of the three
/// control kinds.
#[derive(Clone, Copy, Debug, PartialEq, Eq, Structural)]
pub enum Opcode {
    Text,
    Binary,
    Close,
    Ping,
    Pong,
}

impl Opcode {
    /// The numeric value this opcode has on the wire.
    pub open spec fn spec_value(self) -> u8 {
        match self {
            Opcode::Text => 1,
            Opcode::Binary => 2,
            Opcode::Close => 8,
            Opcode::Ping => 9,
            Opcode::Pong => 10,
        }
    }

    /// The opcode, if any, that a raw 4-bit wire value names.
    /// Zero (continuation) and the reserved values name none.
    pub open spec fn spec_from_value(value: u8) -> Option<Opcode> {
        if value == 1 {
            Some(Opcode::Text)
        } else if value == 2 {
            Some(Opcode::Binary)
        } else if value == 8 {
            Some(Opcode::Close)
        } else if value == 9 {
            Some(Opcode::Ping)
        } else if value == 10 {
            Some(Opcode::Pong)
        } else {
            None
        }
    }

    /// True exactly for the control opcodes, those with wire value >= 8.
    pub open spec fn spec_is_control(self) -> bool {
        self.spec_value() >= 8
    }

    /// Returns the numeric value this opcode has on the wire.
    pub fn value(self) -> (r: u8)
        ensures
            r == self.spec_value(),
    {
        match self {
            Opcode::Text => 1,
            Opcode::Binary => 2,
            Opcode::Close => 8,
            Opcode::Ping => 9,
            Opcode::Pong => 10,
        }
    }

    /// Maps a raw wire value to an opcode; `None` for continuation (zero)
    /// and for the reserved values.
    pub fn from_value(value: u8) -> (r: Option<Opcode>)
        ensures
            r == Opcode::spec_from_value(value),
    {
        if value == 1 {
            Some(Opcode::Text)
        } else if value == 2 {
            Some(Opcode::Binary)
        } else if value == 8 {
            Some(Opcode::Close)
        } else if value == 9 {
            Some(Opcode::Ping)
        } else if value == 10 {
            Some(Opcode::Pong)
        } else {
            None
        }
    }

    /// True exactly for Close, Ping and Pong.
    pub fn is_control(self) -> (r: bool)
        ensures
            r == self.spec_is_control(),
    {
        match self {
            Opcode::Close | Opcode::Ping | Opcode::Pong => true,
            Opcode::Text | Opcode::Binary => false,
        }
    }

    /// True exactly for Text.
    pub fn is_text(self) -> (r: bool)
        ensures
            r == (self is Text),
    {
        match self {
            Opcode::Text => true,
            _ => false,
        }
    }
}

} // verus!
