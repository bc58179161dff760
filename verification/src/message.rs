//! The user-level message value: an opcode plus an owned payload, with the
//! validation its constructors enforce.

use vstd::prelude::*;
use vstd::utf8::{encode_utf8, valid_utf8};

use crate::close::{CloseCode, CloseFrame};
use crate::error::Error;
use crate::opcode::Opcode;
use crate::utf8::is_utf8_from;

verus! {

/// What a payload must satisfy for its opcode: text is UTF-8; a close
/// payload is empty or holds a 2-byte code followed by a UTF-8 reason.
pub open spec fn valid_message_data(opcode: Opcode, data: Seq<u8>) -> bool {
    match opcode {
        Opcode::Text => valid_utf8(data),
        Opcode::Close => data.len() == 0 || (data.len() >= 2 && valid_utf8(data.skip(2))),
        _ => true,
    }
}

/// The error a payload that fails validation is rejected with: a one-byte
/// close payload is too short to hold its code; everything else that fails
/// is malformed UTF-8.
pub open spec fn spec_message_error(opcode: Opcode, data: Seq<u8>) -> Error {
    if opcode is Close && data.len() == 1 {
        Error::InvalidClosePayload
    } else {
        Error::InvalidUtf8
    }
}

/// The greatest character boundary of `b` not beyond `i`.
pub open spec fn spec_floor_char_boundary(b: Seq<u8>, i: int) -> int
    recommends
        valid_utf8(b),
    decreases i,
{
    if i <= 0 {
        0int
    } else if vstd::utf8::is_char_boundary(b, i) {
        i
    } else {
        spec_floor_char_boundary(b, i - 1)
    }
}

/// How many reason bytes a close payload keeps: all of them when they fit
/// beside the 2-byte code, otherwise the longest prefix up to 123 bytes
/// that ends on a character boundary.
pub open spec fn spec_truncated_reason_len(b: Seq<u8>) -> int
    recommends
        valid_utf8(b),
{
    if b.len() <= 123 {
        b.len() as int
    } else {
        spec_floor_char_boundary(b, 123)
    }
}

/// A text string, a block of binary data or a control payload, tagged with
/// its opcode.
#[derive(Clone, Debug)]
pub struct Message {
    opcode: Opcode,
    data: Vec<u8>,
}

/// The mathematical value of a message: its opcode and payload bytes.
pub ghost struct MessageView {
    pub opcode: Opcode,
    pub data: Seq<u8>,
}

impl View for Message {
    type V = MessageView;

    closed spec fn view(&self) -> MessageView {
        MessageView { opcode: self.opcode, data: self.data@ }
    }
}

/// Every message a constructor hands out satisfies its payload invariant;
/// in particular a text message always carries valid UTF-8.
pub open spec fn msg_wf(m: MessageView) -> bool {
    valid_message_data(m.opcode, m.data)
}

/// A well-formed text message carries valid UTF-8, and a well-formed close
/// payload is empty or carries its code and a UTF-8 reason.
pub proof fn lemma_wf_payload(m: MessageView)
    requires
        msg_wf(m),
    ensures
        m.opcode is Text ==> valid_utf8(m.data),
        m.opcode is Close ==> m.data.len() == 0 || (m.data.len() >= 2 && valid_utf8(
            m.data.skip(2),
        )),
{
}

/// Shortens `s` to at most `new_len` bytes, cutting only on a character
/// boundary: the longest prefix of at most `new_len` bytes that is still
/// whole UTF-8. Returns the resulting byte length.
pub fn truncate_floor_char_boundary(s: &mut String, new_len: usize) -> (r: usize)
    ensures
        ({
            let b = encode_utf8(old(s)@);
            let k = if b.len() <= new_len {
                b.len() as int
            } else {
                spec_floor_char_boundary(b, new_len as int)
            };
            r == k && encode_utf8(final(s)@) == b.take(k)
        }),
{
    let ghost b = encode_utf8(s@);
    proof {
        vstd::utf8::encode_utf8_valid_utf8(s@);
    }
    let byte_len = s.as_str().as_bytes().len();
    assert(byte_len == b.len());
    if byte_len <= new_len {
        proof {
            assert(b.take(b.len() as int) =~= b);
        }
        return byte_len;
    }
    let mut len: usize = new_len;
    while !s.as_str().is_char_boundary(len)
        invariant
            0 <= len <= new_len,
            len <= b.len(),
            b == encode_utf8(s@),
            valid_utf8(b),
            spec_floor_char_boundary(b, new_len as int) == spec_floor_char_boundary(b, len as int),
        decreases len,
    {
        assert(len > 0) by {
            assert(vstd::utf8::is_char_boundary(b, 0));
        }
        len = len - 1;
    }
    assert(vstd::utf8::is_char_boundary(b, len as int));
    assert(len == spec_floor_char_boundary(b, new_len as int));
    let head = {
        let (h, _) = s.as_str().split_at(len);
        h.to_owned()
    };
    proof {
        assert(encode_utf8(head@) =~= b.take(len as int));
    }
    *s = head;
    len
}

/// Relies on `String::from_utf8`: on valid UTF-8 input it returns the
/// string holding exactly those bytes.
#[verifier::external_body]
fn bytes_to_string(v: &Vec<u8>) -> (r: String)
    requires
        valid_utf8(v@),
    ensures
        encode_utf8(r@) == v@,
{
    String::from_utf8(v.clone()).unwrap()
}

impl Message {
    /// Creates a message from raw bytes, validating them for the given
    /// opcode: rejects text that is not UTF-8 and close payloads that are
    /// one byte long or whose reason is not UTF-8.
    pub fn new(opcode: Opcode, data: Vec<u8>) -> (r: Result<Message, Error>)
        ensures
            valid_message_data(opcode, data@) ==> (r matches Ok(m) && m@.opcode == opcode
                && m@.data == data@ && msg_wf(m@)),
            !valid_message_data(opcode, data@) ==> r == Err::<Message, Error>(
                spec_message_error(opcode, data@),
            ),
    {
        match opcode {
            Opcode::Close => {
                if data.len() == 1 {
                    return Err(Error::InvalidClosePayload);
                }
                if data.len() >= 2 && !is_utf8_from(&data, 2) {
                    return Err(Error::InvalidUtf8);
                }
            },
            Opcode::Text => {
                if !is_utf8_from(&data, 0) {
                    proof {
                        assert(data@.skip(0) =~= data@);
                    }
                    return Err(Error::InvalidUtf8);
                }
                proof {
                    assert(data@.skip(0) =~= data@);
                }
            },
            _ => {},
        }
        Ok(Message { opcode, data })
    }

    /// Creates a text message from a string; its payload is the string's
    /// UTF-8 bytes, valid by construction.
    pub fn text(data: String) -> (r: Message)
        ensures
            r@.opcode is Text,
            r@.data == encode_utf8(data@),
            msg_wf(r@),
    {
        let bytes = data.as_str().as_bytes_vec();
        proof {
            vstd::utf8::encode_utf8_valid_utf8(data@);
        }
        Message { opcode: Opcode::Text, data: bytes }
    }

    /// Creates a binary message; the bytes pass unchecked.
    pub fn binary(data: Vec<u8>) -> (r: Message)
        ensures
            r@.opcode is Binary,
            r@.data == data@,
            msg_wf(r@),
    {
        Message { opcode: Opcode::Binary, data }
    }

    /// Creates a close message with no code and no reason.
    pub fn close() -> (r: Message)
        ensures
            r@.opcode is Close,
            r@.data == Seq::<u8>::empty(),
            msg_wf(r@),
    {
        let data: Vec<u8> = Vec::new();
        proof {
            assert(Seq::<u8>::empty() =~= data@);
        }
        Message { opcode: Opcode::Close, data }
    }

    /// Creates a close message carrying a status code and a text reason.
    ///
    /// The reason is truncated on a character boundary so that the whole
    /// payload stays within the 125-byte control limit.
    pub fn close_with_reason(code: CloseCode, reason: String) -> (r: Message)
        ensures
            r@.opcode is Close,
            msg_wf(r@),
            r@.data.len() <= 125,
            r@.data.len() >= 2,
            r@.data[0] == (code.code >> 8) as u8,
            r@.data[1] == (code.code & 0xFF) as u8,
            r@.data.skip(2) == encode_utf8(reason@).take(
                spec_truncated_reason_len(encode_utf8(reason@)),
            ),
    {
        let ghost rb = encode_utf8(reason@);
        proof {
            vstd::utf8::encode_utf8_valid_utf8(reason@);
        }
        let mut bytes = reason.as_str().as_bytes_vec();
        let len = if bytes.len() <= 123 {
            proof {
                vstd::utf8::is_char_boundary_start_end_of_seq(rb);
            }
            bytes.len()
        } else {
            let mut len: usize = 123;
            while !reason.as_str().is_char_boundary(len)
                invariant
                    0 <= len <= 123,
                    len <= rb.len(),
                    rb == encode_utf8(reason@),
                    valid_utf8(rb),
                    spec_floor_char_boundary(rb, 123) == spec_floor_char_boundary(rb, len as int),
                decreases len,
            {
                assert(len > 0) by {
                    assert(vstd::utf8::is_char_boundary(rb, 0));
                }
                len = len - 1;
            }
            len
        };
        assert(vstd::utf8::is_char_boundary(rb, len as int));
        assert(len == spec_truncated_reason_len(rb));
        bytes.truncate(len);
        let mut data: Vec<u8> = Vec::new();
        data.push((code.code >> 8) as u8);
        data.push((code.code & 0xFF) as u8);
        data.append(&mut bytes);
        proof {
            assert(data@.skip(2) =~= rb.subrange(0, len as int));
            assert(rb.subrange(0, len as int) =~= rb.take(len as int));
            vstd::utf8::valid_utf8_split(rb, len as int);
        }
        Message { opcode: Opcode::Close, data }
    }

    /// Creates a ping message; the caller owes the 125-byte control limit,
    /// which the encoder enforces.
    pub fn ping(data: Vec<u8>) -> (r: Message)
        ensures
            r@.opcode is Ping,
            r@.data == data@,
            msg_wf(r@),
    {
        Message { opcode: Opcode::Ping, data }
    }

    /// Creates a pong message; the caller owes the 125-byte control limit,
    /// which the encoder enforces.
    pub fn pong(data: Vec<u8>) -> (r: Message)
        ensures
            r@.opcode is Pong,
            r@.data == data@,
            msg_wf(r@),
    {
        Message { opcode: Opcode::Pong, data }
    }

    /// Returns this message's opcode.
    pub fn opcode(&self) -> (r: Opcode)
        ensures
            r == self@.opcode,
    {
        self.opcode
    }

    /// Returns a reference to the payload held in this message.
    pub fn data(&self) -> (r: &Vec<u8>)
        ensures
            r@ == self@.data,
    {
        &self.data
    }

    /// Consumes the message, returning its payload.
    pub fn into_data(self) -> (r: Vec<u8>)
        ensures
            r@ == self@.data,
    {
        self.data
    }

    /// For a well-formed text message, returns the text: the string whose
    /// UTF-8 encoding is exactly the payload. `None` for any other opcode.
    pub fn as_text(&self) -> (r: Option<String>)
        requires
            msg_wf(self@),
        ensures
            r is Some <==> self@.opcode is Text,
            r matches Some(s) ==> encode_utf8(s@) == self@.data,
    {
        if self.opcode.is_text() {
            Some(bytes_to_string(&self.data))
        } else {
            None
        }
    }

    /// For a well-formed close message whose payload holds a code, returns
    /// the code and the reason bytes; `None` otherwise.
    pub fn as_close(&self) -> (r: Option<CloseFrame>)
        requires
            msg_wf(self@),
        ensures
            (self@.opcode is Close && self@.data.len() >= 2) <==> r is Some,
            r matches Some(f) ==> f.code.code == (self@.data[0] as u16) * 256 + (
            self@.data[1] as u16) && f.reason@ == self@.data.skip(2),
    {
        match self.opcode {
            Opcode::Close => {
                if self.data.len() >= 2 {
                    let code: u16 = ((self.data[0] as u16) << 8) | (self.data[1] as u16);
                    let hi = self.data[0];
                    let lo = self.data[1];
                    assert(((hi as u16) << 8u16) | (lo as u16) == (hi as u16) * 256 + (lo as u16))
                        by (bit_vector);
                    let mut reason: Vec<u8> = Vec::new();
                    let mut i: usize = 2;
                    while i < self.data.len()
                        invariant
                            2 <= i <= self.data.len(),
                            reason@ =~= self.data@.subrange(2, i as int),
                        decreases self.data.len() - i,
                    {
                        reason.push(self.data[i]);
                        i = i + 1;
                    }
                    proof {
                        assert(reason@ =~= self@.data.skip(2));
                    }
                    Some(CloseFrame { code: CloseCode { code }, reason })
                } else {
                    None
                }
            },
            _ => None,
        }
    }
}

} // verus!
