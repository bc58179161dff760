//! The incremental message codec: an encoder that emits one final frame per
//! message, and a decoder that parses frames from the front of a growing
//! byte buffer, reassembling fragmented messages and surfacing interleaved
//! control frames in wire order.

use vstd::prelude::*;

use crate::error::Error;
use crate::frame::{
    lemma_parse_header_bounds, spec_header_bytes, spec_parse_header, FrameHeader,
};
use crate::mask::{mask_seq, mask_slice, mask_slice_copy, Mask};
use crate::message::{msg_wf, spec_message_error, valid_message_data, Message};
use crate::opcode::Opcode;

verus! {

/// What one decode call does, as a value: it needs more bytes, yields a
/// message, or fails, in each case leaving a reassembly state and the
/// unconsumed remainder of the buffer.
pub ghost enum DecodeOutcome {
    NeedMore { state: Option<(Opcode, Seq<u8>)>, rest: Seq<u8> },
    Msg { opcode: Opcode, data: Seq<u8>, state: Option<(Opcode, Seq<u8>)>, rest: Seq<u8> },
    Fail { err: Error, state: Option<(Opcode, Seq<u8>)>, rest: Seq<u8> },
}

/// A parsed header advertises a frame this host cannot buffer: a payload
/// length with the forbidden high bit, or a whole frame beyond the address
/// space.
pub open spec fn spec_too_long(h: FrameHeader, hlen: int) -> bool {
    h.data_len >= 0x8000_0000_0000_0000u64 || hlen + h.data_len > usize::MAX
}

/// A completed message is validated before it is handed out: an invalid
/// payload turns the emission into the matching failure.
pub open spec fn spec_finish(
    opcode: Opcode,
    data: Seq<u8>,
    state: Option<(Opcode, Seq<u8>)>,
    rest: Seq<u8>,
) -> DecodeOutcome {
    if valid_message_data(opcode, data) {
        DecodeOutcome::Msg { opcode, data, state, rest }
    } else {
        DecodeOutcome::Fail { err: spec_message_error(opcode, data), state, rest }
    }
}

/// The decoder, as a function of the reassembly state and the buffered
/// bytes: frames are taken off the front of `input` until one of them
/// completes a message, fails, or the bytes run out.
pub open spec fn spec_decode(state: Option<(Opcode, Seq<u8>)>, input: Seq<u8>) -> DecodeOutcome
    decreases input.len(),
{
    if spec_parse_header(input) is None {
        DecodeOutcome::NeedMore { state, rest: input }
    } else {
        let (h, hlen) = spec_parse_header(input).unwrap();
        if spec_too_long(h, hlen) {
            DecodeOutcome::Fail { err: Error::FrameTooLong, state: None, rest: input }
        } else if input.len() < hlen + h.data_len {
            DecodeOutcome::NeedMore { state, rest: input }
        } else {
            let frame_end = hlen + h.data_len;
            let raw = input.subrange(hlen, frame_end);
            let rest = input.subrange(frame_end, input.len() as int);
            let data = match h.mask {
                Some(m) => mask_seq(raw, m),
                None => raw,
            };
            if h.rsv != 0 {
                DecodeOutcome::Fail { err: Error::ReservedBitsSet, state: None, rest }
            } else if h.opcode == 0 {
                // A continuation frame extends the pending fragment.
                match state {
                    Some((op, acc)) => {
                        if h.fin {
                            spec_finish(op, acc + data, None, rest)
                        } else if rest.len() < input.len() {
                            spec_decode(Some((op, acc + data)), rest)
                        } else {
                            DecodeOutcome::NeedMore { state, rest }
                        }
                    },
                    None => DecodeOutcome::Fail {
                        err: Error::DanglingContinuation,
                        state: None,
                        rest,
                    },
                }
            } else {
                match Opcode::spec_from_value(h.opcode) {
                    None => DecodeOutcome::Fail { err: Error::BadOpcode, state: None, rest },
                    Some(op) => {
                        if op.spec_is_control() && h.data_len >= 126 {
                            DecodeOutcome::Fail { err: Error::ControlTooLong, state: None, rest }
                        } else if op.spec_is_control() {
                            if h.fin {
                                // A whole control frame is surfaced at once; a
                                // pending fragment stays pending.
                                spec_finish(op, data, state, rest)
                            } else {
                                DecodeOutcome::Fail {
                                    err: Error::ControlFragmented,
                                    state: None,
                                    rest,
                                }
                            }
                        } else {
                            match state {
                                Some(_) => DecodeOutcome::Fail {
                                    err: Error::NestedDataFrame,
                                    state: None,
                                    rest,
                                },
                                None => {
                                    if h.fin {
                                        spec_finish(op, data, None, rest)
                                    } else if rest.len() < input.len() {
                                        spec_decode(Some((op, data)), rest)
                                    } else {
                                        DecodeOutcome::NeedMore { state, rest }
                                    }
                                },
                            }
                        }
                    },
                }
            }
        }
    }
}

/// The bytes one encoded frame puts on the wire: a final, unreserved header
/// for the message's opcode and payload length, then the payload, masked
/// when a mask is given.
pub open spec fn spec_frame_bytes(opcode: Opcode, data: Seq<u8>, mask: Option<Mask>) -> Seq<u8> {
    let h = FrameHeader {
        fin: true,
        rsv: 0,
        opcode: opcode.spec_value(),
        mask,
        data_len: data.len() as u64,
    };
    spec_header_bytes(h) + (match mask {
        Some(m) => mask_seq(data, m),
        None => data,
    })
}

/// The reassembly state as a mathematical value.
pub open spec fn state_view(s: Option<(Opcode, Vec<u8>)>) -> Option<(Opcode, Seq<u8>)> {
    match s {
        Some((op, v)) => Some((op, v@)),
        None => None,
    }
}

/// The codec: the opcode and accumulated payload of a fragmented message in
/// progress, if any, and whether encoded frames are masked (the client
/// role).
#[derive(Clone)]
pub struct MessageCodec {
    interrupted_message: Option<(Opcode, Vec<u8>)>,
    use_mask: bool,
}

/// The mathematical value of a codec: its reassembly state and its role.
pub ghost struct CodecView {
    pub state: Option<(Opcode, Seq<u8>)>,
    pub use_mask: bool,
}

impl View for MessageCodec {
    type V = CodecView;

    closed spec fn view(&self) -> CodecView {
        CodecView {
            state: state_view(self.interrupted_message),
            use_mask: self.use_mask,
        }
    }
}

impl MessageCodec {
    /// Creates a codec for a client: encoded messages are masked.
    pub fn client() -> (r: Self)
        ensures
            r@.state is None,
            r@.use_mask,
    {
        Self::with_masked_encode(true)
    }

    /// Creates a codec, saying whether encoded messages are masked.
    pub fn with_masked_encode(use_mask: bool) -> (r: Self)
        ensures
            r@.state is None,
            r@.use_mask == use_mask,
    {
        MessageCodec { interrupted_message: None, use_mask }
    }

    /// Decodes the next message from the front of `src`, consuming exactly
    /// the frames up to and including the one that completed it.
    ///
    /// `Ok(None)` means the buffer does not yet hold the next whole frame;
    /// nothing was consumed beyond any complete non-final fragments, whose
    /// payloads moved into the reassembly state. Errors are fatal to the
    /// connection.
    #[verifier::loop_isolation(false)]
    pub fn decode(&mut self, src: &mut Vec<u8>) -> (r: Result<Option<Message>, Error>)
        ensures
            final(self)@.use_mask == old(self)@.use_mask,
            match r {
                Ok(None) => spec_decode(old(self)@.state, old(src)@) matches DecodeOutcome::NeedMore {
                    state,
                    rest,
                } && final(self)@.state == state && final(src)@ == rest,
                Ok(Some(m)) => spec_decode(old(self)@.state, old(src)@) matches DecodeOutcome::Msg {
                    opcode,
                    data,
                    state,
                    rest,
                } && m@.opcode == opcode && m@.data == data && msg_wf(m@) && final(self)@.state
                    == state && final(src)@ == rest,
                Err(e) => spec_decode(old(self)@.state, old(src)@) matches DecodeOutcome::Fail {
                    err,
                    state,
                    rest,
                } && e == err && final(self)@.state == state && final(src)@ == rest,
            },
    {
        let ghost orig = spec_decode(old(self)@.state, old(src)@);
        let ghost orig_mask = old(self)@.use_mask;
        let mut state: Option<(Opcode, Vec<u8>)> = self.interrupted_message.take();
        loop
            invariant
                spec_decode(state_view(state), src@) == orig,
                self.interrupted_message is None,
                self@.use_mask == orig_mask,
            decreases src@.len(),
        {
            let ghost input0 = src@;
            let ghost st0 = state_view(state);
            let parsed = FrameHeader::parse_slice(src);
            let (header, header_len) = match parsed {
                Some(tuple) => tuple,
                None => {
                    src.reserve(512);
                    self.interrupted_message = state;
                    return Ok(None);
                },
            };
            proof {
                lemma_parse_header_bounds(input0);
            }
            if header.data_len >= 0x8000_0000_0000_0000u64 || header.data_len > ((usize::MAX
                - header_len) as u64) {
                assert(spec_too_long(header, header_len as int));
                return Err(Error::FrameTooLong);
            }
            assert(!spec_too_long(header, header_len as int));
            let data_len = header.data_len as usize;
            let frame_len = header_len + data_len;
            if src.len() < frame_len {
                let chunk: usize = if frame_len < 0x4000_0000 {
                    frame_len
                } else {
                    0x4000_0000
                };
                src.reserve(chunk + 512);
                self.interrupted_message = state;
                return Ok(None);
            }
            let mut tail = src.split_off(frame_len);
            let mut data = src.split_off(header_len);
            core::mem::swap(src, &mut tail);
            let ghost frame_end = header_len + header.data_len as int;
            let ghost raw = input0.subrange(header_len as int, frame_end);
            let ghost rest = input0.subrange(frame_end, input0.len() as int);
            proof {
                assert(data@ =~= raw);
                assert(src@ =~= rest);
            }
            if header.rsv != 0 {
                return Err(Error::ReservedBitsSet);
            }
            if let Some(m) = header.mask {
                mask_slice(&mut data, m);
            }
            let ghost payload = match header.mask {
                Some(m) => mask_seq(raw, m),
                None => raw,
            };
            assert(data@ == payload);
            if header.opcode == 0 {
                match state {
                    Some((op, mut acc)) => {
                        acc.append(&mut data);
                        if header.fin {
                            assert(spec_decode(st0, input0) == spec_finish(op, acc@, None, rest));
                            return match Message::new(op, acc) {
                                Ok(m) => Ok(Some(m)),
                                Err(e) => Err(e),
                            };
                        }
                        state = Some((op, acc));
                        assert(spec_decode(state_view(state), src@) == orig);
                    },
                    None => {
                        return Err(Error::DanglingContinuation);
                    },
                }
            } else {
                let op = match Opcode::from_value(header.opcode) {
                    Some(op) => op,
                    None => {
                        return Err(Error::BadOpcode);
                    },
                };
                if op.is_control() && data.len() >= 126 {
                    return Err(Error::ControlTooLong);
                }
                if op.is_control() {
                    if header.fin {
                        assert(spec_decode(st0, input0) == spec_finish(op, payload, st0, rest));
                        self.interrupted_message = state;
                        return match Message::new(op, data) {
                            Ok(m) => Ok(Some(m)),
                            Err(e) => Err(e),
                        };
                    }
                    return Err(Error::ControlFragmented);
                }
                match state {
                    Some(_) => {
                        return Err(Error::NestedDataFrame);
                    },
                    None => {
                        if header.fin {
                            assert(spec_decode(st0, input0) == spec_finish(op, payload, None, rest));
                            return match Message::new(op, data) {
                                Ok(m) => Ok(Some(m)),
                                Err(e) => Err(e),
                            };
                        }
                        state = Some((op, data));
                        assert(spec_decode(state_view(state), src@) == orig);
                    },
                }
            }
        }
    }

    /// Encodes one message as a single final frame with the given mask,
    /// appending its bytes to `dst`. A control message with a payload of
    /// more than 125 bytes is rejected and nothing is written.
    pub fn encode_with_mask(item: &Message, mask: Option<Mask>, dst: &mut Vec<u8>) -> (r: Result<
        (),
        Error,
    >)
        ensures
            item@.opcode.spec_is_control() && item@.data.len() > 125 ==> r === Err(
                Error::ControlTooLong,
            ) && final(dst)@ == old(dst)@,
            !(item@.opcode.spec_is_control() && item@.data.len() > 125) ==> r === Ok(())
                && final(dst)@ == old(dst)@ + spec_frame_bytes(item@.opcode, item@.data, mask),
    {
        if item.opcode().is_control() && item.data().len() > 125 {
            return Err(Error::ControlTooLong);
        }
        let header = FrameHeader {
            fin: true,
            rsv: 0,
            opcode: item.opcode().value(),
            mask,
            data_len: item.data().len() as u64,
        };
        header.write_to_bytes(dst);
        match mask {
            Some(m) => {
                let mut masked = mask_slice_copy(item.data(), m);
                dst.append(&mut masked);
            },
            None => {
                dst.extend_from_slice(item.data().as_slice());
            },
        }
        proof {
            assert(dst@ =~= old(dst)@ + spec_frame_bytes(item@.opcode, item@.data, mask));
        }
        Ok(())
    }

    /// Encodes one message as a single final frame, appending its bytes to
    /// `dst`: a fresh random mask is applied exactly when this codec was
    /// created for the client role. A control message with a payload of
    /// more than 125 bytes is rejected with nothing written.
    pub fn encode(&self, item: &Message, dst: &mut Vec<u8>) -> (r: Result<(), Error>)
        ensures
            item@.opcode.spec_is_control() && item@.data.len() > 125 ==> r === Err(
                Error::ControlTooLong,
            ) && final(dst)@ == old(dst)@,
            !(item@.opcode.spec_is_control() && item@.data.len() > 125) ==> r === Ok(()) && exists|
                mask: Option<Mask>,
            |
                (mask is Some <==> self@.use_mask) && final(dst)@ == old(dst)@
                    + #[trigger] spec_frame_bytes(
                    item@.opcode,
                    item@.data,
                    mask,
                ),
    {
        let mask: Option<Mask> = if self.use_mask {
            Some(Mask::new())
        } else {
            None
        };
        let r = Self::encode_with_mask(item, mask, dst);
        proof {
            if !(item@.opcode.spec_is_control() && item@.data.len() > 125) {
                assert((mask is Some <==> self@.use_mask) && dst@ == old(dst)@
                    + spec_frame_bytes(item@.opcode, item@.data, mask));
            }
        }
        r
    }
}

} // verus!
