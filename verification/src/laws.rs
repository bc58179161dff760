//! The codec's laws: round-trip identity, chunk-independence of decoding,
//! and control-frame interleaving, each proved over the decoder's and
//! encoder's own specifications.

use vstd::prelude::*;

use crate::codec::{
    spec_decode, spec_finish, spec_frame_bytes, spec_too_long, DecodeOutcome,
};
use crate::frame::{
    lemma_header_roundtrip, lemma_parse_header_bounds, lemma_parse_header_extend,
    spec_header_bytes, spec_parse_header, FrameHeader,
};
use crate::mask::{lemma_mask_involution, mask_seq, Mask};
use crate::message::{msg_wf, valid_message_data, MessageView};
use vstd::utf8::valid_utf8;
use crate::opcode::Opcode;

verus! {

/// The header an encoded frame carries for a payload of `data`'s length.
pub open spec fn spec_data_header(opcode: Opcode, data: Seq<u8>, mask: Option<Mask>) -> FrameHeader {
    FrameHeader {
        fin: true,
        rsv: 0,
        opcode: opcode.spec_value(),
        mask,
        data_len: data.len() as u64,
    }
}

/// Round-trip identity: decoding the encoding of a well-formed message, in
/// a fresh reassembly state, yields exactly that message, consumes every
/// byte, and leaves the state fresh — whether or not a mask was applied.
///
/// The bounds keep the frame within what one buffer can hold; the control
/// bound excludes the messages the encoder rejects.
pub proof fn lemma_encode_decode_roundtrip(m: MessageView, mask: Option<Mask>)
    requires
        msg_wf(m),
        m.opcode.spec_is_control() ==> m.data.len() <= 125,
        m.data.len() + 14 <= usize::MAX,
        m.data.len() < 0x8000_0000_0000_0000,
    ensures
        spec_decode(None, spec_frame_bytes(m.opcode, m.data, mask)) == (DecodeOutcome::Msg {
            opcode: m.opcode,
            data: m.data,
            state: None,
            rest: Seq::<u8>::empty(),
        }),
{
    let h = spec_data_header(m.opcode, m.data, mask);
    let payload = match mask {
        Some(mk) => mask_seq(m.data, mk),
        None => m.data,
    };
    let input = spec_frame_bytes(m.opcode, m.data, mask);
    let hb = spec_header_bytes(h);
    assert(input == hb + payload);
    assert(h.wf());
    lemma_header_roundtrip(h, payload);
    assert(spec_parse_header(input) == Some((h, hb.len() as int)));
    lemma_parse_header_bounds(input);
    let hlen = hb.len() as int;
    assert(h.data_len == m.data.len());
    assert(!spec_too_long(h, hlen));
    let frame_end = hlen + h.data_len;
    assert(payload.len() == m.data.len());
    assert(input.len() == frame_end);
    let raw = input.subrange(hlen, frame_end);
    assert(raw =~= payload);
    let rest = input.subrange(frame_end, input.len() as int);
    assert(rest =~= Seq::<u8>::empty());
    let data = match h.mask {
        Some(mk) => mask_seq(raw, mk),
        None => raw,
    };
    match mask {
        Some(mk) => {
            lemma_mask_involution(m.data, mk);
            assert(data == m.data);
        },
        None => {
            assert(data == m.data);
        },
    }
    assert(h.opcode != 0);
    assert(Opcode::spec_from_value(m.opcode.spec_value()) == Some(m.opcode));
    assert(spec_decode(None, input) == spec_finish(m.opcode, m.data, None, rest));
}

/// A text message always carries valid UTF-8, and an unmasked frame puts
/// those payload bytes on the wire verbatim, after the header.
pub proof fn lemma_text_frame_payload_utf8(m: MessageView)
    requires
        msg_wf(m),
        m.opcode is Text,
    ensures
        valid_utf8(m.data),
        spec_frame_bytes(m.opcode, m.data, None) == spec_header_bytes(
            spec_data_header(m.opcode, m.data, None),
        ) + m.data,
{
}

/// Text round trip: UTF-8 encoding is injective, so the string read back
/// out of a text message is exactly the string the message was built from,
/// and a text payload decodes to one string only.
pub proof fn lemma_utf8_encoding_injective(s: Seq<char>, t: Seq<char>)
    requires
        vstd::utf8::encode_utf8(s) == vstd::utf8::encode_utf8(t),
    ensures
        s == t,
{
    vstd::utf8::encode_utf8_decode_utf8(s);
    vstd::utf8::encode_utf8_decode_utf8(t);
}

/// One frame as it stands on the wire, final or not, data or continuation:
/// what the encoder emits generalized to the fragments only a peer produces.
pub open spec fn spec_raw_frame_bytes(
    fin: bool,
    opcode: u8,
    data: Seq<u8>,
    mask: Option<Mask>,
) -> Seq<u8> {
    let h = FrameHeader { fin, rsv: 0, opcode, mask, data_len: data.len() as u64 };
    spec_header_bytes(h) + (match mask {
        Some(m) => mask_seq(data, m),
        None => data,
    })
}

/// How the decoder takes one whole frame off the front of its input: the
/// header parses back, the lengths fit, the payload unmasks to the frame's
/// data, and exactly the frame's bytes are consumed.
proof fn lemma_frame_front(fin: bool, opcode: u8, data: Seq<u8>, mask: Option<Mask>, rest: Seq<u8>)
    requires
        opcode < 16,
        data.len() + 14 <= usize::MAX,
        data.len() < 0x8000_0000_0000_0000,
    ensures
        ({
            let h = FrameHeader { fin, rsv: 0, opcode, mask, data_len: data.len() as u64 };
            let input = spec_raw_frame_bytes(fin, opcode, data, mask) + rest;
            let hlen = spec_header_bytes(h).len() as int;
            &&& spec_parse_header(input) == Some((h, hlen))
            &&& 2 <= hlen <= 14
            &&& !spec_too_long(h, hlen)
            &&& h.data_len == data.len()
            &&& input.len() == hlen + h.data_len + rest.len()
            &&& (match h.mask {
                Some(mk) => mask_seq(input.subrange(hlen, hlen + h.data_len), mk),
                None => input.subrange(hlen, hlen + h.data_len),
            }) == data
            &&& input.subrange(hlen + h.data_len, input.len() as int) == rest
        }),
{
    let h = FrameHeader { fin, rsv: 0, opcode, mask, data_len: data.len() as u64 };
    let payload = match mask {
        Some(mk) => mask_seq(data, mk),
        None => data,
    };
    let input = spec_raw_frame_bytes(fin, opcode, data, mask) + rest;
    let hb = spec_header_bytes(h);
    let hlen = hb.len() as int;
    assert(h.wf());
    lemma_header_roundtrip(h, payload + rest);
    assert(input =~= hb + (payload + rest));
    lemma_parse_header_bounds(input);
    assert(payload.len() == data.len());
    assert(input.subrange(hlen, hlen + h.data_len) =~= payload);
    match mask {
        Some(mk) => {
            lemma_mask_involution(data, mk);
        },
        None => {},
    }
    assert(input.subrange(hlen + h.data_len, input.len() as int) =~= rest);
}

/// Control-frame interleaving: while a fragmented message is pending, a
/// whole control frame is decoded and delivered at once, in wire order, and
/// the pending fragment survives untouched — so a fragmented message
/// interleaved with control frames yields the controls first, in order, and
/// then the reassembled message.
pub proof fn lemma_control_interleave(
    st: (Opcode, Seq<u8>),
    cop: Opcode,
    cdata: Seq<u8>,
    mask: Option<Mask>,
    rest: Seq<u8>,
)
    requires
        cop.spec_is_control(),
        valid_message_data(cop, cdata),
        cdata.len() <= 125,
    ensures
        spec_decode(Some(st), spec_frame_bytes(cop, cdata, mask) + rest) == (DecodeOutcome::Msg {
            opcode: cop,
            data: cdata,
            state: Some(st),
            rest,
        }),
{
    lemma_frame_front(true, cop.spec_value(), cdata, mask, rest);
    assert(cop.spec_value() != 0);
    assert(Opcode::spec_from_value(cop.spec_value()) == Some(cop));
}

/// Opening a fragmented message: a non-final data frame is consumed whole,
/// its payload becomes the pending fragment, and decoding continues on the
/// remaining bytes.
pub proof fn lemma_fragment_start(op: Opcode, data: Seq<u8>, mask: Option<Mask>, rest: Seq<u8>)
    requires
        !op.spec_is_control(),
        data.len() + 14 <= usize::MAX,
        data.len() < 0x8000_0000_0000_0000,
    ensures
        spec_decode(None, spec_raw_frame_bytes(false, op.spec_value(), data, mask) + rest)
            == spec_decode(Some((op, data)), rest),
{
    lemma_frame_front(false, op.spec_value(), data, mask, rest);
    assert(op.spec_value() != 0);
    assert(Opcode::spec_from_value(op.spec_value()) == Some(op));
}

/// Continuing a fragmented message: a non-final continuation frame appends
/// its payload to the pending fragment.
pub proof fn lemma_fragment_continue(
    st: (Opcode, Seq<u8>),
    data: Seq<u8>,
    mask: Option<Mask>,
    rest: Seq<u8>,
)
    requires
        data.len() + 14 <= usize::MAX,
        data.len() < 0x8000_0000_0000_0000,
    ensures
        spec_decode(Some(st), spec_raw_frame_bytes(false, 0, data, mask) + rest) == spec_decode(
            Some((st.0, st.1 + data)),
            rest,
        ),
{
    lemma_frame_front(false, 0, data, mask, rest);
}

/// Completing a fragmented message: the final continuation frame yields one
/// message whose payload is the concatenation of every fragment's payload,
/// and the reassembly state is fresh again.
pub proof fn lemma_fragment_finish(
    st: (Opcode, Seq<u8>),
    data: Seq<u8>,
    mask: Option<Mask>,
    rest: Seq<u8>,
)
    requires
        valid_message_data(st.0, st.1 + data),
        data.len() + 14 <= usize::MAX,
        data.len() < 0x8000_0000_0000_0000,
    ensures
        spec_decode(Some(st), spec_raw_frame_bytes(true, 0, data, mask) + rest)
            == (DecodeOutcome::Msg { opcode: st.0, data: st.1 + data, state: None, rest }),
{
    lemma_frame_front(true, 0, data, mask, rest);
}

/// A fragmented message with a control frame between its fragments, end to
/// end: the first decode yields the control frame while the opening
/// fragment stays pending, and the next yields the message reassembled
/// from both fragments. With more interleaved controls the first step
/// repeats: each control is delivered in wire order before the data.
pub proof fn lemma_fragments_with_control(
    op: Opcode,
    d1: Seq<u8>,
    cop: Opcode,
    cdata: Seq<u8>,
    d2: Seq<u8>,
    rest: Seq<u8>,
)
    requires
        !op.spec_is_control(),
        cop.spec_is_control(),
        valid_message_data(cop, cdata),
        cdata.len() <= 125,
        valid_message_data(op, d1 + d2),
        d1.len() + 14 <= usize::MAX,
        d1.len() < 0x8000_0000_0000_0000,
        d2.len() + 14 <= usize::MAX,
        d2.len() < 0x8000_0000_0000_0000,
    ensures
        spec_decode(
            None,
            spec_raw_frame_bytes(false, op.spec_value(), d1, None) + (spec_frame_bytes(
                cop,
                cdata,
                None,
            ) + (spec_raw_frame_bytes(true, 0, d2, None) + rest)),
        ) == (DecodeOutcome::Msg {
            opcode: cop,
            data: cdata,
            state: Some((op, d1)),
            rest: spec_raw_frame_bytes(true, 0, d2, None) + rest,
        }),
        spec_decode(Some((op, d1)), spec_raw_frame_bytes(true, 0, d2, None) + rest)
            == (DecodeOutcome::Msg { opcode: op, data: d1 + d2, state: None, rest }),
{
    lemma_fragment_start(
        op,
        d1,
        None,
        spec_frame_bytes(cop, cdata, None) + (spec_raw_frame_bytes(true, 0, d2, None) + rest),
    );
    lemma_control_interleave(
        (op, d1),
        cop,
        cdata,
        None,
        spec_raw_frame_bytes(true, 0, d2, None) + rest,
    );
    lemma_fragment_finish((op, d1), d2, None, rest);
}

/// Chunk independence, the stopping case: when decoding stops for more
/// bytes, feeding the missing bytes later decodes exactly as if the whole
/// stream had been present at once. Splitting a byte stream at any point —
/// hence into any succession of chunks — yields the same messages in the
/// same order.
pub proof fn lemma_decode_chunked(
    st: Option<(Opcode, Seq<u8>)>,
    s: Seq<u8>,
    t: Seq<u8>,
    st2: Option<(Opcode, Seq<u8>)>,
    rest: Seq<u8>,
)
    requires
        spec_decode(st, s) == (DecodeOutcome::NeedMore { state: st2, rest }),
    ensures
        spec_decode(st, s + t) == spec_decode(st2, rest + t),
    decreases s.len(),
{
    let su = s + t;
    match spec_parse_header(s) {
        None => {
            assert(st2 == st && rest == s);
        },
        Some((h, hlen)) => {
            lemma_parse_header_bounds(s);
            lemma_parse_header_extend(s, t);
            let dl = h.data_len as int;
            if spec_too_long(h, hlen) {
                assert(false);
            } else if s.len() < hlen + dl {
                assert(st2 == st && rest == s);
            } else {
                let frame_end = hlen + dl;
                assert(su.subrange(hlen, frame_end) =~= s.subrange(hlen, frame_end));
                let rest_s = s.subrange(frame_end, s.len() as int);
                assert(su.subrange(frame_end, su.len() as int) =~= rest_s + t);
                let raw = s.subrange(hlen, frame_end);
                let data = match h.mask {
                    Some(m) => mask_seq(raw, m),
                    None => raw,
                };
                if h.opcode == 0 {
                    match st {
                        Some((op, acc)) => {
                            assert(!h.fin);
                            assert(spec_decode(st, s) == spec_decode(Some((op, acc + data)), rest_s));
                            lemma_decode_chunked(Some((op, acc + data)), rest_s, t, st2, rest);
                        },
                        None => {
                            assert(false);
                        },
                    }
                } else {
                    let op = Opcode::spec_from_value(h.opcode).unwrap();
                    assert(!op.spec_is_control() && st is None && !h.fin);
                    assert(spec_decode(st, s) == spec_decode(Some((op, data)), rest_s));
                    lemma_decode_chunked(Some((op, data)), rest_s, t, st2, rest);
                }
            }
        },
    }
}

/// Chunk independence, the yielding case: a message decodable from a prefix
/// is exactly what the extended stream decodes to — later bytes play no
/// part in it.
pub proof fn lemma_decode_msg_extend(
    st: Option<(Opcode, Seq<u8>)>,
    s: Seq<u8>,
    t: Seq<u8>,
    op: Opcode,
    data: Seq<u8>,
    st2: Option<(Opcode, Seq<u8>)>,
    rest: Seq<u8>,
)
    requires
        spec_decode(st, s) == (DecodeOutcome::Msg { opcode: op, data, state: st2, rest }),
    ensures
        spec_decode(st, s + t) == (DecodeOutcome::Msg { opcode: op, data, state: st2, rest: rest + t }),
    decreases s.len(),
{
    let su = s + t;
    match spec_parse_header(s) {
        None => {
            assert(false);
        },
        Some((h, hlen)) => {
            lemma_parse_header_bounds(s);
            lemma_parse_header_extend(s, t);
            let dl = h.data_len as int;
            if spec_too_long(h, hlen) {
                assert(false);
            } else if s.len() < hlen + dl {
                assert(false);
            } else {
                let frame_end = hlen + dl;
                assert(su.subrange(hlen, frame_end) =~= s.subrange(hlen, frame_end));
                let rest_s = s.subrange(frame_end, s.len() as int);
                assert(su.subrange(frame_end, su.len() as int) =~= rest_s + t);
                let raw = s.subrange(hlen, frame_end);
                let fdata = match h.mask {
                    Some(m) => mask_seq(raw, m),
                    None => raw,
                };
                if h.opcode == 0 {
                    match st {
                        Some((pop, acc)) => {
                            if !h.fin {
                                assert(spec_decode(st, s) == spec_decode(
                                    Some((pop, acc + fdata)),
                                    rest_s,
                                ));
                                lemma_decode_msg_extend(
                                    Some((pop, acc + fdata)),
                                    rest_s,
                                    t,
                                    op,
                                    data,
                                    st2,
                                    rest,
                                );
                            }
                        },
                        None => {
                            assert(false);
                        },
                    }
                } else {
                    let fop = Opcode::spec_from_value(h.opcode).unwrap();
                    if !fop.spec_is_control() && st is None && !h.fin {
                        assert(spec_decode(st, s) == spec_decode(Some((fop, fdata)), rest_s));
                        lemma_decode_msg_extend(Some((fop, fdata)), rest_s, t, op, data, st2, rest);
                    }
                }
            }
        },
    }
}

} // verus!
