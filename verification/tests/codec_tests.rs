use websocket_lite::close::CloseCode;
use websocket_lite::codec::MessageCodec;
use websocket_lite::error::Error;
use websocket_lite::mask::{mask_slice, mask_slice_copy, Mask};
use websocket_lite::message::Message;
use websocket_lite::opcode::Opcode;

fn decode_all(codec: &mut MessageCodec, buf: &mut Vec<u8>) -> Vec<Message> {
    let mut out = Vec::new();
    loop {
        match codec.decode(buf) {
            Ok(Some(m)) => out.push(m),
            Ok(None) => return out,
            Err(e) => panic!("unexpected decode error: {:?}", e),
        }
    }
}

#[test]
fn minimal_text_unmasked() {
    let mut codec = MessageCodec::with_masked_encode(false);
    let mut buf = vec![0x81, 0x05, 0x48, 0x65, 0x6C, 0x6C, 0x6F];
    let msg = codec.decode(&mut buf).unwrap().unwrap();
    assert_eq!(msg.opcode(), Opcode::Text);
    assert_eq!(msg.data().as_slice(), b"Hello");
    assert_eq!(msg.as_text().unwrap(), "Hello");
    assert!(buf.is_empty());
}

#[test]
fn minimal_text_masked() {
    let mut codec = MessageCodec::client();
    let mut buf = vec![0x81, 0x85, 0x37, 0xFA, 0x21, 0x3D, 0x7F, 0x9F, 0x4D, 0x51, 0x58];
    let msg = codec.decode(&mut buf).unwrap().unwrap();
    assert_eq!(msg.opcode(), Opcode::Text);
    assert_eq!(msg.as_text().unwrap(), "Hello");
    assert!(buf.is_empty());
}

#[test]
fn fragmented_binary() {
    let mut codec = MessageCodec::client();
    let mut buf = vec![0x02, 0x03, 0x01, 0x02, 0x03];
    assert!(codec.decode(&mut buf).unwrap().is_none());
    buf.extend_from_slice(&[0x80, 0x02, 0x04, 0x05]);
    let msg = codec.decode(&mut buf).unwrap().unwrap();
    assert_eq!(msg.opcode(), Opcode::Binary);
    assert_eq!(msg.data().as_slice(), &[1, 2, 3, 4, 5]);
}

#[test]
fn ping_interleaved() {
    let mut codec = MessageCodec::client();
    let mut buf = vec![0x02, 0x03, 0x01, 0x02, 0x03];
    buf.extend_from_slice(&[0x89, 0x00]);
    buf.extend_from_slice(&[0x80, 0x02, 0x04, 0x05]);
    let msgs = decode_all(&mut codec, &mut buf);
    assert_eq!(msgs.len(), 2);
    assert_eq!(msgs[0].opcode(), Opcode::Ping);
    assert!(msgs[0].data().is_empty());
    assert_eq!(msgs[1].opcode(), Opcode::Binary);
    assert_eq!(msgs[1].data().as_slice(), &[1, 2, 3, 4, 5]);
}

#[test]
fn oversize_control_rejected() {
    let mut codec = MessageCodec::client();
    // A ping frame advertising 200 payload bytes, fully buffered.
    let mut buf = vec![0x89, 126, 0x00, 200];
    buf.extend_from_slice(&[0u8; 200]);
    let err = codec.decode(&mut buf).unwrap_err();
    assert_eq!(err, Error::ControlTooLong);
}

#[test]
fn close_with_reason_encodes_exactly() {
    let msg = Message::close_with_reason(CloseCode::from_u16(1000), "bye".to_string());
    let mut out = Vec::new();
    MessageCodec::encode_with_mask(&msg, None, &mut out).unwrap();
    assert_eq!(out, vec![0x88, 0x05, 0x03, 0xE8, 0x62, 0x79, 0x65]);

    let mut codec = MessageCodec::with_masked_encode(false);
    let decoded = codec.decode(&mut out).unwrap().unwrap();
    let frame = decoded.as_close().unwrap();
    assert_eq!(frame.code.value(), 1000);
    assert_eq!(frame.reason.as_slice(), b"bye");
}

#[test]
fn close_reason_truncated_on_char_boundary() {
    // 122 ASCII bytes followed by a 2-byte character: the whole character
    // must go, keeping 122 reason bytes.
    let mut reason = "a".repeat(122);
    reason.push('é');
    let msg = Message::close_with_reason(CloseCode::from_u16(1000), reason);
    assert_eq!(msg.data().len(), 2 + 122);
    assert!(msg.data().len() <= 125);
}

#[test]
fn round_trip_unmasked() {
    let mut codec = MessageCodec::with_masked_encode(false);
    for msg in [
        Message::text("Hello".to_string()),
        Message::text(String::new()),
        Message::binary(vec![]),
        Message::binary(vec![0, 1, 2, 255]),
        Message::ping(vec![9; 125]),
        Message::pong(vec![1]),
        Message::close(),
        Message::close_with_reason(CloseCode::from_u16(1002), "protocol error".to_string()),
    ] {
        let mut wire = Vec::new();
        codec.encode(&msg, &mut wire).unwrap();
        let decoded = codec.decode(&mut wire).unwrap().unwrap();
        assert_eq!(decoded.opcode(), msg.opcode());
        assert_eq!(decoded.data(), msg.data());
        assert!(wire.is_empty());
    }
}

#[test]
fn round_trip_masked() {
    let mut codec = MessageCodec::client();
    for msg in [
        Message::text("masked message".to_string()),
        Message::binary((0u8..=255).collect::<Vec<u8>>()),
        Message::ping(vec![1, 2, 3]),
    ] {
        let mut wire = Vec::new();
        codec.encode(&msg, &mut wire).unwrap();
        // A client encoder always masks.
        assert_eq!(wire[1] & 0x80, 0x80);
        let decoded = codec.decode(&mut wire).unwrap().unwrap();
        assert_eq!(decoded.opcode(), msg.opcode());
        assert_eq!(decoded.data(), msg.data());
    }
}

#[test]
fn encoder_rejects_oversize_control() {
    let msg = Message::ping(vec![0; 126]);
    let mut out = Vec::new();
    let err = MessageCodec::client().encode(&msg, &mut out).unwrap_err();
    assert_eq!(err, Error::ControlTooLong);
    assert!(out.is_empty());
}

#[test]
fn control_at_limit_is_accepted() {
    let msg = Message::ping(vec![7; 125]);
    let mut out = Vec::new();
    MessageCodec::with_masked_encode(false).encode(&msg, &mut out).unwrap();
    assert_eq!(out[0], 0x89);
    assert_eq!(out[1], 125);
    assert_eq!(out.len(), 2 + 125);
}

#[test]
fn chunked_decoding_matches_whole() {
    // One masked text frame, one ping, one fragmented binary message.
    let codec = MessageCodec::with_masked_encode(false);
    let mut stream = Vec::new();
    let mut c = codec.clone();
    c.encode(&Message::text("chunk test".to_string()), &mut stream).unwrap();
    stream.extend_from_slice(&[0x89, 0x01, 0xAA]);
    stream.extend_from_slice(&[0x02, 0x02, 1, 2, 0x00, 0x01, 3, 0x80, 0x01, 4]);

    let mut whole = MessageCodec::client();
    let mut whole_buf = stream.clone();
    let expect = decode_all(&mut whole, &mut whole_buf);
    assert_eq!(expect.len(), 3);

    // Any split: feed the stream byte by byte.
    let mut chunked = MessageCodec::client();
    let mut buf = Vec::new();
    let mut got = Vec::new();
    for b in &stream {
        buf.push(*b);
        loop {
            match chunked.decode(&mut buf) {
                Ok(Some(m)) => got.push(m),
                Ok(None) => break,
                Err(e) => panic!("decode error: {:?}", e),
            }
        }
    }
    assert_eq!(got.len(), expect.len());
    for (a, b) in got.iter().zip(expect.iter()) {
        assert_eq!(a.opcode(), b.opcode());
        assert_eq!(a.data(), b.data());
    }
}

#[test]
fn length_boundaries() {
    let codec = MessageCodec::with_masked_encode(false);
    for len in [125usize, 126, 65535, 65536] {
        let msg = Message::binary(vec![0x5A; len]);
        let mut wire = Vec::new();
        codec.encode(&msg, &mut wire).unwrap();
        // The shortest sufficient length form.
        let header_len = if len <= 125 {
            assert_eq!(wire[1], len as u8);
            2
        } else if len <= 65535 {
            assert_eq!(wire[1], 126);
            assert_eq!(wire[2], (len >> 8) as u8);
            assert_eq!(wire[3], (len & 0xFF) as u8);
            4
        } else {
            assert_eq!(wire[1], 127);
            assert_eq!(wire[9], (len & 0xFF) as u8);
            10
        };
        assert_eq!(wire.len(), header_len + len);
        let mut c = codec.clone();
        let decoded = c.decode(&mut wire).unwrap().unwrap();
        assert_eq!(decoded.data().len(), len);
    }
}

#[test]
fn reserved_bits_rejected() {
    let mut codec = MessageCodec::client();
    let mut buf = vec![0xC1, 0x01, 0x41];
    assert_eq!(codec.decode(&mut buf).unwrap_err(), Error::ReservedBitsSet);
}

#[test]
fn unknown_opcode_rejected() {
    let mut codec = MessageCodec::client();
    let mut buf = vec![0x83, 0x00];
    assert_eq!(codec.decode(&mut buf).unwrap_err(), Error::BadOpcode);
}

#[test]
fn dangling_continuation_rejected() {
    let mut codec = MessageCodec::client();
    let mut buf = vec![0x80, 0x01, 0x41];
    assert_eq!(
        codec.decode(&mut buf).unwrap_err(),
        Error::DanglingContinuation
    );
}

#[test]
fn nested_data_frame_rejected() {
    let mut codec = MessageCodec::client();
    let mut buf = vec![0x01, 0x01, 0x41, 0x02, 0x01, 0x42];
    assert_eq!(codec.decode(&mut buf).unwrap_err(), Error::NestedDataFrame);
}

#[test]
fn fragmented_control_rejected() {
    let mut codec = MessageCodec::client();
    let mut buf = vec![0x09, 0x00];
    assert_eq!(
        codec.decode(&mut buf).unwrap_err(),
        Error::ControlFragmented
    );
}

#[test]
fn invalid_text_rejected() {
    assert_eq!(
        Message::new(Opcode::Text, vec![0xFF]).unwrap_err(),
        Error::InvalidUtf8
    );
    let mut codec = MessageCodec::client();
    let mut buf = vec![0x81, 0x01, 0xFF];
    assert_eq!(codec.decode(&mut buf).unwrap_err(), Error::InvalidUtf8);
}

#[test]
fn invalid_close_payload_rejected() {
    assert_eq!(
        Message::new(Opcode::Close, vec![0x03]).unwrap_err(),
        Error::InvalidClosePayload
    );
    assert_eq!(
        Message::new(Opcode::Close, vec![0x03, 0xE8, 0xFF]).unwrap_err(),
        Error::InvalidUtf8
    );
}

#[test]
fn message_validation_accepts_utf8_shapes() {
    // Every UTF-8 width, surrogate-adjacent boundaries included.
    let ok = "a\u{7F}\u{80}\u{7FF}\u{800}\u{D7FF}\u{E000}\u{FFFF}\u{10000}\u{10FFFF}é€𝄞";
    let msg = Message::new(Opcode::Text, ok.as_bytes().to_vec()).unwrap();
    assert_eq!(msg.as_text().unwrap(), ok);

    // Truncated multi-byte character.
    assert!(Message::new(Opcode::Text, vec![0xE2, 0x82]).is_err());
    // Overlong encoding of '/'.
    assert!(Message::new(Opcode::Text, vec![0xC0, 0xAF]).is_err());
    // A surrogate encoded directly.
    assert!(Message::new(Opcode::Text, vec![0xED, 0xA0, 0x80]).is_err());
    // Codepoint past 0x10FFFF.
    assert!(Message::new(Opcode::Text, vec![0xF4, 0x90, 0x80, 0x80]).is_err());
}

#[test]
fn close_shapes() {
    let empty = Message::new(Opcode::Close, vec![]).unwrap();
    assert!(empty.as_close().is_none());
    let code_only = Message::new(Opcode::Close, vec![0x03, 0xE8]).unwrap();
    let frame = code_only.as_close().unwrap();
    assert_eq!(frame.code.value(), 1000);
    assert!(frame.reason.is_empty());
    assert!(Message::binary(vec![1]).as_close().is_none());
    assert!(Message::binary(vec![1]).as_text().is_none());
}

#[test]
fn masking_is_involutive() {
    let mask = Mask::from_bytes(0x37, 0xFA, 0x21, 0x3D);
    let original: Vec<u8> = (0u8..100).collect();
    let mut buf = original.clone();
    mask_slice(&mut buf, mask);
    assert_ne!(buf, original);
    mask_slice(&mut buf, mask);
    assert_eq!(buf, original);

    let copied = mask_slice_copy(&original, mask);
    let back = mask_slice_copy(&copied, mask);
    assert_eq!(back, original);
}

#[test]
fn random_masks_differ_in_effect() {
    // Drawn keys are random; two draws agreeing on all four bytes would be
    // rare, and either way masking with each must invert itself.
    let m1 = Mask::new();
    let data = vec![0u8; 8];
    let masked = mask_slice_copy(&data, m1);
    let unmasked = mask_slice_copy(&masked, m1);
    assert_eq!(unmasked, data);
}

#[test]
fn into_data_returns_payload() {
    let msg = Message::binary(vec![1, 2, 3]);
    assert_eq!(msg.into_data(), vec![1, 2, 3]);
}

#[test]
fn error_descriptions_are_nonempty() {
    for e in [
        Error::ReservedBitsSet,
        Error::BadOpcode,
        Error::ControlTooLong,
        Error::ControlFragmented,
        Error::DanglingContinuation,
        Error::NestedDataFrame,
        Error::InvalidUtf8,
        Error::InvalidClosePayload,
        Error::FrameTooLong,
    ] {
        assert!(!e.description().is_empty());
    }
}

#[test]
fn opcode_numeric_mapping() {
    assert_eq!(Opcode::Text.value(), 1);
    assert_eq!(Opcode::Binary.value(), 2);
    assert_eq!(Opcode::Close.value(), 8);
    assert_eq!(Opcode::Ping.value(), 9);
    assert_eq!(Opcode::Pong.value(), 10);
    for v in 0..=255u8 {
        match Opcode::from_value(v) {
            Some(op) => {
                assert_eq!(op.value(), v);
                assert_eq!(op.is_control(), v >= 8);
            },
            None => assert!(![1, 2, 8, 9, 10].contains(&v)),
        }
    }
}
