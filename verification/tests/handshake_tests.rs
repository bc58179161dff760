use websocket_lite::handshake::{
    build_request, decode_response, expected_accept, make_key, HandshakeError, UrlParts,
};

const SAMPLE_KEY: &[u8] = b"dGhlIHNhbXBsZSBub25jZQ==";

fn sample_response(accept: &str) -> Vec<u8> {
    format!(
        "HTTP/1.1 101 Switching Protocols\r\nUpgrade: websocket\r\nConnection: Upgrade\r\nSec-WebSocket-Accept: {}\r\n\r\n",
        accept
    )
    .into_bytes()
}

#[test]
fn accept_derivation_matches_sample() {
    // The worked example of RFC 6455: this key demands this accept value.
    let accept = expected_accept(&SAMPLE_KEY.to_vec());
    assert_eq!(accept.as_slice(), b"s3pPLMBiTxaQ9kYGzzhZRbK+xOo=");
}

#[test]
fn make_key_encodes_given_bytes() {
    // "the sample nonce" as raw bytes is the RFC's sample key.
    let bytes: [u8; 16] = *b"the sample nonce";
    let key = make_key(Some(bytes));
    assert_eq!(key.as_slice(), SAMPLE_KEY);
    // A fresh key is always 24 base64 bytes.
    assert_eq!(make_key(None).len(), 24);
}

#[test]
fn response_with_correct_accept_passes() {
    let response = sample_response("s3pPLMBiTxaQ9kYGzzhZRbK+xOo=");
    let n = decode_response(&response, &SAMPLE_KEY.to_vec())
        .unwrap()
        .unwrap();
    assert_eq!(n, response.len());
}

#[test]
fn response_preserves_bytes_past_head() {
    // Frame bytes read together with the response must stay in the buffer.
    let mut response = sample_response("s3pPLMBiTxaQ9kYGzzhZRbK+xOo=");
    let head_len = response.len();
    response.extend_from_slice(&[0x81, 0x05, 0x48, 0x65, 0x6C, 0x6C, 0x6F]);
    let n = decode_response(&response, &SAMPLE_KEY.to_vec())
        .unwrap()
        .unwrap();
    assert_eq!(n, head_len);
    assert_eq!(&response[n..], &[0x81, 0x05, 0x48, 0x65, 0x6C, 0x6C, 0x6F]);
}

#[test]
fn response_with_wrong_accept_fails() {
    let response = sample_response("AAAAAAAAAAAAAAAAAAAAAAAAAAA=");
    assert_eq!(
        decode_response(&response, &SAMPLE_KEY.to_vec()).unwrap_err(),
        HandshakeError::BadAcceptKey
    );
}

#[test]
fn response_headers_match_case_insensitively() {
    let response = "HTTP/1.1 101 Switching Protocols\r\nUPGRADE: WebSocket\r\nconnection: UPGRADE\r\nSec-WebSocket-Accept:   s3pPLMBiTxaQ9kYGzzhZRbK+xOo=  \r\n\r\n"
        .as_bytes()
        .to_vec();
    assert!(decode_response(&response, &SAMPLE_KEY.to_vec())
        .unwrap()
        .is_some());
}

#[test]
fn response_with_bad_status_fails() {
    let response = b"HTTP/1.1 200 OK\r\nContent-Length: 0\r\n\r\n".to_vec();
    assert_eq!(
        decode_response(&response, &SAMPLE_KEY.to_vec()).unwrap_err(),
        HandshakeError::BadStatus
    );
}

#[test]
fn response_without_upgrade_header_fails() {
    let response =
        b"HTTP/1.1 101 Switching Protocols\r\nSec-WebSocket-Accept: s3pPLMBiTxaQ9kYGzzhZRbK+xOo=\r\n\r\n"
            .to_vec();
    assert_eq!(
        decode_response(&response, &SAMPLE_KEY.to_vec()).unwrap_err(),
        HandshakeError::MissingUpgradeHeader
    );
}

#[test]
fn incomplete_response_asks_for_more() {
    let full = sample_response("s3pPLMBiTxaQ9kYGzzhZRbK+xOo=");
    for cut in [0, 1, full.len() - 1] {
        let partial = full[..cut].to_vec();
        assert!(decode_response(&partial, &SAMPLE_KEY.to_vec())
            .unwrap()
            .is_none());
    }
}

#[test]
fn request_has_exact_shape() {
    let url = UrlParts {
        host: b"example.com".to_vec(),
        port: Some(8080),
        path: b"/chat".to_vec(),
        query: Some(b"v=1".to_vec()),
    };
    let headers = vec![(b"X-Extra".to_vec(), b"yes".to_vec())];
    let request = build_request(&url, &SAMPLE_KEY.to_vec(), &headers);
    let expected = "GET /chat?v=1 HTTP/1.1\r\nHost: example.com:8080\r\nUpgrade: websocket\r\nConnection: Upgrade\r\nSec-WebSocket-Key: dGhlIHNhbXBsZSBub25jZQ==\r\nSec-WebSocket-Version: 13\r\nX-Extra: yes\r\n\r\n";
    assert_eq!(String::from_utf8(request).unwrap(), expected);
}

#[test]
fn request_elides_default_port_and_query() {
    let url = UrlParts {
        host: b"example.com".to_vec(),
        port: None,
        path: b"/".to_vec(),
        query: None,
    };
    let request = build_request(&url, &SAMPLE_KEY.to_vec(), &vec![]);
    let text = String::from_utf8(request).unwrap();
    assert!(text.starts_with("GET / HTTP/1.1\r\nHost: example.com\r\n"));
    assert!(text.ends_with("\r\n\r\n"));
    assert!(!text.contains("example.com:"));
}
