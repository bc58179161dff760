//! The HTTP/1.1 Upgrade handshake: request generation, key derivation, and
//! response validation.
//!
//! The request and response are handled as raw bytes; the caller owns the
//! socket and hands complete buffers in and out.

use vstd::prelude::*;
use vstd::utf8::encode_utf8;

use sha1::Digest;

verus! {

/// The SHA-1 digest of the input bytes, named: it depends on the input
/// alone, and only the outside hash computes it.
pub uninterp spec fn sha1_of(input: Seq<u8>) -> Seq<u8>;

/// The standard padded base64 encoding of the input bytes, named: it
/// depends on the input alone, and only the outside encoder computes it.
pub uninterp spec fn base64_of(input: Seq<u8>) -> Seq<u8>;

/// Relies on `sha1::Sha1::digest`: the 20-byte hash is a function of the
/// input bytes alone.
#[verifier::external_body]
fn sha1_digest(input: &Vec<u8>) -> (r: Vec<u8>)
    ensures
        r@ == sha1_of(input@),
        r@.len() == 20,
{
    sha1::Sha1::digest(input.as_slice()).to_vec()
}

/// Relies on base64's standard-alphabet padded engine: the encoding is a
/// function of the input bytes alone, four output bytes for every started
/// group of three input bytes.
#[verifier::external_body]
fn base64_encode(input: &Vec<u8>) -> (r: Vec<u8>)
    ensures
        r@ == base64_of(input@),
        r@.len() == 4 * ((input@.len() + 2) / 3),
{
    base64::Engine::encode(&base64::engine::general_purpose::STANDARD, input).into_bytes()
}

/// Relies on `rand::random`: nothing is promised of the bytes drawn.
#[verifier::external_body]
fn random_bytes_16() -> (r: [u8; 16])
{
    rand::random()
}

/// The GUID that RFC 6455 appends to the client key before hashing.
pub open spec fn spec_guid() -> Seq<u8> {
    encode_utf8("258EAFA5-E914-47DA-95CA-C5AB0DC85B11"@)
}

/// The `Sec-WebSocket-Accept` value a compliant server must send for the
/// given client key.
pub open spec fn spec_accept_for(key: Seq<u8>) -> Seq<u8> {
    base64_of(sha1_of(key + spec_guid()))
}

/// Builds the `Sec-WebSocket-Key` value: the base64 encoding of the given
/// 16 bytes, or of 16 fresh random bytes when none are given (a caller
/// supplies bytes only to make a handshake reproducible).
pub fn make_key(key: Option<[u8; 16]>) -> (r: Vec<u8>)
    ensures
        r@.len() == 24,
        key matches Some(k) ==> r@ == base64_of(k@),
        exists|k: Seq<u8>| k.len() == 16 && r@ == #[trigger] base64_of(k),
{
    let bytes: [u8; 16] = match key {
        Some(k) => k,
        None => random_bytes_16(),
    };
    let mut v: Vec<u8> = Vec::new();
    let mut i: usize = 0;
    while i < 16
        invariant
            i <= 16,
            v@ =~= bytes@.take(i as int),
        decreases 16 - i,
    {
        v.push(bytes[i]);
        i = i + 1;
    }
    proof {
        assert(v@ =~= bytes@);
    }
    base64_encode(&v)
}

/// Computes the accept value the server is required to echo for `key`:
/// base64 of the SHA-1 hash of the key followed by the RFC 6455 GUID.
pub fn expected_accept(key: &Vec<u8>) -> (r: Vec<u8>)
    ensures
        r@ == spec_accept_for(key@),
{
    let mut input: Vec<u8> = Vec::new();
    input.extend_from_slice(key.as_slice());
    let mut guid = "258EAFA5-E914-47DA-95CA-C5AB0DC85B11".as_bytes_vec();
    input.append(&mut guid);
    assert(input@ =~= key@ + spec_guid());
    let digest = sha1_digest(&input);
    base64_encode(&digest)
}

/// What the request names of the server: the URL parts the handshake
/// needs, as plain bytes. `port` is given only when it differs from the
/// scheme's default, and is then written into the Host header.
pub struct UrlParts {
    pub host: Vec<u8>,
    pub port: Option<u16>,
    pub path: Vec<u8>,
    pub query: Option<Vec<u8>>,
}

/// The decimal digits of `n`, most significant first.
pub open spec fn spec_decimal(n: int) -> Seq<u8>
    recommends
        n >= 0,
    decreases n,
{
    if n < 10 {
        seq![(n + 0x30) as u8]
    } else {
        spec_decimal(n / 10) + seq![(n % 10 + 0x30) as u8]
    }
}

/// One extra header line: `name: value` and the line end.
pub open spec fn spec_header_line(name: Seq<u8>, value: Seq<u8>) -> Seq<u8> {
    name + encode_utf8(": "@) + value + encode_utf8("\r\n"@)
}

/// The caller-supplied header lines, in insertion order.
pub open spec fn spec_header_lines(hs: Seq<(Seq<u8>, Seq<u8>)>) -> Seq<u8>
    decreases hs.len(),
{
    if hs.len() == 0 {
        Seq::<u8>::empty()
    } else {
        spec_header_lines(hs.drop_last()) + spec_header_line(hs.last().0, hs.last().1)
    }
}

/// The views of the header pairs.
pub open spec fn spec_headers_view(hs: Seq<(Vec<u8>, Vec<u8>)>) -> Seq<(Seq<u8>, Seq<u8>)> {
    hs.map_values(|p: (Vec<u8>, Vec<u8>)| (p.0@, p.1@))
}

/// The whole Upgrade request for the given URL parts, key and extra
/// headers: request line, Host, the four fixed upgrade headers, the extra
/// headers in order, and the blank line.
pub open spec fn spec_request_bytes(
    path: Seq<u8>,
    query: Option<Seq<u8>>,
    host: Seq<u8>,
    port: Option<u16>,
    key: Seq<u8>,
    headers: Seq<(Seq<u8>, Seq<u8>)>,
) -> Seq<u8> {
    encode_utf8("GET "@) + path + (match query {
        Some(q) => encode_utf8("?"@) + q,
        None => Seq::<u8>::empty(),
    }) + encode_utf8(" HTTP/1.1\r\nHost: "@) + host + (match port {
        Some(p) => encode_utf8(":"@) + spec_decimal(p as int),
        None => Seq::<u8>::empty(),
    }) + encode_utf8(
        "\r\nUpgrade: websocket\r\nConnection: Upgrade\r\nSec-WebSocket-Key: "@,
    ) + key + encode_utf8("\r\nSec-WebSocket-Version: 13\r\n"@) + spec_header_lines(headers)
        + encode_utf8("\r\n"@)
}

/// Appends a literal's bytes.
fn push_str_bytes(out: &mut Vec<u8>, s: &str)
    ensures
        final(out)@ == old(out)@ + encode_utf8(s@),
{
    let mut b = s.as_bytes_vec();
    out.append(&mut b);
}

/// Appends the decimal digits of `n`, most significant first.
fn push_decimal(out: &mut Vec<u8>, n: u16)
    ensures
        final(out)@ == old(out)@ + spec_decimal(n as int),
    decreases n,
{
    if n < 10 {
        out.push((n as u8) + 0x30);
        assert(out@ =~= old(out)@ + spec_decimal(n as int));
    } else {
        push_decimal(out, n / 10);
        out.push(((n % 10) as u8) + 0x30);
        assert(out@ =~= old(out)@ + spec_decimal(n as int));
    }
}

/// Builds the HTTP/1.1 Upgrade request for the given URL parts, with the
/// given `Sec-WebSocket-Key` value and the caller's extra headers in
/// insertion order.
#[verifier::rlimit(50)]
pub fn build_request(url: &UrlParts, key: &Vec<u8>, headers: &Vec<(Vec<u8>, Vec<u8>)>) -> (r: Vec<
    u8,
>)
    ensures
        r@ == spec_request_bytes(
            url.path@,
            match url.query {
                Some(q) => Some(q@),
                None => None,
            },
            url.host@,
            url.port,
            key@,
            spec_headers_view(headers@),
        ),
{
    let mut out: Vec<u8> = Vec::new();
    push_str_bytes(&mut out, "GET ");
    out.extend_from_slice(url.path.as_slice());
    match &url.query {
        Some(q) => {
            push_str_bytes(&mut out, "?");
            out.extend_from_slice(q.as_slice());
        },
        None => {},
    }
    push_str_bytes(&mut out, " HTTP/1.1\r\nHost: ");
    out.extend_from_slice(url.host.as_slice());
    match url.port {
        Some(p) => {
            push_str_bytes(&mut out, ":");
            push_decimal(&mut out, p);
        },
        None => {},
    }
    push_str_bytes(&mut out, "\r\nUpgrade: websocket\r\nConnection: Upgrade\r\nSec-WebSocket-Key: ");
    out.extend_from_slice(key.as_slice());
    push_str_bytes(&mut out, "\r\nSec-WebSocket-Version: 13\r\n");
    let ghost base = out@;
    let ghost hviews = spec_headers_view(headers@);
    let mut i: usize = 0;
    while i < headers.len()
        invariant
            i <= headers.len(),
            hviews == spec_headers_view(headers@),
            hviews.len() == headers@.len(),
            out@ == base + spec_header_lines(hviews.take(i as int)),
        decreases headers.len() - i,
    {
        let ghost out0 = out@;
        out.extend_from_slice(headers[i].0.as_slice());
        push_str_bytes(&mut out, ": ");
        out.extend_from_slice(headers[i].1.as_slice());
        push_str_bytes(&mut out, "\r\n");
        proof {
            assert(hviews.take(i + 1).drop_last() =~= hviews.take(i as int));
            assert(hviews.take(i + 1).last() == hviews[i as int]);
            assert(out@ =~= out0 + spec_header_line(hviews[i as int].0, hviews[i as int].1));
            assert(out@ =~= base + spec_header_lines(hviews.take(i + 1)));
        }
        i = i + 1;
    }
    proof {
        assert(hviews.take(headers@.len() as int) =~= hviews);
    }
    push_str_bytes(&mut out, "\r\n");
    proof {
        assert(out@ =~= spec_request_bytes(
            url.path@,
            match url.query {
                Some(q) => Some(q@),
                None => None,
            },
            url.host@,
            url.port,
            key@,
            hviews,
        ));
    }
    out
}

/// How an Upgrade response can be rejected.
#[derive(Clone, Copy, Debug, PartialEq, Eq, Structural)]
pub enum HandshakeError {
    /// The status line was not `HTTP/1.1 101`.
    BadStatus,
    /// The `Upgrade: websocket` or `Connection: Upgrade` header was missing
    /// or carried another value.
    MissingUpgradeHeader,
    /// The `Sec-WebSocket-Accept` header was missing or did not match the
    /// key this client sent.
    BadAcceptKey,
}

/// A CRLF pair stands at position `i`.
pub open spec fn crlf_at(s: Seq<u8>, i: int) -> bool {
    0 <= i && i + 2 <= s.len() && s[i] == 13 && s[i + 1] == 10
}

/// The blank line ending the response head starts at position `i`.
pub open spec fn terminator_at(s: Seq<u8>, i: int) -> bool {
    crlf_at(s, i) && crlf_at(s, i + 2)
}

/// The position of the first CRLF pair, if any.
pub open spec fn spec_first_crlf(s: Seq<u8>) -> Option<int>
    decreases s.len(),
{
    if s.len() < 2 {
        None
    } else if s[0] == 13 && s[1] == 10 {
        Some(0int)
    } else {
        match spec_first_crlf(s.skip(1)) {
            Some(i) => Some(i + 1),
            None => None,
        }
    }
}

/// The position where the head's terminating blank line starts, if any.
pub open spec fn spec_first_terminator(s: Seq<u8>) -> Option<int>
    decreases s.len(),
{
    if s.len() < 4 {
        None
    } else if s[0] == 13 && s[1] == 10 && s[2] == 13 && s[3] == 10 {
        Some(0int)
    } else {
        match spec_first_terminator(s.skip(1)) {
            Some(i) => Some(i + 1),
            None => None,
        }
    }
}

/// A scan that saw no CRLF saw what the splitter sees.
proof fn lemma_first_crlf_none(s: Seq<u8>)
    requires
        forall|j: int| !crlf_at(s, j),
    ensures
        spec_first_crlf(s) is None,
    decreases s.len(),
{
    if s.len() >= 2 {
        assert(!crlf_at(s, 0));
        assert(forall|j: int| crlf_at(s.skip(1), j) ==> crlf_at(s, j + 1));
        lemma_first_crlf_none(s.skip(1));
    }
}

/// A scan that found the first CRLF found what the splitter finds.
proof fn lemma_first_crlf_at(s: Seq<u8>, k: int)
    requires
        crlf_at(s, k),
        forall|j: int| 0 <= j < k ==> !crlf_at(s, j),
    ensures
        spec_first_crlf(s) == Some(k),
    decreases k,
{
    if k > 0 {
        assert(!crlf_at(s, 0));
        assert(crlf_at(s.skip(1), k - 1));
        assert(forall|j: int| 0 <= j < k - 1 ==> crlf_at(s.skip(1), j) ==> crlf_at(s, j + 1));
        lemma_first_crlf_at(s.skip(1), k - 1);
    }
}

/// The same two facts for the blank-line scan.
proof fn lemma_first_terminator_none(s: Seq<u8>)
    requires
        forall|j: int| !terminator_at(s, j),
    ensures
        spec_first_terminator(s) is None,
    decreases s.len(),
{
    if s.len() >= 4 {
        assert(!terminator_at(s, 0));
        assert(forall|j: int|
            terminator_at(s.skip(1), j) ==> terminator_at(s, j + 1));
        lemma_first_terminator_none(s.skip(1));
    }
}

proof fn lemma_first_terminator_at(s: Seq<u8>, k: int)
    requires
        terminator_at(s, k),
        forall|j: int| 0 <= j < k ==> !terminator_at(s, j),
    ensures
        spec_first_terminator(s) == Some(k),
    decreases k,
{
    if k > 0 {
        assert(!terminator_at(s, 0));
        assert(terminator_at(s.skip(1), k - 1));
        assert(forall|j: int|
            0 <= j < k - 1 ==> terminator_at(s.skip(1), j) ==> terminator_at(s, j + 1));
        lemma_first_terminator_at(s.skip(1), k - 1);
    }
}

/// The head split at every CRLF, in order.
pub open spec fn spec_lines_of(s: Seq<u8>) -> Seq<Seq<u8>>
    decreases s.len(),
{
    match spec_first_crlf(s) {
        Some(i) => {
            if 0 <= i && i + 2 <= s.len() {
                seq![s.take(i)] + spec_lines_of(s.skip(i + 2))
            } else {
                Seq::empty()
            }
        },
        None => {
            if s.len() == 0 {
                Seq::empty()
            } else {
                seq![s]
            }
        },
    }
}

/// The views of a split's lines.
pub open spec fn spec_lines_view(ls: Seq<Vec<u8>>) -> Seq<Seq<u8>> {
    ls.map_values(|v: Vec<u8>| v@)
}

/// ASCII lower case, byte by byte.
pub open spec fn spec_lower(b: u8) -> u8 {
    if 65 <= b <= 90 {
        (b + 32) as u8
    } else {
        b
    }
}

/// The sequence in ASCII lower case.
pub open spec fn lower_seq(s: Seq<u8>) -> Seq<u8> {
    s.map_values(|b: u8| spec_lower(b))
}

/// A blank: space or horizontal tab.
pub open spec fn spec_blank(b: u8) -> bool {
    b == 32 || b == 9
}

/// The sequence without its leading blanks.
pub open spec fn spec_trim_front(s: Seq<u8>) -> Seq<u8>
    decreases s.len(),
{
    if s.len() > 0 && spec_blank(s[0]) {
        spec_trim_front(s.skip(1))
    } else {
        s
    }
}

/// The sequence without its trailing blanks.
pub open spec fn spec_trim_back(s: Seq<u8>) -> Seq<u8>
    decreases s.len(),
{
    if s.len() > 0 && spec_blank(s.last()) {
        spec_trim_back(s.drop_last())
    } else {
        s
    }
}

/// The sequence without leading or trailing blanks.
pub open spec fn spec_trim(s: Seq<u8>) -> Seq<u8> {
    spec_trim_back(spec_trim_front(s))
}

/// The line names the header and carries the value: up to its first colon
/// it spells `name` (ASCII case ignored), and past the colon, blanks
/// stripped, it spells `value` — with ASCII case ignored exactly when
/// `ci_value` says so.
pub open spec fn spec_line_matches(
    line: Seq<u8>,
    name: Seq<u8>,
    value: Seq<u8>,
    ci_value: bool,
) -> bool {
    exists|c: int|
        {
            &&& 0 <= c < line.len()
            &&& #[trigger] line[c] == 58
            &&& forall|j: int| 0 <= j < c ==> line[j] != 58
            &&& lower_seq(line.take(c)) == lower_seq(name)
            &&& if ci_value {
                lower_seq(spec_trim(line.skip(c + 1))) == lower_seq(value)
            } else {
                spec_trim(line.skip(c + 1)) == value
            }
        }
}

/// Some header line after the status line matches.
pub open spec fn spec_has_header(
    lines: Seq<Seq<u8>>,
    name: Seq<u8>,
    value: Seq<u8>,
    ci_value: bool,
) -> bool {
    exists|i: int| 1 <= i < lines.len() && spec_line_matches(#[trigger] lines[i], name, value, ci_value)
}

/// The status line announces the switch of protocols.
pub open spec fn spec_status_ok(line: Seq<u8>) -> bool {
    line.len() >= 12 && line.take(12) == encode_utf8("HTTP/1.1 101"@)
}

/// What a whole response head is rejected or accepted with, for the given
/// client key: the status line first, then the two upgrade headers, then
/// the accept value.
pub open spec fn spec_response_result(head: Seq<u8>, key: Seq<u8>) -> Result<(), HandshakeError> {
    let lines = spec_lines_of(head);
    if !(lines.len() > 0 && spec_status_ok(lines[0])) {
        Err(HandshakeError::BadStatus)
    } else if !(spec_has_header(lines, encode_utf8("upgrade"@), encode_utf8("websocket"@), true)
        && spec_has_header(lines, encode_utf8("connection"@), encode_utf8("upgrade"@), true)) {
        Err(HandshakeError::MissingUpgradeHeader)
    } else if !spec_has_header(
        lines,
        encode_utf8("sec-websocket-accept"@),
        spec_accept_for(key),
        false,
    ) {
        Err(HandshakeError::BadAcceptKey)
    } else {
        Ok(())
    }
}

/// A copy of `v[a..b]`.
fn subvec(v: &Vec<u8>, a: usize, b: usize) -> (r: Vec<u8>)
    requires
        a <= b <= v@.len(),
    ensures
        r@ == v@.subrange(a as int, b as int),
{
    let mut r: Vec<u8> = Vec::new();
    let mut i: usize = a;
    while i < b
        invariant
            a <= i <= b <= v@.len(),
            r@ =~= v@.subrange(a as int, i as int),
        decreases b - i,
    {
        r.push(v[i]);
        i = i + 1;
    }
    proof {
        assert(r@ =~= v@.subrange(a as int, b as int));
    }
    r
}

/// True exactly when the two byte strings agree up to ASCII case.
fn lower_eq(a: &Vec<u8>, b: &Vec<u8>) -> (r: bool)
    ensures
        r == (lower_seq(a@) == lower_seq(b@)),
{
    if a.len() != b.len() {
        assert(lower_seq(a@).len() != lower_seq(b@).len());
        return false;
    }
    let n = a.len();
    let mut i: usize = 0;
    while i < n
        invariant
            i <= n,
            n == a@.len() == b@.len(),
            forall|j: int| 0 <= j < i ==> lower_seq(a@)[j] == lower_seq(b@)[j],
        decreases n - i,
    {
        let x = a[i];
        let y = b[i];
        let xl = if 65 <= x && x <= 90 {
            x + 32
        } else {
            x
        };
        let yl = if 65 <= y && y <= 90 {
            y + 32
        } else {
            y
        };
        if xl != yl {
            assert(lower_seq(a@)[i as int] != lower_seq(b@)[i as int]);
            return false;
        }
        i = i + 1;
    }
    proof {
        assert(lower_seq(a@) =~= lower_seq(b@));
    }
    true
}

/// True exactly when the two byte strings are equal.
fn bytes_eq(a: &Vec<u8>, b: &Vec<u8>) -> (r: bool)
    ensures
        r == (a@ == b@),
{
    if a.len() != b.len() {
        return false;
    }
    let n = a.len();
    let mut i: usize = 0;
    while i < n
        invariant
            i <= n,
            n == a@.len() == b@.len(),
            forall|j: int| 0 <= j < i ==> a@[j] == b@[j],
        decreases n - i,
    {
        if a[i] != b[i] {
            return false;
        }
        i = i + 1;
    }
    proof {
        assert(a@ =~= b@);
    }
    true
}

/// Splits a head into its lines, at every CRLF.
fn split_lines(head: &Vec<u8>) -> (r: Vec<Vec<u8>>)
    ensures
        spec_lines_view(r@) == spec_lines_of(head@),
{
    let mut lines: Vec<Vec<u8>> = Vec::new();
    let mut start: usize = 0;
    let mut i: usize = 0;
    let n = head.len();
    proof {
        assert(head@.skip(0) =~= head@);
        assert(spec_lines_view(lines@) + spec_lines_of(head@) =~= spec_lines_of(head@));
    }
    loop
        invariant
            start <= i <= n,
            n == head@.len(),
            spec_lines_of(head@) == spec_lines_view(lines@) + spec_lines_of(
                head@.skip(start as int),
            ),
            forall|j: int| start <= j < i ==> !crlf_at(head@, j),
        decreases n - i,
    {
        if n - i < 2 {
            proof {
                let tail = head@.skip(start as int);
                assert(forall|j: int| crlf_at(tail, j) ==> crlf_at(head@, j + start));
                assert(forall|j: int| !crlf_at(tail, j));
                lemma_first_crlf_none(tail);
            }
            if start < n {
                let last = subvec(head, start, n);
                proof {
                    assert(last@ =~= head@.skip(start as int));
                }
                lines.push(last);
                proof {
                    assert(spec_lines_view(lines@) =~= spec_lines_of(head@));
                }
            } else {
                proof {
                    assert(head@.skip(start as int).len() == 0);
                    assert(spec_lines_view(lines@) =~= spec_lines_of(head@));
                }
            }
            return lines;
        }
        if head[i] == 13 && head[i + 1] == 10 {
            let line = subvec(head, start, i);
            proof {
                let tail = head@.skip(start as int);
                assert(crlf_at(tail, i - start));
                assert(forall|j: int|
                    0 <= j < i - start ==> crlf_at(tail, j) ==> crlf_at(head@, j + start));
                lemma_first_crlf_at(tail, i - start);
                assert(tail.take(i - start) =~= head@.subrange(start as int, i as int));
                assert(tail.skip(i - start + 2) =~= head@.skip(i + 2));
                assert(spec_lines_of(tail) == seq![line@] + spec_lines_of(head@.skip(i + 2)));
            }
            lines.push(line);
            proof {
                assert(spec_lines_view(lines@) =~= spec_lines_view(lines@.drop_last()) + seq![
                    lines@.last()@,
                ]);
                assert(spec_lines_of(head@) == spec_lines_view(lines@) + spec_lines_of(
                    head@.skip(i + 2),
                ));
            }
            i = i + 2;
            start = i;
        } else {
            i = i + 1;
        }
    }
}

/// True exactly when the line names the header and carries the value, the
/// name always compared without case, the value as `ci_value` says.
fn line_matches(line: &Vec<u8>, name: &Vec<u8>, value: &Vec<u8>, ci_value: bool) -> (r: bool)
    ensures
        r == spec_line_matches(line@, name@, value@, ci_value),
{
    let n = line.len();
    let mut c: usize = 0;
    while c < n && line[c] != 58
        invariant
            c <= n,
            n == line@.len(),
            forall|j: int| 0 <= j < c ==> line@[j] != 58,
        decreases n - c,
    {
        c = c + 1;
    }
    if c == n {
        // No colon: no witness can exist.
        assert(!spec_line_matches(line@, name@, value@, ci_value));
        return false;
    }
    assert(line@[c as int] == 58);
    // Any witness must be this first colon.
    assert(forall|c2: int|
        (0 <= c2 < line@.len() && line@[c2] == 58 && (forall|j: int|
            0 <= j < c2 ==> line@[j] != 58)) ==> c2 == c) by {
        assert forall|c2: int|
            (0 <= c2 < line@.len() && line@[c2] == 58 && (forall|j: int|
                0 <= j < c2 ==> line@[j] != 58)) implies c2 == c by {
            if c2 < c {
                assert(line@[c2] != 58);
            }
            if c < c2 {
                assert(line@[c as int] != 58);
            }
        }
    }
    let head_part = subvec(line, 0, c);
    proof {
        assert(head_part@ =~= line@.take(c as int));
    }
    if !lower_eq(&head_part, name) {
        return false;
    }
    // Trim the value region in place: first the front, then the back.
    let mut lo: usize = c + 1;
    while lo < n && (line[lo] == 32 || line[lo] == 9)
        invariant
            c + 1 <= lo <= n,
            n == line@.len(),
            spec_trim_front(line@.skip(c + 1)) == spec_trim_front(line@.skip(lo as int)),
        decreases n - lo,
    {
        proof {
            assert(line@.skip(lo as int).skip(1) =~= line@.skip(lo + 1));
        }
        lo = lo + 1;
    }
    proof {
        assert(spec_trim_front(line@.skip(lo as int)) == line@.skip(lo as int));
    }
    let mut hi: usize = n;
    while hi > lo && (line[hi - 1] == 32 || line[hi - 1] == 9)
        invariant
            lo <= hi <= n,
            n == line@.len(),
            spec_trim_back(line@.skip(lo as int)) == spec_trim_back(
                line@.subrange(lo as int, hi as int),
            ),
        decreases hi,
    {
        proof {
            assert(line@.subrange(lo as int, hi as int).drop_last() =~= line@.subrange(
                lo as int,
                hi - 1,
            ));
        }
        hi = hi - 1;
    }
    proof {
        assert(line@.skip(lo as int) =~= line@.subrange(lo as int, n as int));
        if hi > lo {
            assert(spec_trim_back(line@.subrange(lo as int, hi as int)) == line@.subrange(
                lo as int,
                hi as int,
            ));
        } else {
            assert(line@.subrange(lo as int, hi as int).len() == 0);
            assert(spec_trim_back(line@.subrange(lo as int, hi as int)) =~= line@.subrange(
                lo as int,
                hi as int,
            ));
        }
        assert(spec_trim(line@.skip(c + 1)) == line@.subrange(lo as int, hi as int));
    }
    let trimmed = subvec(line, lo, hi);
    let value_ok = if ci_value {
        lower_eq(&trimmed, value)
    } else {
        bytes_eq(&trimmed, value)
    };
    if value_ok {
        assert(spec_line_matches(line@, name@, value@, ci_value)) by {
            let cc = c as int;
            assert(0 <= cc < line@.len() && line@[cc] == 58 && (forall|j: int|
                0 <= j < cc ==> line@[j] != 58) && lower_seq(line@.take(cc)) == lower_seq(name@)
                && (if ci_value {
                lower_seq(spec_trim(line@.skip(cc + 1))) == lower_seq(value@)
            } else {
                spec_trim(line@.skip(cc + 1)) == value@
            }));
        }
        true
    } else {
        assert(!spec_line_matches(line@, name@, value@, ci_value));
        false
    }
}

/// True exactly when some header line after the status line matches.
fn has_header(lines: &Vec<Vec<u8>>, name: &Vec<u8>, value: &Vec<u8>, ci_value: bool) -> (r: bool)
    ensures
        r == spec_has_header(spec_lines_view(lines@), name@, value@, ci_value),
{
    let n = lines.len();
    let mut i: usize = 1;
    while i < n
        invariant
            1 <= i <= n || n < 1,
            n == lines@.len(),
            forall|j: int|
                1 <= j < i ==> !spec_line_matches(
                    #[trigger] spec_lines_view(lines@)[j],
                    name@,
                    value@,
                    ci_value,
                ),
        decreases n - i,
    {
        if line_matches(&lines[i], name, value, ci_value) {
            assert(spec_lines_view(lines@)[i as int] == lines@[i as int]@);
            return true;
        }
        i = i + 1;
    }
    false
}

/// Validates an Upgrade response head against the key this client sent.
///
/// `Ok(None)` means the buffer does not yet hold the whole head: the blank
/// line has not arrived. `Ok(Some(n))` says the first `n` bytes are a valid
/// switching response — the caller hands exactly the bytes past `n` to the
/// message codec, preserving any frame data read early. The errors say what
/// the head was rejected for.
pub fn decode_response(src: &Vec<u8>, key: &Vec<u8>) -> (r: Result<Option<usize>, HandshakeError>)
    ensures
        match r {
            Ok(None) => spec_first_terminator(src@) is None,
            Ok(Some(n)) => 4 <= n <= src@.len() && spec_first_terminator(src@) == Some(n - 4)
                && spec_response_result(src@.take(n as int), key@) == Ok::<(), HandshakeError>(()),
            Err(e) => (spec_first_terminator(src@) matches Some(t) && spec_response_result(
                src@.take(t + 4),
                key@,
            ) == Err::<(), HandshakeError>(e)),
        },
{
    let n = src.len();
    let mut t: usize = 0;
    let mut found = false;
    while !found
        invariant
            t <= n,
            n == src@.len(),
            forall|j: int| 0 <= j < t ==> !terminator_at(src@, j),
            found ==> t + 4 <= n && spec_first_terminator(src@) == Some(t as int),
        decreases n - t + (if found {
            0int
        } else {
            1int
        }),
    {
        if n - t < 4 {
            proof {
                assert(forall|j: int| j >= t ==> !terminator_at(src@, j));
                lemma_first_terminator_none(src@);
            }
            return Ok(None);
        }
        if src[t] == 13 && src[t + 1] == 10 && src[t + 2] == 13 && src[t + 3] == 10 {
            proof {
                lemma_first_terminator_at(src@, t as int);
            }
            found = true;
        } else {
            t = t + 1;
        }
    }
    let consumed = t + 4;
    let head = subvec(src, 0, consumed);
    proof {
        assert(head@ =~= src@.take(consumed as int));
    }
    let lines = split_lines(&head);
    let status = "HTTP/1.1 101".as_bytes_vec();
    let status_ok = if lines.len() > 0 && lines[0].len() >= 12 {
        let prefix = subvec(&lines[0], 0, 12);
        proof {
            assert(prefix@ =~= spec_lines_view(lines@)[0].take(12));
        }
        bytes_eq(&prefix, &status)
    } else {
        false
    };
    if !status_ok {
        return Err(HandshakeError::BadStatus);
    }
    let upgrade_name = "upgrade".as_bytes_vec();
    let upgrade_value = "websocket".as_bytes_vec();
    let connection_name = "connection".as_bytes_vec();
    let connection_value = "upgrade".as_bytes_vec();
    if !has_header(&lines, &upgrade_name, &upgrade_value, true) || !has_header(
        &lines,
        &connection_name,
        &connection_value,
        true,
    ) {
        return Err(HandshakeError::MissingUpgradeHeader);
    }
    let accept_name = "sec-websocket-accept".as_bytes_vec();
    let accept_value = expected_accept(key);
    if !has_header(&lines, &accept_name, &accept_value, false) {
        return Err(HandshakeError::BadAcceptKey);
    }
    Ok(Some(consumed))
}

} // verus!
