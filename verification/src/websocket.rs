//! The live-view server's protocol: request routing, the WebSocket opening
//! handshake (RFC 6455) and text frames.
use vstd::prelude::*;
use vstd::string::StringSliceAdditionalSpecFns;
use vstd::utf8::{decode_utf8, encode_utf8, is_char_boundary};
use crate::http::{has_text_prefix, is_whitespace_char, leading_ws, lossy_text, push_range, skip_whitespace, starts_with_text, trim_start, utf8_lossy};
use crate::sha1::{be_bytes, sha1, sha1_digest};
use crate::textfmt::{chars_of, push_char, push_decimal, dec_text};

verus! {

/// The GUID that RFC 6455 appends to the client's key.
pub const WEBSOCKET_GUID: &'static str = "258EAFA5-E914-47DA-95CA-C5AB0DC85B11";

/// The base64 digit for a 6-bit value.
pub open spec fn b64_char(v: int) -> char {
    if v < 26 {
        (65 + v) as char
    } else if v < 52 {
        (71 + v) as char
    } else if v < 62 {
        (v - 4) as char
    } else if v == 62 {
        '+'
    } else {
        '/'
    }
}

/// The four characters that encode a group of up to three bytes, padded with `=`.
pub open spec fn b64_group(c: Seq<u8>) -> Seq<char> {
    if c.len() >= 3 {
        seq![b64_char((c[0] / 4) as int), b64_char((c[0] % 4) * 16 + c[1] / 16), b64_char((c[1] % 16) * 4 + c[2] / 64), b64_char((c[2] % 64) as int)]
    } else if c.len() == 2 {
        seq![b64_char((c[0] / 4) as int), b64_char((c[0] % 4) * 16 + c[1] / 16), b64_char((c[1] % 16) * 4), '=']
    } else if c.len() == 1 {
        seq![b64_char((c[0] / 4) as int), b64_char((c[0] % 4) * 16), '=', '=']
    } else {
        Seq::empty()
    }
}

/// Standard base64 (RFC 4648, with padding) of `d`.
pub open spec fn base64_text(d: Seq<u8>) -> Seq<char>
    decreases d.len(),
{
    if d.len() == 0 {
        Seq::empty()
    } else {
        let n = if d.len() < 3 { d.len() as int } else { 3 };
        b64_group(d.take(n)) + base64_text(d.skip(n))
    }
}

/// The 6-bit value of a digit of the RFC 4648 base64 alphabet: `A`–`Z` are
/// 0–25, `a`–`z` 26–51, `0`–`9` 52–61, `+` 62 and `/` 63.
pub open spec fn b64_value(c: char) -> int {
    let u = c as u32 as int;
    if 65 <= u <= 90 {
        u - 65
    } else if 97 <= u <= 122 {
        u - 71
    } else if 48 <= u <= 57 {
        u + 4
    } else if c == '+' {
        62
    } else if c == '/' {
        63
    } else {
        0
    }
}

/// The bytes a group of four base64 characters stands for: one, two or three,
/// as `=` pads it.
pub open spec fn b64_quad_bytes(q: Seq<char>) -> Seq<u8> {
    let v0 = b64_value(q[0]);
    let v1 = b64_value(q[1]);
    let v2 = b64_value(q[2]);
    let v3 = b64_value(q[3]);
    let x0 = (v0 * 4 + v1 / 16) as u8;
    let x1 = ((v1 % 16) * 16 + v2 / 4) as u8;
    let x2 = ((v2 % 4) * 64 + v3) as u8;
    if q[2] == '=' {
        seq![x0]
    } else if q[3] == '=' {
        seq![x0, x1]
    } else {
        seq![x0, x1, x2]
    }
}

/// Decodes padded base64 text, four characters at a time.
pub open spec fn base64_decoded(t: Seq<char>) -> Seq<u8>
    decreases t.len(),
{
    if t.len() < 4 {
        Seq::empty()
    } else {
        b64_quad_bytes(t.take(4)) + base64_decoded(t.skip(4))
    }
}

proof fn lemma_b64_digit_value(v: int)
    requires
        0 <= v < 64,
    ensures
        b64_value(b64_char(v)) == v,
        b64_char(v) != '=',
{
    let c = b64_char(v);
    if v < 26 {
        assert(c as u32 as int == 65 + v);
    } else if v < 52 {
        assert(c as u32 as int == 71 + v);
    } else if v < 62 {
        assert(c as u32 as int == v - 4);
    }
}

proof fn lemma_b64_group_decodes(c: Seq<u8>)
    requires
        1 <= c.len() <= 3,
    ensures
        b64_group(c).len() == 4,
        b64_quad_bytes(b64_group(c)) == c,
{
    let c0 = c[0] as int;
    let g = b64_group(c);
    lemma_b64_digit_value(c0 / 4);
    if c.len() == 1 {
        lemma_b64_digit_value((c0 % 4) * 16);
        assert((c0 / 4) * 4 + ((c0 % 4) * 16) / 16 == c0) by (nonlinear_arith)
            requires 0 <= c0 < 256;
        assert(b64_quad_bytes(g) =~= c);
    } else {
        let c1 = c[1] as int;
        let v1 = (c0 % 4) * 16 + c1 / 16;
        lemma_b64_digit_value(v1);
        assert((c0 / 4) * 4 + v1 / 16 == c0) by (nonlinear_arith)
            requires 0 <= c0 < 256, 0 <= c1 < 256, v1 == (c0 % 4) * 16 + c1 / 16;
        if c.len() == 2 {
            lemma_b64_digit_value((c1 % 16) * 4);
            assert((v1 % 16) * 16 + ((c1 % 16) * 4) / 4 == c1) by (nonlinear_arith)
                requires 0 <= c0 < 256, 0 <= c1 < 256, v1 == (c0 % 4) * 16 + c1 / 16;
            assert(b64_quad_bytes(g) =~= c);
        } else {
            let c2 = c[2] as int;
            let v2 = (c1 % 16) * 4 + c2 / 64;
            lemma_b64_digit_value(v2);
            lemma_b64_digit_value(c2 % 64);
            assert((v1 % 16) * 16 + v2 / 4 == c1) by (nonlinear_arith)
                requires 0 <= c0 < 256, 0 <= c1 < 256, 0 <= c2 < 256, v1 == (c0 % 4) * 16 + c1 / 16,
                    v2 == (c1 % 16) * 4 + c2 / 64;
            assert((v2 % 4) * 64 + c2 % 64 == c2) by (nonlinear_arith)
                requires 0 <= c1 < 256, 0 <= c2 < 256, v2 == (c1 % 16) * 4 + c2 / 64;
            assert(b64_quad_bytes(g) =~= c);
        }
    }
}

/// Base64 loses nothing: decoding the encoding of any bytes with the RFC 4648
/// alphabet (`A`–`Z`, `a`–`z`, `0`–`9`, `+`, `/`, padded with `=`) gives the
/// bytes back.
pub proof fn lemma_base64_round_trip(d: Seq<u8>)
    ensures
        base64_decoded(base64_text(d)) == d,
    decreases d.len(),
{
    if d.len() > 0 {
        let n = if d.len() < 3 { d.len() as int } else { 3 };
        let g = b64_group(d.take(n));
        let rest = base64_text(d.skip(n));
        lemma_b64_group_decodes(d.take(n));
        lemma_base64_round_trip(d.skip(n));
        let t = g + rest;
        assert(t.take(4) =~= g);
        assert(t.skip(4) =~= rest);
        assert(d =~= d.take(n) + d.skip(n));
    }
}

fn b64_digit(v: u8) -> (c: char)
    requires
        v < 64,
    ensures
        c == b64_char(v as int),
{
    if v < 26 {
        (65 + v) as char
    } else if v < 52 {
        (71 + v) as char
    } else if v < 62 {
        (v - 4) as char
    } else if v == 62 {
        '+'
    } else {
        '/'
    }
}

/// Encodes `data` in standard base64 with padding.
pub fn base64_encode(data: &[u8]) -> (out: String)
    ensures
        out@ == base64_text(data@),
{
    let mut out = String::new();
    let mut i: usize = 0;
    assert(data@.skip(0) =~= data@);
    while i < data.len()
        invariant
            i <= data@.len(),
            out@ + base64_text(data@.skip(i as int)) == base64_text(data@),
        decreases data@.len() - i,
    {
        let ghost rest = data@.skip(i as int);
        let left = data.len() - i;
        let c0 = data[i];
        if left >= 3 {
            let c1 = data[i + 1];
            let c2 = data[i + 2];
            push_char(&mut out, b64_digit(c0 / 4));
            push_char(&mut out, b64_digit((c0 % 4) * 16 + c1 / 16));
            push_char(&mut out, b64_digit((c1 % 16) * 4 + c2 / 64));
            push_char(&mut out, b64_digit(c2 % 64));
            assert(rest.skip(3) =~= data@.skip(i + 3));
            i = i + 3;
        } else if left == 2 {
            let c1 = data[i + 1];
            push_char(&mut out, b64_digit(c0 / 4));
            push_char(&mut out, b64_digit((c0 % 4) * 16 + c1 / 16));
            push_char(&mut out, b64_digit((c1 % 16) * 4));
            push_char(&mut out, '=');
            assert(rest.skip(2) =~= data@.skip(i + 2));
            i = i + 2;
        } else {
            push_char(&mut out, b64_digit(c0 / 4));
            push_char(&mut out, b64_digit((c0 % 4) * 16));
            push_char(&mut out, '=');
            push_char(&mut out, '=');
            assert(rest.skip(1) =~= data@.skip(i + 1));
            i = i + 1;
        }
        assert(out@ + base64_text(data@.skip(i as int)) =~= base64_text(data@));
    }
    assert(data@.skip(i as int) =~= Seq::<u8>::empty());
    out
}

/// The length field of a server frame carrying `n` payload bytes: the length
/// itself up to 125, else 126 and 16 bits, else 127 and 64 bits.
pub open spec fn ws_length_field(n: nat) -> Seq<u8> {
    if n <= 125 {
        seq![n as u8]
    } else if n <= 65535 {
        seq![126u8] + be_bytes(n, 2)
    } else {
        seq![127u8] + be_bytes(n, 8)
    }
}

/// An unmasked, final WebSocket text frame carrying `payload`.
pub open spec fn ws_text_frame(payload: Seq<u8>) -> Seq<u8> {
    seq![0x81u8] + ws_length_field(payload.len()) + payload
}

fn push_be_bytes(v: &mut Vec<u8>, n: u64, k: usize)
    requires
        k <= 8,
    ensures
        final(v)@ == old(v)@ + be_bytes(n as nat, k as nat),
    decreases k,
{
    if k > 0 {
        push_be_bytes(v, n / 256, k - 1);
        v.push((n % 256) as u8);
        assert(final(v)@ =~= old(v)@ + be_bytes(n as nat, k as nat));
    }
}

/// Frames `payload` as a single WebSocket text frame (FIN set, opcode 1).
pub fn encode_ws_text_frame(payload: &str) -> (frame: Vec<u8>)
    ensures
        frame@ == ws_text_frame(payload.spec_bytes()),
{
    let bytes = payload.as_bytes();
    let mut frame: Vec<u8> = Vec::new();
    frame.push(0x81);
    let len = bytes.len();
    if len <= 125 {
        frame.push(len as u8);
    } else if len <= 65535 {
        frame.push(126);
        push_be_bytes(&mut frame, len as u64, 2);
    } else {
        frame.push(127);
        push_be_bytes(&mut frame, len as u64, 8);
    }
    let ghost head = frame@;
    let mut i: usize = 0;
    while i < len
        invariant
            i <= len == bytes@.len(),
            frame@ == head + bytes@.take(i as int),
        decreases len - i,
    {
        frame.push(bytes[i]);
        i = i + 1;
        assert(frame@ =~= head + bytes@.take(i as int));
    }
    assert(bytes@.take(len as int) =~= bytes@);
    assert(frame@ =~= ws_text_frame(payload.spec_bytes()));
    frame
}

/// The `Sec-WebSocket-Accept` value for a client key: base64 of the SHA-1 of
/// the key followed by the protocol GUID.
pub open spec fn websocket_accept_text(key: Seq<char>) -> Seq<char> {
    base64_text(sha1_digest(encode_utf8(key + WEBSOCKET_GUID@)))
}

/// Encoding a concatenation concatenates the encodings.
pub proof fn lemma_encode_utf8_concat(a: Seq<char>, b: Seq<char>)
    ensures
        encode_utf8(a + b) == encode_utf8(a) + encode_utf8(b),
    decreases a.len(),
{
    if a.len() == 0 {
        assert(a + b =~= b);
    } else {
        assert((a + b).drop_first() =~= a.drop_first() + b);
        lemma_encode_utf8_concat(a.drop_first(), b);
    }
}

/// No character takes more than four bytes.
pub proof fn lemma_encode_utf8_len_bound(a: Seq<char>)
    ensures
        encode_utf8(a).len() <= 4 * a.len(),
    decreases a.len(),
{
    if a.len() > 0 {
        lemma_encode_utf8_len_bound(a.drop_first());
    }
}

/// Computes the handshake accept key for `key`.
pub fn websocket_accept(key: &str) -> (accept: String)
    requires
        key.spec_bytes().len() <= 0x1000_0000_0000_0000,
    ensures
        accept@ == websocket_accept_text(key@),
{
    let mut concat = String::from_str(key);
    concat.append(WEBSOCKET_GUID);
    let bytes = concat.as_str().as_bytes();
    proof {
        let g = WEBSOCKET_GUID;
        reveal_strlit("258EAFA5-E914-47DA-95CA-C5AB0DC85B11");
        assert(g@.len() == 36);
        lemma_encode_utf8_concat(key@, g@);
        lemma_encode_utf8_len_bound(g@);
    }
    let hashed = sha1(bytes);
    base64_encode(hashed.as_slice())
}

/// Where a request is routed.
#[derive(Debug, Clone, Copy, PartialEq, Eq, Structural)]
pub enum Route {
    /// `GET /` or `GET /index.html`: the dashboard page.
    Index,
    /// `GET /ws`: the WebSocket feed.
    Upgrade,
    /// Anything else.
    NotFound,
}

/// The route of a request whose text is `req`.
pub open spec fn route_of(req: Seq<char>) -> Route {
    if has_text_prefix(req, "GET / "@) || has_text_prefix(req, "GET /index.html "@) {
        Route::Index
    } else if has_text_prefix(req, "GET /ws "@) {
        Route::Upgrade
    } else {
        Route::NotFound
    }
}

/// Routes the request in `text` by its request line.
pub fn route_of_text(text: &str) -> (r: Route)
    ensures
        r == route_of(text@),
{
    let v = chars_of(text);
    assert(v@.skip(0) =~= v@);
    if starts_with_text(&v, 0, "GET / ") || starts_with_text(&v, 0, "GET /index.html ") {
        Route::Index
    } else if starts_with_text(&v, 0, "GET /ws ") {
        Route::Upgrade
    } else {
        Route::NotFound
    }
}

/// The text lower-cased by `str::to_lowercase`.
pub uninterp spec fn lowercase(s: Seq<char>) -> Seq<char>;

/// Lower-cases `s`.
///
/// Calls `str::to_lowercase`, whose result (Unicode lower-case mapping) is
/// left to the name `lowercase`.
#[verifier::external_body]
pub(crate) fn to_lowercase(s: &str) -> (r: String)
    ensures
        r@ == lowercase(s@),
{
    s.to_lowercase()
}

/// The end of the line that starts at `start`: the next line feed, or the end of the text.
pub open spec fn line_end(s: Seq<char>, start: int) -> int
    decreases s.len() - start,
{
    if start < 0 || start >= s.len() || s[start] == '\n' {
        start
    } else {
        line_end(s, start + 1)
    }
}

/// A line ends at or after its start, and within the text.
pub proof fn lemma_line_end_bounds(s: Seq<char>, start: int)
    requires
        0 <= start <= s.len(),
    ensures
        start <= line_end(s, start) <= s.len(),
    decreases s.len() - start,
{
    if start < s.len() && s[start] != '\n' {
        lemma_line_end_bounds(s, start + 1);
    }
}

/// The line that starts at `start`, as `str::lines` yields it: without its
/// line feed, and without a carriage return just before that line feed.
pub open spec fn line_text(s: Seq<char>, start: int) -> Seq<char> {
    let e = line_end(s, start);
    if e < s.len() && e > start && s[e - 1] == '\r' {
        s.subrange(start, e - 1)
    } else {
        s.subrange(start, e)
    }
}

/// The first line from `start` on whose lower-cased text starts with the key header name.
pub open spec fn key_line(s: Seq<char>, start: int) -> Option<Seq<char>>
    decreases s.len() - start,
{
    if start < 0 || start >= s.len() {
        None
    } else if has_text_prefix(lowercase(line_text(s, start)), "sec-websocket-key:"@) {
        Some(line_text(s, start))
    } else if line_end(s, start) >= s.len() {
        None
    } else {
        proof {
            lemma_line_end_bounds(s, start);
        }
        key_line(s, line_end(s, start) + 1)
    }
}

/// How many white-space characters `s` ends with.
pub open spec fn trailing_ws(s: Seq<char>) -> nat
    decreases s.len(),
{
    if s.len() > 0 && is_whitespace_char(s.last()) {
        1 + trailing_ws(s.drop_last())
    } else {
        0
    }
}

/// `s` without leading and trailing white space (`str::trim`).
pub open spec fn trimmed(s: Seq<char>) -> Seq<char> {
    let t = trim_start(s);
    t.take(t.len() - trailing_ws(t))
}

/// Whether the key line (if any) can be cut after its first 18 bytes, where the header name ends
/// (the line is that long and no character straddles that point).
pub open spec fn key_line_cuttable(s: Seq<char>) -> bool {
    match key_line(s, 0) {
        Some(l) => is_char_boundary(encode_utf8(l), "sec-websocket-key:"@.len() as int),
        None => true,
    }
}

/// The client's key: what follows the header name on the key line, trimmed.
pub open spec fn header_key(s: Seq<char>) -> Option<Seq<char>> {
    match key_line(s, 0) {
        Some(l) => Some(trimmed(decode_utf8(encode_utf8(l).skip("sec-websocket-key:"@.len() as int)))),
        None => None,
    }
}

fn find_line_end(v: &Vec<char>, start: usize) -> (e: usize)
    requires
        start <= v@.len(),
    ensures
        e == line_end(v@, start as int),
        start <= e <= v@.len(),
{
    let mut i = start;
    while i < v.len() && v[i] != '\n'
        invariant
            start <= i <= v@.len(),
            line_end(v@, i as int) == line_end(v@, start as int),
        decreases v@.len() - i,
    {
        i = i + 1;
    }
    i
}

/// The key line of the request text `v`.
fn find_key_line(v: &Vec<char>) -> (r: Option<String>)
    ensures
        match key_line(v@, 0) {
            None => r is None,
            Some(l) => r matches Some(line) && line@ == l,
        },
{
    let mut start: usize = 0;
    let key_header = chars_of("sec-websocket-key:");
    while start < v.len()
        invariant
            start <= v@.len(),
            key_header@ == "sec-websocket-key:"@,
            key_line(v@, 0) == key_line(v@, start as int),
        decreases v@.len() - start,
    {
        let e = find_line_end(v, start);
        let stop = if e < v.len() && e > start && v[e - 1] == '\r' { e - 1 } else { e };
        let mut line = String::new();
        push_range(&mut line, v, start, stop);
        let lower = to_lowercase(line.as_str());
        let lower_chars = chars_of(lower.as_str());
        assert(lower_chars@.skip(0) =~= lower_chars@);
        if starts_with_text(&lower_chars, 0, "sec-websocket-key:") {
            return Some(line);
        }
        if e >= v.len() {
            return None;
        }
        start = e + 1;
    }
    None
}

/// `s` without leading and trailing white space.
fn trim(s: &str) -> (out: String)
    ensures
        out@ == trimmed(s@),
{
    let v = chars_of(s);
    let a = skip_whitespace(&v, 0);
    assert(v@.skip(0) =~= v@);
    let ghost t = v@.skip(a as int);
    let mut b = v.len();
    assert(t =~= v@.subrange(a as int, b as int));
    while b > a && crate::http::is_whitespace(v[b - 1])
        invariant
            a <= b <= v@.len(),
            t == v@.skip(a as int),
            trailing_ws(t) == trailing_ws(v@.subrange(a as int, b as int)) + (v@.len() - b),
        decreases b,
    {
        assert(v@.subrange(a as int, b as int).drop_last() =~= v@.subrange(a as int, b - 1));
        b = b - 1;
    }
    assert(t =~= v@.subrange(a as int, v@.len() as int));
    let mut out = String::new();
    push_range(&mut out, &v, a, b);
    assert(t.take(t.len() - trailing_ws(t)) =~= v@.subrange(a as int, b as int));
    out
}

/// The client's key of a request whose key line (if any) can be cut after the header name.
pub fn websocket_key(request: &str) -> (r: Option<String>)
    requires
        key_line_cuttable(request@),
    ensures
        match header_key(request@) {
            None => r is None,
            Some(k) => r matches Some(key) && key@ == k,
        },
{
    let v = chars_of(request);
    match find_key_line(&v) {
        None => None,
        Some(line) => {
            let ls = line.as_str();
            proof {
                reveal_strlit("sec-websocket-key:");
            }
            let (_, rest) = ls.split_at(18);
            proof {
                vstd::utf8::encode_utf8_decode_utf8(rest@);
            }
            Some(trim(rest))
        },
    }
}

/// The client's key of a request, when its key line can be cut after the
/// header name: `None` when it cannot (the analyzer's server gives up on such
/// a connection), else the key, if any.
pub fn checked_websocket_key(request: &str) -> (r: Option<Option<String>>)
    ensures
        r is None <==> !key_line_cuttable(request@),
        r matches Some(k) ==> match header_key(request@) {
            None => k is None,
            Some(hk) => k matches Some(key) && key@ == hk,
        },
{
    let v = chars_of(request);
    match find_key_line(&v) {
        None => Some(None),
        Some(line) => {
            proof {
                reveal_strlit("sec-websocket-key:");
            }
            let ls = line.as_str();
            assert("sec-websocket-key:"@.len() == 18);
            assert(ls.spec_bytes() == encode_utf8(line@));
            if ls.is_char_boundary(18) {
                Some(websocket_key(request))
            } else {
                None
            }
        },
    }
}

/// The dashboard page as an HTTP response.
pub open spec fn index_response_text(html: Seq<char>) -> Seq<char> {
    "HTTP/1.1 200 OK\r\nContent-Type: text/html\r\nContent-Length: "@ + dec_text(encode_utf8(html).len())
        + "\r\nConnection: close\r\n\r\n"@ + html
}

/// The response that completes the WebSocket handshake.
pub open spec fn handshake_response_text(accept: Seq<char>) -> Seq<char> {
    "HTTP/1.1 101 Switching Protocols\r\nUpgrade: websocket\r\nConnection: Upgrade\r\nSec-WebSocket-Accept: "@
        + accept + "\r\n\r\n"@
}

/// The first message sent to a new live-view client.
pub open spec fn system_info_text(interface: Seq<char>) -> Seq<char> {
    "{\"type\":\"system\",\"interface\":\""@ + interface + "\"}"@
}

/// The answer to a request without a key.
pub open spec fn bad_request_text() -> Seq<char> {
    "HTTP/1.1 400 Bad Request\r\nContent-Length: 0\r\nConnection: close\r\n\r\n"@
}

/// The answer to any other path.
pub open spec fn not_found_text() -> Seq<char> {
    "HTTP/1.1 404 Not Found\r\nContent-Length: 0\r\nConnection: close\r\n\r\n"@
}

/// The dashboard page as an HTTP response.
pub fn index_response(html: &str) -> (r: String)
    ensures
        r@ == index_response_text(html@),
{
    let mut r = String::from_str("HTTP/1.1 200 OK\r\nContent-Type: text/html\r\nContent-Length: ");
    push_decimal(&mut r, html.as_bytes().len() as u64);
    r.append("\r\nConnection: close\r\n\r\n");
    r.append(html);
    r
}

/// The response that completes the WebSocket handshake with `accept`.
pub fn handshake_response(accept: &str) -> (r: String)
    ensures
        r@ == handshake_response_text(accept@),
{
    let mut r = String::from_str("HTTP/1.1 101 Switching Protocols\r\nUpgrade: websocket\r\nConnection: Upgrade\r\nSec-WebSocket-Accept: ");
    r.append(accept);
    r.append("\r\n\r\n");
    r
}

/// The first message sent to a new live-view client.
pub fn system_info(interface: &str) -> (r: String)
    ensures
        r@ == system_info_text(interface@),
{
    let mut r = String::from_str("{\"type\":\"system\",\"interface\":\"");
    r.append(interface);
    r.append("\"}");
    r
}

/// What the server does with a connection.
pub enum Reply {
    /// Write this response and close.
    Close(String),
    /// Write this handshake response, then this frame, and keep the connection for the feed.
    Upgrade(String, Vec<u8>),
}

/// The server's answer to the request text `req`: whether it upgrades, the
/// response, and the first frame. `None` where it gives up on the connection:
/// a key line that cannot be cut after the header name, or a key too long to hash.
pub open spec fn reply_for(req: Seq<char>, html: Seq<char>, interface: Seq<char>) -> Option<(bool, Seq<char>, Seq<u8>)> {
    match route_of(req) {
        Route::Index => Some((false, index_response_text(html), Seq::empty())),
        Route::NotFound => Some((false, not_found_text(), Seq::empty())),
        Route::Upgrade => if !key_line_cuttable(req) {
            None
        } else {
            match header_key(req) {
                None => Some((false, bad_request_text(), Seq::empty())),
                Some(key) => if encode_utf8(key).len() > MAX_KEY_BYTES {
                    None
                } else {
                    Some((
                    true,
                    handshake_response_text(websocket_accept_text(key)),
                    ws_text_frame(encode_utf8(system_info_text(interface))),
                ))
                },
            }
        },
    }
}

/// The longest key the handshake hashes.
pub const MAX_KEY_BYTES: u64 = 0x1000_0000_0000_0000;

/// Answers the text of a request read from a live-view connection: the
/// dashboard page, the WebSocket handshake with the first frame, 400 without a
/// key, 404 for anything else. `None` where the server gives up on the
/// connection: a key line that cannot be cut after the header name, or a key
/// longer than `MAX_KEY_BYTES`.
pub fn reply_to_text(text: &str, index_html: &str, interface: &str) -> (r: Option<Reply>)
    ensures
        match reply_for(text@, index_html@, interface@) {
            None => r is None,
            Some((upgrade, response, frame)) => match r {
                None => false,
                Some(Reply::Close(t)) => !upgrade && t@ == response,
                Some(Reply::Upgrade(t, f)) => upgrade && t@ == response && f@ == frame,
            },
        },
{
    match route_of_text(text) {
        Route::Index => Some(Reply::Close(index_response(index_html))),
        Route::NotFound => {
            let r = String::from_str("HTTP/1.1 404 Not Found\r\nContent-Length: 0\r\nConnection: close\r\n\r\n");
            Some(Reply::Close(r))
        },
        Route::Upgrade => match checked_websocket_key(text) {
            None => None,
            Some(None) => {
                let r = String::from_str("HTTP/1.1 400 Bad Request\r\nContent-Length: 0\r\nConnection: close\r\n\r\n");
                Some(Reply::Close(r))
            },
            Some(Some(key)) => {
                if key.as_str().as_bytes().len() as u64 > MAX_KEY_BYTES {
                    return None;
                }
                let accept = websocket_accept(key.as_str());
                let greeting = system_info(interface);
                Some(Reply::Upgrade(handshake_response(accept.as_str()), encode_ws_text_frame(greeting.as_str())))
            },
        },
    }
}

/// Answers a request read from a live-view connection (`raw`, decoded as
/// lossy UTF-8) as `reply_to_text` answers its text.
pub fn respond(raw: &[u8], index_html: &str, interface: &str) -> (r: Option<Reply>)
    ensures
        match reply_for(utf8_lossy(raw@), index_html@, interface@) {
            None => r is None,
            Some((upgrade, text, frame)) => match r {
                None => false,
                Some(Reply::Close(t)) => !upgrade && t@ == text,
                Some(Reply::Upgrade(t, f)) => upgrade && t@ == text && f@ == frame,
            },
        },
{
    let text = lossy_text(raw);
    reply_to_text(text.as_str(), index_html, interface)
}

} // verus!
