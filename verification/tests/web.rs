use netzer::sha1::sha1;
use netzer::websocket::{
    base64_encode, checked_websocket_key, encode_ws_text_frame, reply_to_text, respond, route_of_text, websocket_accept,
    websocket_key, Reply, Route,
};

fn hex(b: &[u8]) -> String {
    b.iter().map(|x| format!("{:02x}", x)).collect()
}

#[test]
fn sha1_known_digests() {
    assert_eq!(hex(&sha1(b"abc")), "a9993e364706816aba3e25717850c26c9cd0d89d");
    assert_eq!(hex(&sha1(b"")), "da39a3ee5e6b4b0d3255bfef95601890afd80709");
    assert_eq!(
        hex(&sha1(b"abcdbcdecdefdefgefghfghighijhijkijkljklmklmnlmnomnopnopq")),
        "84983e441c3bd26ebaae4aa1f95129e5e54670f1"
    );
}

#[test]
fn base64_padding() {
    assert_eq!(base64_encode(b""), "");
    assert_eq!(base64_encode(b"f"), "Zg==");
    assert_eq!(base64_encode(b"fo"), "Zm8=");
    assert_eq!(base64_encode(b"foobar"), "Zm9vYmFy");
}

#[test]
fn websocket_accept_matches_rfc_example() {
    assert_eq!(websocket_accept("dGhlIHNhbXBsZSBub25jZQ=="), "s3pPLMBiTxaQ9kYGzzhZRbK+xOo=");
}

#[test]
fn websocket_frames() {
    assert_eq!(encode_ws_text_frame("hi"), vec![0x81, 2, b'h', b'i']);
    let medium = "x".repeat(300);
    let f = encode_ws_text_frame(&medium);
    assert_eq!(&f[..4], &[0x81, 126, 0x01, 0x2c]);
    assert_eq!(f.len(), 304);
    let large = "y".repeat(70000);
    let f = encode_ws_text_frame(&large);
    assert_eq!(&f[..10], &[0x81, 127, 0, 0, 0, 0, 0, 1, 0x11, 0x70]);
}

#[test]
fn request_routing_and_key() {
    assert_eq!(route_of_text("GET / HTTP/1.1\r\n"), Route::Index);
    assert_eq!(route_of_text("GET /index.html HTTP/1.1\r\n"), Route::Index);
    assert_eq!(route_of_text("GET /ws HTTP/1.1\r\n"), Route::Upgrade);
    assert_eq!(route_of_text("POST / HTTP/1.1\r\n"), Route::NotFound);
    let req = "GET /ws HTTP/1.1\r\nHost: x\r\nSec-WebSocket-Key:  abc== \r\n\r\n";
    assert_eq!(websocket_key(req), Some("abc==".to_string()));
    assert_eq!(checked_websocket_key(req), Some(Some("abc==".to_string())));
    assert_eq!(checked_websocket_key("GET /ws HTTP/1.1\r\n\r\n"), Some(None));
}

#[test]
fn replies() {
    match respond(b"GET / HTTP/1.1\r\n\r\n", "<p>é</p>", "eth0") {
        Some(Reply::Close(text)) => {
            assert_eq!(text, "HTTP/1.1 200 OK\r\nContent-Type: text/html\r\nContent-Length: 9\r\nConnection: close\r\n\r\n<p>é</p>")
        }
        _ => panic!("expected the page"),
    }
    match respond(b"GET /nope HTTP/1.1\r\n\r\n", "", "eth0") {
        Some(Reply::Close(text)) => assert!(text.starts_with("HTTP/1.1 404 Not Found")),
        _ => panic!("expected 404"),
    }
    match respond(b"GET /ws HTTP/1.1\r\n\r\n", "", "eth0") {
        Some(Reply::Close(text)) => assert!(text.starts_with("HTTP/1.1 400 Bad Request")),
        _ => panic!("expected 400"),
    }
    match respond(b"GET /ws HTTP/1.1\r\nsec-websocket-key: dGhlIHNhbXBsZSBub25jZQ==\r\n\r\n", "", "eth0") {
        Some(Reply::Upgrade(text, frame)) => {
            assert_eq!(
                text,
                "HTTP/1.1 101 Switching Protocols\r\nUpgrade: websocket\r\nConnection: Upgrade\r\nSec-WebSocket-Accept: s3pPLMBiTxaQ9kYGzzhZRbK+xOo=\r\n\r\n"
            );
            let msg = "{\"type\":\"system\",\"interface\":\"eth0\"}";
            assert_eq!(frame, encode_ws_text_frame(msg));
        }
        _ => panic!("expected the handshake"),
    }
}

#[test]
fn replies_to_decoded_text() {
    match reply_to_text("GET /index.html HTTP/1.1\r\n\r\n", "<b>x</b>", "lo") {
        Some(Reply::Close(r)) => assert!(r.starts_with("HTTP/1.1 200 OK\r\n") && r.ends_with("<b>x</b>")),
        _ => panic!("expected the page"),
    }
    match reply_to_text("POST / HTTP/1.1\r\n\r\n", "", "lo") {
        Some(Reply::Close(r)) => assert!(r.starts_with("HTTP/1.1 404")),
        _ => panic!("expected 404"),
    }
    match reply_to_text("GET /ws HTTP/1.1\r\nSec-WebSocket-Key: dGhlIHNhbXBsZSBub25jZQ==\r\n\r\n", "", "lo") {
        Some(Reply::Upgrade(r, frame)) => {
            assert!(r.contains("Sec-WebSocket-Accept: s3pPLMBiTxaQ9kYGzzhZRbK+xOo=\r\n"));
            assert_eq!(frame, encode_ws_text_frame("{\"type\":\"system\",\"interface\":\"lo\"}"));
        }
        _ => panic!("expected the handshake"),
    }
}
