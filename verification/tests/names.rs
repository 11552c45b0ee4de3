use netzer::dns::DnsQuery;
use netzer::error::ParseError;
use netzer::tls::TlsClientHello;

fn dns_query(labels: &[&[u8]]) -> Vec<u8> {
    let mut msg = vec![0x12, 0x34, 0x01, 0x00, 0x00, 0x01, 0, 0, 0, 0, 0, 0];
    for l in labels {
        msg.push(l.len() as u8);
        msg.extend_from_slice(l);
    }
    msg.push(0);
    msg.extend_from_slice(&[0, 1, 0, 1]);
    msg
}

#[test]
fn dns_query_name_is_joined_with_dots() {
    let msg = dns_query(&[b"www", b"example", b"com"]);
    assert_eq!(DnsQuery::parse(&msg).unwrap().domain_name, "www.example.com");
}

#[test]
fn dns_rejections() {
    assert!(matches!(DnsQuery::parse(&[0u8; 11]), Err(ParseError::BufferTooShort)));
    let mut response = dns_query(&[b"a"]);
    response[2] = 0x81; // QR bit: a response
    assert!(matches!(DnsQuery::parse(&response), Err(ParseError::InvalidFormat)));
    let mut no_question = dns_query(&[b"a"]);
    no_question[5] = 0;
    assert!(matches!(DnsQuery::parse(&no_question), Err(ParseError::InvalidFormat)));
    let mut pointer = dns_query(&[b"a"]);
    pointer[12] = 0xc0;
    assert!(matches!(DnsQuery::parse(&pointer), Err(ParseError::InvalidFormat)));
    // a label that runs to the last byte of the message
    let truncated = [0x12, 0x34, 0x01, 0x00, 0x00, 0x01, 0, 0, 0, 0, 0, 0, 3, b'a', b'b', b'c'];
    assert!(matches!(DnsQuery::parse(&truncated), Err(ParseError::BufferTooShort)));
    // root name only: empty domain
    let empty = dns_query(&[]);
    assert!(matches!(DnsQuery::parse(&empty), Err(ParseError::InvalidFormat)));
    // a label that is not UTF-8
    let bad = dns_query(&[&[0xff, 0xfe]]);
    assert!(matches!(DnsQuery::parse(&bad), Err(ParseError::InvalidFormat)));
}

fn client_hello(host: &[u8], extra_ext_first: bool) -> Vec<u8> {
    let mut ext = Vec::new();
    if extra_ext_first {
        ext.extend_from_slice(&[0x00, 0x17, 0x00, 0x00]); // extended master secret, empty
    }
    let list_len = 3 + host.len();
    ext.extend_from_slice(&[0x00, 0x00]);
    ext.extend_from_slice(&((list_len + 2) as u16).to_be_bytes());
    ext.extend_from_slice(&(list_len as u16).to_be_bytes());
    ext.push(0);
    ext.extend_from_slice(&(host.len() as u16).to_be_bytes());
    ext.extend_from_slice(host);

    let mut body = vec![0x03, 0x03];
    body.extend_from_slice(&[0u8; 32]);
    body.push(0); // session id
    body.extend_from_slice(&[0x00, 0x02, 0x13, 0x01]);
    body.extend_from_slice(&[0x01, 0x00]);
    body.extend_from_slice(&(ext.len() as u16).to_be_bytes());
    body.extend_from_slice(&ext);

    let mut hs = vec![0x01, 0x00];
    hs.extend_from_slice(&(body.len() as u16).to_be_bytes());
    hs.extend_from_slice(&body);

    let mut rec = vec![22, 0x03, 0x01];
    rec.extend_from_slice(&(hs.len() as u16).to_be_bytes());
    rec.extend_from_slice(&hs);
    rec
}

#[test]
fn tls_sni_is_extracted() {
    let rec = client_hello(b"example.com", false);
    assert_eq!(TlsClientHello::parse(&rec).unwrap().sni, "example.com");
    let rec = client_hello(b"api.netzer.dev", true);
    assert_eq!(TlsClientHello::parse(&rec).unwrap().sni, "api.netzer.dev");
}

#[test]
fn tls_rejections() {
    assert!(matches!(TlsClientHello::parse(&[22, 3, 1, 0]), Err(ParseError::BufferTooShort)));
    let mut rec = client_hello(b"example.com", false);
    rec[0] = 23;
    assert!(matches!(TlsClientHello::parse(&rec), Err(ParseError::InvalidFormat)));
    let rec = client_hello(b"example.com", false);
    assert!(matches!(TlsClientHello::parse(&rec[..rec.len() - 1]), Err(ParseError::BufferTooShort)));
    let mut rec = client_hello(b"example.com", false);
    rec[5] = 2; // ServerHello
    assert!(matches!(TlsClientHello::parse(&rec), Err(ParseError::InvalidFormat)));
    let rec = client_hello(&[0xff, 0xfe], false);
    assert!(matches!(TlsClientHello::parse(&rec), Err(ParseError::InvalidFormat)));
}
