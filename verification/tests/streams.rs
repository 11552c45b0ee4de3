use netzer::tcp_stream::{StreamKey, TcpStreamTracker};

#[test]
fn stream_key_is_direction_independent() {
    let a = StreamKey::new("10.0.0.2", 51000, "10.0.0.1", 80);
    let b = StreamKey::new("10.0.0.1", 80, "10.0.0.2", 51000);
    assert_eq!(a, b);
    assert_eq!(a.client_ip, "10.0.0.1");
    assert_eq!(a.client_port, 80);
    assert_eq!(a.server_ip, "10.0.0.2");
    assert_eq!(a.server_port, 51000);
    let same_ip = StreamKey::new("10.0.0.1", 9000, "10.0.0.1", 80);
    assert_eq!(same_ip.client_port, 80);
    assert_eq!(same_ip.server_port, 9000);
    assert_eq!(a.clone(), a);
}

#[test]
fn http_request_flushes_on_first_line() {
    let mut t = TcpStreamTracker::new();
    assert!(t.feed("10.0.0.2", 51000, "10.0.0.1", 80, b"").is_none());
    assert!(t.feed("10.0.0.2", 51000, "10.0.0.1", 80, b"GET /index").is_none());
    let (key, data) = t.feed("10.0.0.2", 51000, "10.0.0.1", 80, b".html HTTP/1.1\r\n").unwrap();
    assert_eq!(key, StreamKey::new("10.0.0.1", 80, "10.0.0.2", 51000));
    assert_eq!(data, b"GET /index.html HTTP/1.1\r\n".to_vec());
    // the stream starts over after a flush
    assert!(t.feed("10.0.0.1", 80, "10.0.0.2", 51000, b"HTTP/1.1 200").is_none());
    let (_, data) = t.feed("10.0.0.1", 80, "10.0.0.2", 51000, b" OK\n").unwrap();
    assert_eq!(data, b"HTTP/1.1 200 OK\n".to_vec());
}

#[test]
fn binary_data_flushes_at_threshold() {
    let mut t = TcpStreamTracker::default();
    let chunk = vec![0u8; 1000];
    for _ in 0..4 {
        assert!(t.feed("1.1.1.1", 1, "2.2.2.2", 2, &chunk).is_none());
    }
    let (_, data) = t.feed("2.2.2.2", 2, "1.1.1.1", 1, &chunk).unwrap();
    assert_eq!(data.len(), 5000);
    t.clear();
    assert!(t.feed("1.1.1.1", 1, "2.2.2.2", 2, b"x").is_none());
}

#[test]
fn both_directions_share_a_stream() {
    let mut t = TcpStreamTracker::new();
    assert!(t.feed("192.168.0.5", 40000, "93.184.216.34", 80, b"GET / HTTP/1.1").is_none());
    let (key, data) = t.feed("93.184.216.34", 80, "192.168.0.5", 40000, b"\r\n").unwrap();
    assert_eq!(key, StreamKey::new("192.168.0.5", 40000, "93.184.216.34", 80));
    assert_eq!(data, b"GET / HTTP/1.1\r\n".to_vec());
    assert!(t.feed("192.168.0.5", 40000, "93.184.216.34", 80, &[1, 2]).is_none());
    assert!(t.feed("93.184.216.34", 80, "192.168.0.5", 40000, &[3]).is_none());
    let (_, data) = t.feed("192.168.0.5", 40000, "93.184.216.34", 80, &vec![9u8; 4093]).unwrap();
    assert_eq!(data.len(), 4096);
    assert_eq!(&data[..3], &[1, 2, 3]);
}
