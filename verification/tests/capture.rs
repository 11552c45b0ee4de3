use netzer::bpf::{named_proto_filter, port_filter, proto_filter, SockFilter};
use netzer::http::{http_summary, http_summary_of_text};
use netzer::dissect::{dissect, ipv4_tcp_segment, overruns_tls_reader, PacketKind};
use netzer::privilege::{parse_u32, privilege_plan, PrivilegeError};
use netzer::records::{display_label, info_showable, info_text, json_label, json_line, live_message};

fn ethernet(ethertype: u16, payload: &[u8]) -> Vec<u8> {
    let mut f = vec![0xaa, 0xaa, 0xaa, 0xaa, 0xaa, 0xaa, 0xbb, 0xbb, 0xbb, 0xbb, 0xbb, 0xbb];
    f.extend_from_slice(&ethertype.to_be_bytes());
    f.extend_from_slice(payload);
    f
}

fn ipv4(proto: u8, segment: &[u8]) -> Vec<u8> {
    let mut p = vec![0x45, 0, 0, 0, 0, 0, 0, 0, 64, proto, 0, 0, 192, 168, 1, 10, 93, 184, 216, 34];
    p.extend_from_slice(segment);
    p
}

fn tcp(src: u16, dst: u16, payload: &[u8]) -> Vec<u8> {
    let mut s = vec![0u8; 20];
    s[0..2].copy_from_slice(&src.to_be_bytes());
    s[2..4].copy_from_slice(&dst.to_be_bytes());
    s[12] = 0x50;
    s.extend_from_slice(payload);
    s
}

fn udp(src: u16, dst: u16, payload: &[u8]) -> Vec<u8> {
    let mut s = vec![0u8; 8];
    s[0..2].copy_from_slice(&src.to_be_bytes());
    s[2..4].copy_from_slice(&dst.to_be_bytes());
    s.extend_from_slice(payload);
    s
}

#[test]
fn http_request_summary() {
    let frame = ethernet(0x0800, &ipv4(6, &tcp(51000, 80, b"  GET /index.html HTTP/1.1\r\nHost: x\r\n")));
    let s = dissect(&frame).unwrap();
    assert_eq!(s.kind, PacketKind::Http);
    assert_eq!(s.src, "192.168.1.10:51000");
    assert_eq!(s.dst, "93.184.216.34:80");
    assert_eq!(s.detail, "GET /index.html");
    assert!(!s.detail_is_name);
    assert_eq!(info_text(&s), "GET /index.html");
}

#[test]
fn http_response_and_plain_tcp() {
    let frame = ethernet(0x0800, &ipv4(6, &tcp(80, 51000, b"HTTP/1.1 404 Not Found\r\n")));
    let s = dissect(&frame).unwrap();
    assert_eq!(s.kind, PacketKind::Http);
    assert_eq!(s.detail, "404 Not Found\r\n");
    let frame = ethernet(0x0800, &ipv4(6, &tcp(80, 51000, b"HTTP/1.1")));
    assert_eq!(dissect(&frame).unwrap().detail, "[HTTP Response]");
    let frame = ethernet(0x0800, &ipv4(6, &tcp(1234, 5678, &[0, 1, 2])));
    let s = dissect(&frame).unwrap();
    assert_eq!(s.kind, PacketKind::Tcp);
    assert_eq!(s.detail, "[ENCRYPTED]");
    let frame = ethernet(0x0800, &ipv4(6, &tcp(1234, 443, &[0x16, 3, 1])));
    assert_eq!(dissect(&frame).unwrap().kind, PacketKind::Tcp);
}

#[test]
fn dns_summary_and_labels() {
    let mut q = vec![0x12, 0x34, 0x01, 0x00, 0x00, 0x01, 0, 0, 0, 0, 0, 0];
    q.extend_from_slice(&[7]);
    q.extend_from_slice(b"example");
    q.extend_from_slice(&[3]);
    q.extend_from_slice(b"com");
    q.extend_from_slice(&[0, 0, 1, 0, 1]);
    let frame = ethernet(0x0800, &ipv4(17, &udp(40000, 53, &q)));
    let s = dissect(&frame).unwrap();
    assert_eq!(s.kind, PacketKind::Dns);
    assert_eq!(s.detail, "example.com");
    assert!(s.detail_is_name);
    assert!(info_showable(&s));
    assert_eq!(info_text(&s), "DNS: example.com");
    assert_eq!(display_label(s.kind), "DNS");
    assert_eq!(json_label(s.kind), "UDP");
    let frame = ethernet(0x0800, &ipv4(17, &udp(40000, 53, &[1, 2])));
    let s = dissect(&frame).unwrap();
    assert_eq!(s.kind, PacketKind::Dns);
    assert_eq!(info_text(&s), "DNS");
    let frame = ethernet(0x0800, &ipv4(17, &udp(40000, 41000, &[1, 2])));
    assert_eq!(dissect(&frame).unwrap().detail, "-");
}

#[test]
fn icmp_and_arp_summaries() {
    let frame = ethernet(0x0800, &ipv4(1, &[3, 1, 0, 0, 0, 0, 0, 0]));
    let s = dissect(&frame).unwrap();
    assert_eq!(s.kind, PacketKind::Icmp);
    assert_eq!(s.src, "192.168.1.10");
    assert_eq!(s.detail, "Dest Unreachable (1)");
    let frame = ethernet(0x0800, &ipv4(1, &[42, 0, 0, 0, 0, 0, 0, 0]));
    assert_eq!(dissect(&frame).unwrap().detail, "Type 42");

    let mut v6 = vec![0x60, 0, 0, 0, 0, 8, 58, 255];
    v6.extend_from_slice(&[0xfe, 0x80, 0, 0, 0, 0, 0, 0, 0, 0, 0, 0, 0, 0, 0, 1]);
    v6.extend_from_slice(&[0xff, 0x02, 0, 0, 0, 0, 0, 0, 0, 0, 0, 0, 0, 0, 0, 2]);
    v6.extend_from_slice(&[135, 0, 0, 0, 0, 0, 0, 0]);
    let s = dissect(&ethernet(0x86DD, &v6)).unwrap();
    assert_eq!(s.kind, PacketKind::Icmp6);
    assert_eq!(s.detail, "Neighbor Solicitation");
    assert_eq!(json_label(s.kind), "ICMPv6");
    assert_eq!(display_label(s.kind), "ICMP6");

    let mut arp = vec![0, 1, 8, 0, 6, 4, 0, 1];
    arp.extend_from_slice(&[1, 2, 3, 4, 5, 6, 10, 0, 0, 1]);
    arp.extend_from_slice(&[0, 0, 0, 0, 0, 0, 10, 0, 0, 2]);
    let s = dissect(&ethernet(0x0806, &arp)).unwrap();
    assert_eq!(s.kind, PacketKind::Arp);
    assert_eq!(s.src, "01:02:03:04:05:06");
    assert_eq!(s.dst, "00:00:00:00:00:00");
    assert_eq!(s.detail, "Who has 10.0.0.2? Tell 10.0.0.1");
    arp[7] = 2;
    let s = dissect(&ethernet(0x0806, &arp)).unwrap();
    assert_eq!(s.detail, "10.0.0.1 is at 01:02:03:04:05:06");
    assert!(dissect(&ethernet(0x88cc, &arp)).is_none());
    assert!(dissect(&[0u8; 10]).is_none());
}

#[test]
fn overrun_frames_are_recognised() {
    let frame = ethernet(0x0800, &ipv4(6, &tcp(1234, 443, &[22, 3, 1, 0, 0])));
    assert!(overruns_tls_reader(&frame));
    let frame = ethernet(0x0800, &ipv4(6, &tcp(1234, 443, &[22, 3, 1, 0, 1])));
    assert!(!overruns_tls_reader(&frame));
}

#[test]
fn export_records() {
    assert_eq!(
        json_line("12:00:00.000", "TCP", "a:1", "b:2", "say \"hi\"", 60),
        "{\"timestamp\":\"12:00:00.000\",\"proto\":\"TCP\",\"src\":\"a:1\",\"dst\":\"b:2\",\"info\":\"say \\\"hi\\\"\",\"size\":60}\n"
    );
    assert_eq!(
        live_message("t", "ARP", "s", "d", "i", 42, "00ff"),
        "{\"timestamp\":\"t\",\"proto\":\"ARP\",\"src\":\"s\",\"dst\":\"d\",\"info\":\"i\",\"size\":42,\"payload\":\"00ff\"}"
    );
}

#[test]
fn bpf_programs() {
    let p = port_filter(443);
    assert_eq!(p.len(), 12);
    assert_eq!(p[7], SockFilter { code: 0x15, jt: 2, jf: 0, k: 443 });
    assert_eq!(p[11], SockFilter { code: 0x06, jt: 0, jf: 0, k: 0 });
    let t = proto_filter("TCP").unwrap();
    assert_eq!(t.len(), 6);
    assert_eq!(t[3].k, 6);
    assert_eq!(proto_filter("icmp").unwrap()[3].k, 1);
    assert_eq!(proto_filter("Arp").unwrap()[1].k, 0x0806);
    assert!(proto_filter("sctp").is_none());
}

#[test]
fn privilege_choice() {
    assert_eq!(parse_u32("1000"), Some(1000));
    assert_eq!(parse_u32("+7"), Some(7));
    assert_eq!(parse_u32("4294967295"), Some(u32::MAX));
    assert_eq!(parse_u32("4294967296"), None);
    assert_eq!(parse_u32(""), None);
    assert_eq!(parse_u32("+"), None);
    assert_eq!(parse_u32(" 1"), None);
    assert_eq!(parse_u32("-1"), None);
    assert_eq!(privilege_plan(1000, None, None), Ok(None));
    assert_eq!(privilege_plan(0, Some("1000"), Some("100")), Ok(Some((1000, 100))));
    assert_eq!(privilege_plan(0, Some("1000"), None), Ok(Some((65534, 65534))));
    assert_eq!(privilege_plan(0, Some("x"), Some("100")), Err(PrivilegeError::BadSudoUid));
    assert_eq!(privilege_plan(0, Some("1"), Some("y")), Err(PrivilegeError::BadSudoGid));
}

#[test]
fn tcp_flow_of_ipv4_frames() {
    let frame = ethernet(0x0800, &ipv4(6, &tcp(51000, 80, b"GET / HTTP/1.1\r\n")));
    let (sip, sp, dip, dp, data) = ipv4_tcp_segment(&frame).unwrap();
    assert_eq!(sip, "192.168.1.10");
    assert_eq!(sp, 51000);
    assert_eq!(dip, "93.184.216.34");
    assert_eq!(dp, 80);
    assert_eq!(data, b"GET / HTTP/1.1\r\n");
    let datagram = ethernet(0x0800, &ipv4(17, &udp(1, 2, b"x")));
    assert!(ipv4_tcp_segment(&datagram).is_none());
    let mut v6 = vec![0x60, 0, 0, 0, 0, 0, 6, 64];
    v6.extend_from_slice(&[0u8; 32]);
    v6.extend_from_slice(&tcp(1, 2, b"x"));
    assert!(ipv4_tcp_segment(&ethernet(0x86dd, &v6)).is_none());
    assert!(ipv4_tcp_segment(&ethernet(0x0800, &ipv4(6, &[0u8; 10]))).is_none());
}

/// Runs a classic BPF program over a frame the way the kernel does for the
/// operations the analyzer's programs use; returns the bytes kept.
fn run_filter(prog: &[SockFilter], f: &[u8]) -> u32 {
    let be16 = |at: usize| -> Option<u32> {
        if at + 2 <= f.len() {
            Some(((f[at] as u32) << 8) | f[at + 1] as u32)
        } else {
            None
        }
    };
    let (mut pc, mut a, mut x) = (0usize, 0u32, 0usize);
    while pc < prog.len() {
        let i = prog[pc];
        let k = i.k as usize;
        match i.code {
            0x06 => return i.k,
            0x28 => match be16(k) {
                Some(v) => a = v,
                None => return 0,
            },
            0x30 => match f.get(k) {
                Some(b) => a = *b as u32,
                None => return 0,
            },
            0xb1 => match f.get(k) {
                Some(b) => x = 4 * (*b as usize & 0x0f),
                None => return 0,
            },
            0x48 => match be16(x + k) {
                Some(v) => a = v,
                None => return 0,
            },
            0x15 => {
                pc += if a == i.k { i.jt as usize } else { i.jf as usize };
            }
            _ => return 0,
        }
        pc += 1;
    }
    0
}

fn arp_frame() -> Vec<u8> {
    let mut arp = vec![0u8, 1, 8, 0, 6, 4, 0, 1];
    arp.extend_from_slice(&[0x11; 6]);
    arp.extend_from_slice(&[10, 0, 0, 1]);
    arp.extend_from_slice(&[0; 6]);
    arp.extend_from_slice(&[10, 0, 0, 2]);
    ethernet(0x0806, &arp)
}

#[test]
fn bpf_protocol_filters_keep_only_their_protocol() {
    let tcp_frame = ethernet(0x0800, &ipv4(6, &tcp(1234, 80, b"x")));
    let udp_frame = ethernet(0x0800, &ipv4(17, &udp(1234, 53, b"x")));
    let icmp_frame = ethernet(0x0800, &ipv4(1, &[8, 0, 0, 0, 0, 0, 0, 0]));
    let arp = arp_frame();
    let short_arp = ethernet(0x0806, &[0u8; 10]);
    let tcp_filter = proto_filter("tcp").unwrap();
    assert_ne!(run_filter(&tcp_filter, &tcp_frame), 0);
    assert_eq!(run_filter(&tcp_filter, &udp_frame), 0);
    assert_eq!(run_filter(&tcp_filter, &arp), 0);
    assert_eq!(run_filter(&tcp_filter, &short_arp), 0);
    let udp_filter = proto_filter("UDP").unwrap();
    assert_ne!(run_filter(&udp_filter, &udp_frame), 0);
    assert_eq!(run_filter(&udp_filter, &tcp_frame), 0);
    assert_eq!(run_filter(&udp_filter, &arp), 0);
    let icmp_filter = proto_filter("icmp").unwrap();
    assert_ne!(run_filter(&icmp_filter, &icmp_frame), 0);
    assert_eq!(run_filter(&icmp_filter, &arp), 0);
    let arp_filter = named_proto_filter("arp").unwrap();
    assert_ne!(run_filter(&arp_filter, &arp), 0);
    assert_eq!(run_filter(&arp_filter, &tcp_frame), 0);
    assert!(named_proto_filter("TCP").is_none());
}

#[test]
fn bpf_port_filter_keeps_only_its_port() {
    let f = port_filter(443);
    assert_eq!(f[1], SockFilter { code: 0x15, jt: 0, jf: 9, k: 0x0800 });
    assert_eq!(f[4], SockFilter { code: 0x15, jt: 0, jf: 6, k: 17 });
    assert_ne!(run_filter(&f, &ethernet(0x0800, &ipv4(6, &tcp(51000, 443, b"")))), 0);
    assert_ne!(run_filter(&f, &ethernet(0x0800, &ipv4(6, &tcp(443, 51000, b"")))), 0);
    assert_ne!(run_filter(&f, &ethernet(0x0800, &ipv4(17, &udp(443, 9, b"")))), 0);
    assert_eq!(run_filter(&f, &ethernet(0x0800, &ipv4(6, &tcp(51000, 80, b"")))), 0);
    assert_eq!(run_filter(&f, &ethernet(0x0800, &ipv4(1, &[0, 0, 1, 0xbb, 1, 0xbb, 0, 0]))), 0);
    assert_eq!(run_filter(&f, &arp_frame()), 0);
    assert_eq!(run_filter(&f, &ethernet(0x86dd, &[0u8; 60])), 0);
    // the ports are read after the header length the IHL nibble gives
    let mut with_options = vec![0x46, 0, 0, 0, 0, 0, 0, 0, 64, 6, 0, 0, 1, 1, 1, 1, 2, 2, 2, 2, 0, 0, 0, 0];
    with_options.extend_from_slice(&tcp(7, 443, b""));
    assert_ne!(run_filter(&f, &ethernet(0x0800, &with_options)), 0);
}

#[test]
fn http_summaries_of_payloads_and_text() {
    assert_eq!(http_summary_of_text("\r\n GET  /a?b HTTP/1.1"), Some("GET /a?b".to_string()));
    assert_eq!(http_summary_of_text("HEAD"), None);
    assert_eq!(http_summary_of_text("HEAD "), Some("[HTTP Request]".to_string()));
    assert_eq!(http_summary_of_text("HTTP/2 204 No Content"), Some("204 No Content".to_string()));
    assert_eq!(http_summary_of_text("SSH-2.0"), None);
    assert_eq!(http_summary(b"PUT /x HTTP/1.1\r\n"), Some("PUT /x".to_string()));
    assert_eq!(http_summary(&[0xff, 0xfe]), None);
}
