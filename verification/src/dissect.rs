//! What the analyzer shows of one captured frame: protocol, endpoints and a
//! one-line description, decoded through the Ethernet, IP and transport headers.
use vstd::prelude::*;
use crate::arp::ArpPacket;
use crate::dns::{DnsQuery, dns_query_name};
use crate::ethernet::{EtherType, EthernetFrame, ether_type_of};
use crate::http::{http_summary, payload_http_info};
use crate::icmp::IcmpHeader;
use crate::ipv4::{Ipv4Header, ipv4_header_len, ipv4_text};
use crate::ipv6::{Ipv6Header, ipv6_text};
use crate::mac::mac_text;
use crate::tcp::{TcpHeader, tcp_header_len};
use crate::textfmt::{byte_text, push_byte_text, push_char, push_u16_text, u16_text};
use crate::tls::{TlsClientHello, client_hello_sni, is_empty_handshake_record};
use crate::udp::UdpHeader;
use crate::wire::{be16, read_be16};

verus! {

/// The protocol a frame is shown as.
#[derive(Debug, Clone, Copy, PartialEq, Eq, Structural)]
pub enum PacketKind {
    Tcp,
    Tls,
    Http,
    Udp,
    Dns,
    Icmp,
    Icmp6,
    Arp,
}

/// What is shown of one frame. `detail` is the description; when
/// `detail_is_name` holds it is a host name (TLS server name or DNS query
/// name) that is shortened for display. `payload` is the part of the frame
/// the protocol's decoder was given: the transport segment, or the ARP packet.
pub struct PacketSummary {
    pub kind: PacketKind,
    pub src: String,
    pub dst: String,
    pub detail: String,
    pub detail_is_name: bool,
    pub payload: Vec<u8>,
}

/// The abstract value of a summary: kind, source, destination, detail,
/// whether the detail is a name, decoded bytes.
pub type SummaryView = (PacketKind, Seq<char>, Seq<char>, Seq<char>, bool, Seq<u8>);

impl View for PacketSummary {
    type V = SummaryView;

    open spec fn view(&self) -> SummaryView {
        (self.kind, self.src@, self.dst@, self.detail@, self.detail_is_name, self.payload@)
    }
}

/// `r` is the summary `v` describes, or nothing when `v` is nothing.
pub open spec fn summary_is(r: Option<PacketSummary>, v: Option<SummaryView>) -> bool {
    match v {
        None => r is None,
        Some(sv) => r matches Some(s) && s@ == sv,
    }
}

/// `ip:port`.
pub open spec fn endpoint_text(ip: Seq<char>, port: u16) -> Seq<char> {
    ip + seq![':'] + u16_text(port)
}

/// Whether a TCP header decodes at the start of `seg`.
pub open spec fn tcp_segment_ok(seg: Seq<u8>) -> bool {
    &&& seg.len() >= 20
    &&& tcp_header_len(seg[12]) >= 20
    &&& seg.len() >= tcp_header_len(seg[12])
}

/// A segment to port 443 whose payload is the bare header of an empty
/// handshake record, on which the ClientHello reader reads past the end.
pub open spec fn tcp_segment_overruns(seg: Seq<u8>) -> bool {
    &&& tcp_segment_ok(seg)
    &&& be16(seg[2], seg[3]) == 443
    &&& is_empty_handshake_record(seg.skip(tcp_header_len(seg[12])))
}

/// A TCP segment between `src_ip` and `dst_ip`: to port 443, the TLS server
/// name when the payload is a ClientHello that names one; otherwise the HTTP
/// summary when the payload is HTTP; else `[ENCRYPTED]`.
pub open spec fn tcp_summary(src_ip: Seq<char>, dst_ip: Seq<char>, seg: Seq<u8>) -> Option<SummaryView> {
    if !tcp_segment_ok(seg) {
        None
    } else {
        let sp = be16(seg[0], seg[1]);
        let dp = be16(seg[2], seg[3]);
        let payload = seg.skip(tcp_header_len(seg[12]));
        let src = endpoint_text(src_ip, sp as u16);
        let dst = endpoint_text(dst_ip, dp as u16);
        if dp == 443 {
            match client_hello_sni(payload) {
                Ok(name) => Some((PacketKind::Tls, src, dst, name, true, seg)),
                Err(_) => Some((PacketKind::Tcp, src, dst, "[ENCRYPTED]"@, false, seg)),
            }
        } else {
            match payload_http_info(payload) {
                Some(info) => Some((PacketKind::Http, src, dst, info, false, seg)),
                None => Some((PacketKind::Tcp, src, dst, "[ENCRYPTED]"@, false, seg)),
            }
        }
    }
}

/// A UDP datagram: to or from port 53 it is DNS, described by the query name
/// when one decodes; otherwise plain UDP.
pub open spec fn udp_summary(src_ip: Seq<char>, dst_ip: Seq<char>, seg: Seq<u8>) -> Option<SummaryView> {
    if seg.len() < 8 {
        None
    } else {
        let sp = be16(seg[0], seg[1]);
        let dp = be16(seg[2], seg[3]);
        let src = endpoint_text(src_ip, sp as u16);
        let dst = endpoint_text(dst_ip, dp as u16);
        if dp == 53 || sp == 53 {
            match dns_query_name(seg.skip(8)) {
                Ok(name) => Some((PacketKind::Dns, src, dst, name, true, seg)),
                Err(_) => Some((PacketKind::Dns, src, dst, "DNS"@, false, seg)),
            }
        } else {
            Some((PacketKind::Udp, src, dst, "-"@, false, seg))
        }
    }
}

/// The description of an ICMP message by type (and, for type 3, code).
pub open spec fn icmp_text(icmp_type: u8, code: u8) -> Seq<char> {
    if icmp_type == 0 {
        "Echo Reply (0)"@
    } else if icmp_type == 3 {
        "Dest Unreachable ("@ + byte_text(code) + ")"@
    } else if icmp_type == 8 {
        "Echo Request (8)"@
    } else if icmp_type == 11 {
        "Time Exceeded"@
    } else {
        "Type "@ + byte_text(icmp_type)
    }
}

/// The description of an ICMPv6 message by type.
pub open spec fn icmpv6_text(icmp_type: u8) -> Seq<char> {
    if icmp_type == 1 {
        "Dest Unreachable"@
    } else if icmp_type == 2 {
        "Packet Too Big"@
    } else if icmp_type == 3 {
        "Time Exceeded"@
    } else if icmp_type == 128 {
        "Echo Request (Ping)"@
    } else if icmp_type == 129 {
        "Echo Reply (Ping)"@
    } else if icmp_type == 133 {
        "Router Solicitation"@
    } else if icmp_type == 134 {
        "Router Advertisement"@
    } else if icmp_type == 135 {
        "Neighbor Solicitation"@
    } else if icmp_type == 136 {
        "Neighbor Advertisement"@
    } else {
        "Type "@ + byte_text(icmp_type)
    }
}

/// An ICMP description names the message type it was given: it reads
/// "Echo Reply (0)" exactly for type 0, "Echo Request (8)" exactly for type 8,
/// "Time Exceeded" exactly for type 11, and starts "Dest Unreachable (" exactly
/// for type 3.
pub proof fn lemma_icmp_text_names_its_type(t: u8, code: u8)
    ensures
        (icmp_text(t, code) == "Echo Reply (0)"@) == (t == 0),
        (icmp_text(t, code) == "Echo Request (8)"@) == (t == 8),
        (icmp_text(t, code) == "Time Exceeded"@) == (t == 11),
        (icmp_text(t, code).len() >= 18 && icmp_text(t, code).take(18) == "Dest Unreachable ("@) == (t == 3),
{
    reveal_strlit("Echo Reply (0)");
    reveal_strlit("Echo Request (8)");
    reveal_strlit("Time Exceeded");
    reveal_strlit("Dest Unreachable (");
    reveal_strlit(")");
    reveal_strlit("Type ");
    let s = icmp_text(t, code);
    if t == 3 {
        assert(s.take(18) =~= "Dest Unreachable ("@);
        assert(s[0] == 'D');
    } else if t == 0 {
        assert(s[0] == 'E' && s[5] == 'R' && s[7] == 'p');
    } else if t == 8 {
        assert(s[0] == 'E' && s[5] == 'R' && s[7] == 'q');
    } else if t == 11 {
        assert(s[0] == 'T' && s[1] == 'i');
    } else {
        assert(s[0] == 'T' && s[1] == 'y');
    }
    if s.len() >= 18 && s.take(18) == "Dest Unreachable ("@ {
        assert(s.take(18)[0] == 'D');
    }
}

/// An ICMPv6 description names the message type it was given: it reads
/// "Echo Request (Ping)" exactly for type 128 and "Echo Reply (Ping)" exactly
/// for type 129.
pub proof fn lemma_icmpv6_text_names_its_type(t: u8)
    ensures
        (icmpv6_text(t) == "Echo Request (Ping)"@) == (t == 128),
        (icmpv6_text(t) == "Echo Reply (Ping)"@) == (t == 129),
{
    reveal_strlit("Dest Unreachable");
    reveal_strlit("Packet Too Big");
    reveal_strlit("Time Exceeded");
    reveal_strlit("Echo Request (Ping)");
    reveal_strlit("Echo Reply (Ping)");
    reveal_strlit("Router Solicitation");
    reveal_strlit("Router Advertisement");
    reveal_strlit("Neighbor Solicitation");
    reveal_strlit("Neighbor Advertisement");
    reveal_strlit("Type ");
    let s = icmpv6_text(t);
    if t == 128 {
        assert(s[7] == 'q');
    } else if t == 129 {
        assert(s[7] == 'p');
    } else if t == 1 {
        assert(s[0] == 'D');
    } else if t == 2 {
        assert(s[0] == 'P');
    } else if t == 133 || t == 134 {
        assert(s[0] == 'R');
    } else if t == 135 || t == 136 {
        assert(s[0] == 'N');
    } else {
        assert(s[0] == 'T');
    }
}

/// An ICMP (or, with `v6`, ICMPv6) message between two addresses.
pub open spec fn icmp_summary(src_ip: Seq<char>, dst_ip: Seq<char>, seg: Seq<u8>, v6: bool) -> Option<SummaryView> {
    if seg.len() < 8 {
        None
    } else if v6 {
        Some((PacketKind::Icmp6, src_ip, dst_ip, icmpv6_text(seg[0]), false, seg))
    } else {
        Some((PacketKind::Icmp, src_ip, dst_ip, icmp_text(seg[0], seg[1]), false, seg))
    }
}

/// An ARP packet, shown from sender to target hardware address.
pub open spec fn arp_summary(p: Seq<u8>) -> Option<SummaryView> {
    if p.len() < 28 {
        None
    } else {
        let opcode = be16(p[6], p[7]);
        let sender_mac = mac_text(p.subrange(8, 14));
        let sender_ip = ipv4_text(p.subrange(14, 18));
        let target_ip = ipv4_text(p.subrange(24, 28));
        let info = if opcode == 1 {
            "Who has "@ + target_ip + "? Tell "@ + sender_ip
        } else if opcode == 2 {
            sender_ip + " is at "@ + sender_mac
        } else {
            "Opcode "@ + u16_text(opcode as u16)
        };
        Some((PacketKind::Arp, sender_mac, mac_text(p.subrange(18, 24)), info, false, p))
    }
}

/// The EtherType of a frame of at least 14 bytes.
pub open spec fn frame_ether_type(p: Seq<u8>) -> EtherType {
    ether_type_of(be16(p[12], p[13]) as u16)
}

/// Whether an IPv4 header decodes at the start of `ip`.
pub open spec fn ipv4_packet_ok(ip: Seq<u8>) -> bool {
    &&& ip.len() >= 20
    &&& ipv4_header_len(ip[0]) >= 20
    &&& ip.len() >= ipv4_header_len(ip[0])
}

/// The IPv4 packet in `ip`, by protocol: TCP (6), UDP (17), ICMP (1).
pub open spec fn ipv4_summary(ip: Seq<u8>) -> Option<SummaryView> {
    if !ipv4_packet_ok(ip) {
        None
    } else {
        let src = ipv4_text(ip.subrange(12, 16));
        let dst = ipv4_text(ip.subrange(16, 20));
        let seg = ip.skip(ipv4_header_len(ip[0]));
        if ip[9] == 6 {
            tcp_summary(src, dst, seg)
        } else if ip[9] == 17 {
            udp_summary(src, dst, seg)
        } else if ip[9] == 1 {
            icmp_summary(src, dst, seg, false)
        } else {
            None
        }
    }
}

/// The IPv6 packet in `ip`, by next header: TCP (6), UDP (17), ICMPv6 (58).
pub open spec fn ipv6_summary(ip: Seq<u8>) -> Option<SummaryView> {
    if ip.len() < 40 {
        None
    } else {
        let src = ipv6_text(ip.subrange(8, 24));
        let dst = ipv6_text(ip.subrange(24, 40));
        let seg = ip.skip(40);
        if ip[6] == 6 {
            tcp_summary(src, dst, seg)
        } else if ip[6] == 17 {
            udp_summary(src, dst, seg)
        } else if ip[6] == 58 {
            icmp_summary(src, dst, seg, true)
        } else {
            None
        }
    }
}

/// What is shown of the Ethernet frame `p`; nothing for frames that do not
/// decode or carry another protocol.
pub open spec fn packet_summary(p: Seq<u8>) -> Option<SummaryView> {
    if p.len() < 14 {
        None
    } else {
        match frame_ether_type(p) {
            EtherType::Ipv4 => ipv4_summary(p.skip(14)),
            EtherType::Ipv6 => ipv6_summary(p.skip(14)),
            EtherType::Arp => arp_summary(p.skip(14)),
            EtherType::Other(_) => None,
        }
    }
}

/// Frames whose TCP payload to port 443 the ClientHello reader reads past.
pub open spec fn packet_overruns_tls_reader(p: Seq<u8>) -> bool {
    &&& p.len() >= 14
    &&& match frame_ether_type(p) {
        EtherType::Ipv4 => {
            let ip = p.skip(14);
            ipv4_packet_ok(ip) && ip[9] == 6 && tcp_segment_overruns(ip.skip(ipv4_header_len(ip[0])))
        },
        EtherType::Ipv6 => {
            let ip = p.skip(14);
            ip.len() >= 40 && ip[6] == 6 && tcp_segment_overruns(ip.skip(40))
        },
        _ => false,
    }
}

/// Whether the TCP segment is one that `tcp_segment_overruns` describes.
fn segment_overruns(segment: &[u8]) -> (r: bool)
    ensures
        r == tcp_segment_overruns(segment@),
{
    match TcpHeader::parse(segment) {
        Ok((header, payload)) => {
            header.destination_port() == 443 && payload.len() == 5 && payload[0] == 22
                && read_be16(payload, 3) == 0
        },
        Err(_) => false,
    }
}

/// Whether `dissect` cannot be asked about `packet`: a TCP payload to port 443
/// that is a bare empty handshake record header.
pub fn overruns_tls_reader(packet: &[u8]) -> (r: bool)
    ensures
        r == packet_overruns_tls_reader(packet@),
{
    let (frame, payload) = match EthernetFrame::parse(packet) {
        Ok(res) => res,
        Err(_) => {
            return false;
        },
    };
    proof {
        assert(packet@.subrange(0, 14)[12] == packet@[12]);
        assert(packet@.subrange(0, 14)[13] == packet@[13]);
        assert(payload@ =~= packet@.skip(14));
    }
    match frame.ethertype() {
        EtherType::Ipv4 => match Ipv4Header::parse(payload) {
            Ok((header, segment)) => {
                proof { assert(segment@ =~= payload@.skip(ipv4_header_len(payload@[0]))); }
                header.protocol() == 6 && segment_overruns(segment)
            },
            Err(_) => false,
        },
        EtherType::Ipv6 => match Ipv6Header::parse(payload) {
            Ok((header, segment)) => {
                proof { assert(segment@ =~= payload@.skip(40)); }
                header.next_header() == 6 && segment_overruns(segment)
            },
            Err(_) => false,
        },
        _ => false,
    }
}

/// The endpoints and payload of a TCP segment carried over IPv4 in the
/// Ethernet frame `p`: source address and port, destination address and port,
/// and the bytes after the TCP header.
pub open spec fn ipv4_tcp_flow(p: Seq<u8>) -> Option<(Seq<char>, u16, Seq<char>, u16, Seq<u8>)> {
    if p.len() < 14 || frame_ether_type(p) != EtherType::Ipv4 {
        None
    } else {
        let ip = p.skip(14);
        if !ipv4_packet_ok(ip) || ip[9] != 6 {
            None
        } else {
            let seg = ip.skip(ipv4_header_len(ip[0]));
            if !tcp_segment_ok(seg) {
                None
            } else {
                Some((
                    ipv4_text(ip.subrange(12, 16)),
                    be16(seg[0], seg[1]) as u16,
                    ipv4_text(ip.subrange(16, 20)),
                    be16(seg[2], seg[3]) as u16,
                    seg.skip(tcp_header_len(seg[12])),
                ))
            }
        }
    }
}

/// The TCP connection endpoints and payload of an IPv4 frame, for stream
/// reassembly; nothing for other frames.
pub fn ipv4_tcp_segment(packet: &[u8]) -> (r: Option<(String, u16, String, u16, &[u8])>)
    ensures
        match ipv4_tcp_flow(packet@) {
            None => r is None,
            Some((sip, sp, dip, dp, data)) => r matches Some((a, b, c, d, e))
                && a@ == sip && b == sp && c@ == dip && d == dp && e@ == data,
        },
{
    let (frame, payload) = match EthernetFrame::parse(packet) {
        Ok(res) => res,
        Err(_) => {
            return None;
        },
    };
    proof {
        assert(packet@.subrange(0, 14)[12] == packet@[12]);
        assert(packet@.subrange(0, 14)[13] == packet@[13]);
        assert(payload@ =~= packet@.skip(14));
    }
    match frame.ethertype() {
        EtherType::Ipv4 => {
            let (header, segment) = match Ipv4Header::parse(payload) {
                Ok(res) => res,
                Err(_) => {
                    return None;
                },
            };
            proof {
                let hl = ipv4_header_len(payload@[0]);
                assert(payload@.subrange(0, hl).subrange(12, 16) =~= payload@.subrange(12, 16));
                assert(payload@.subrange(0, hl).subrange(16, 20) =~= payload@.subrange(16, 20));
                assert(segment@ =~= payload@.skip(hl));
            }
            if header.protocol() != 6 {
                return None;
            }
            let src_ip = header.source().to_string();
            let dst_ip = header.destination().to_string();
            match TcpHeader::parse(segment) {
                Ok((tcp, data)) => {
                    let sp = tcp.source_port();
                    let dp = tcp.destination_port();
                    Some((src_ip, sp, dst_ip, dp, data))
                },
                Err(_) => None,
            }
        },
        _ => None,
    }
}

/// `ip:port` as a string.
fn endpoint(ip: &str, port: u16) -> (s: String)
    ensures
        s@ == endpoint_text(ip@, port),
{
    let mut s = String::from_str(ip);
    push_char(&mut s, ':');
    push_u16_text(&mut s, port);
    s
}

fn summary(kind: PacketKind, src: String, dst: String, detail: String, detail_is_name: bool, bytes: &[u8]) -> (s: PacketSummary)
    ensures
        s@ == (kind, src@, dst@, detail@, detail_is_name, bytes@),
{
    let mut payload: Vec<u8> = Vec::new();
    let mut i: usize = 0;
    while i < bytes.len()
        invariant
            i <= bytes@.len(),
            payload@ == bytes@.take(i as int),
        decreases bytes@.len() - i,
    {
        payload.push(bytes[i]);
        i = i + 1;
        assert(payload@ =~= bytes@.take(i as int));
    }
    assert(bytes@.take(bytes@.len() as int) =~= bytes@);
    PacketSummary { kind, src, dst, detail, detail_is_name, payload }
}

/// Describes a TCP segment between `src_ip` and `dst_ip`.
pub fn summarize_tcp(src_ip: &str, dst_ip: &str, segment: &[u8]) -> (r: Option<PacketSummary>)
    requires
        !tcp_segment_overruns(segment@),
    ensures
        summary_is(r, tcp_summary(src_ip@, dst_ip@, segment@)),
{
    let (header, payload) = match TcpHeader::parse(segment) {
        Ok(res) => res,
        Err(_) => {
            return None;
        },
    };
    let src_port = header.source_port();
    let dst_port = header.destination_port();
    let src = endpoint(src_ip, src_port);
    let dst = endpoint(dst_ip, dst_port);
    if dst_port == 443 {
        match TlsClientHello::parse(payload) {
            Ok(hello) => Some(summary(PacketKind::Tls, src, dst, String::from_str(hello.sni), true, segment)),
            Err(_) => Some(summary(PacketKind::Tcp, src, dst, String::from_str("[ENCRYPTED]"), false, segment)),
        }
    } else {
        match http_summary(payload) {
            Some(info) => Some(summary(PacketKind::Http, src, dst, info, false, segment)),
            None => Some(summary(PacketKind::Tcp, src, dst, String::from_str("[ENCRYPTED]"), false, segment)),
        }
    }
}

/// Describes a UDP datagram between `src_ip` and `dst_ip`.
pub fn summarize_udp(src_ip: &str, dst_ip: &str, segment: &[u8]) -> (r: Option<PacketSummary>)
    ensures
        summary_is(r, udp_summary(src_ip@, dst_ip@, segment@)),
{
    let (header, payload) = match UdpHeader::parse(segment) {
        Ok(res) => res,
        Err(_) => {
            return None;
        },
    };
    let src_port = header.source_port();
    let dst_port = header.destination_port();
    let src = endpoint(src_ip, src_port);
    let dst = endpoint(dst_ip, dst_port);
    if dst_port == 53 || src_port == 53 {
        match DnsQuery::parse(payload) {
            Ok(q) => Some(summary(PacketKind::Dns, src, dst, q.domain_name, true, segment)),
            Err(_) => Some(summary(PacketKind::Dns, src, dst, String::from_str("DNS"), false, segment)),
        }
    } else {
        Some(summary(PacketKind::Udp, src, dst, String::from_str("-"), false, segment))
    }
}

/// The description of an ICMP message.
pub fn describe_icmp(icmp_type: u8, code: u8) -> (s: String)
    ensures
        s@ == icmp_text(icmp_type, code),
{
    if icmp_type == 0 {
        String::from_str("Echo Reply (0)")
    } else if icmp_type == 3 {
        let mut s = String::from_str("Dest Unreachable (");
        push_byte_text(&mut s, code);
        s.append(")");
        s
    } else if icmp_type == 8 {
        String::from_str("Echo Request (8)")
    } else if icmp_type == 11 {
        String::from_str("Time Exceeded")
    } else {
        let mut s = String::from_str("Type ");
        push_byte_text(&mut s, icmp_type);
        s
    }
}

/// The description of an ICMPv6 message.
pub fn describe_icmpv6(icmp_type: u8) -> (s: String)
    ensures
        s@ == icmpv6_text(icmp_type),
{
    if icmp_type == 1 {
        String::from_str("Dest Unreachable")
    } else if icmp_type == 2 {
        String::from_str("Packet Too Big")
    } else if icmp_type == 3 {
        String::from_str("Time Exceeded")
    } else if icmp_type == 128 {
        String::from_str("Echo Request (Ping)")
    } else if icmp_type == 129 {
        String::from_str("Echo Reply (Ping)")
    } else if icmp_type == 133 {
        String::from_str("Router Solicitation")
    } else if icmp_type == 134 {
        String::from_str("Router Advertisement")
    } else if icmp_type == 135 {
        String::from_str("Neighbor Solicitation")
    } else if icmp_type == 136 {
        String::from_str("Neighbor Advertisement")
    } else {
        let mut s = String::from_str("Type ");
        push_byte_text(&mut s, icmp_type);
        s
    }
}

/// Describes an ICMP message (ICMPv6 with `v6`) between two addresses.
pub fn summarize_icmp(src_ip: &str, dst_ip: &str, segment: &[u8], v6: bool) -> (r: Option<PacketSummary>)
    ensures
        summary_is(r, icmp_summary(src_ip@, dst_ip@, segment@, v6)),
{
    let (header, _rest) = match IcmpHeader::parse(segment) {
        Ok(res) => res,
        Err(_) => {
            return None;
        },
    };
    let src = String::from_str(src_ip);
    let dst = String::from_str(dst_ip);
    if v6 {
        Some(summary(PacketKind::Icmp6, src, dst, describe_icmpv6(header.icmp_type()), false, segment))
    } else {
        Some(summary(PacketKind::Icmp, src, dst, describe_icmp(header.icmp_type(), header.code()), false, segment))
    }
}

/// Describes an ARP packet: who asks for whom, or who answers with which address.
pub fn summarize_arp(payload: &[u8]) -> (r: Option<PacketSummary>)
    ensures
        summary_is(r, arp_summary(payload@)),
{
    let arp = match ArpPacket::parse(payload) {
        Ok(res) => res,
        Err(_) => {
            return None;
        },
    };
    let opcode = arp.opcode();
    let sender_ip = arp.sender_ip().to_string();
    let sender_mac = arp.sender_mac().to_string();
    let info = if opcode == 1 {
        let mut s = String::from_str("Who has ");
        s.append(arp.target_ip().to_string().as_str());
        s.append("? Tell ");
        s.append(sender_ip.as_str());
        s
    } else if opcode == 2 {
        let mut s = sender_ip;
        s.append(" is at ");
        s.append(sender_mac.as_str());
        s
    } else {
        let mut s = String::from_str("Opcode ");
        push_u16_text(&mut s, opcode);
        s
    };
    let target_mac = arp.target_mac().to_string();
    proof {
        assert(payload@.subrange(0, 28).subrange(8, 14) =~= payload@.subrange(8, 14));
        assert(payload@.subrange(0, 28).subrange(14, 18) =~= payload@.subrange(14, 18));
        assert(payload@.subrange(0, 28).subrange(18, 24) =~= payload@.subrange(18, 24));
        assert(payload@.subrange(0, 28).subrange(24, 28) =~= payload@.subrange(24, 28));
    }
    Some(summary(PacketKind::Arp, sender_mac, target_mac, info, false, payload))
}

/// Decodes a captured Ethernet frame down to what the analyzer shows of it.
pub fn dissect(packet: &[u8]) -> (r: Option<PacketSummary>)
    requires
        !packet_overruns_tls_reader(packet@),
    ensures
        summary_is(r, packet_summary(packet@)),
{
    let (frame, payload) = match EthernetFrame::parse(packet) {
        Ok(res) => res,
        Err(_) => {
            return None;
        },
    };
    proof {
        assert(packet@.subrange(0, 14)[12] == packet@[12]);
        assert(packet@.subrange(0, 14)[13] == packet@[13]);
        assert(payload@ =~= packet@.skip(14));
    }
    match frame.ethertype() {
        EtherType::Ipv4 => {
            let (header, segment) = match Ipv4Header::parse(payload) {
                Ok(res) => res,
                Err(_) => {
                    return None;
                },
            };
            let src_ip = header.source().to_string();
            let dst_ip = header.destination().to_string();
            proof {
                let hl = ipv4_header_len(payload@[0]);
                assert(payload@.subrange(0, hl).subrange(12, 16) =~= payload@.subrange(12, 16));
                assert(payload@.subrange(0, hl).subrange(16, 20) =~= payload@.subrange(16, 20));
                assert(segment@ =~= payload@.skip(hl));
            }
            let protocol = header.protocol();
            if protocol == 6 {
                summarize_tcp(src_ip.as_str(), dst_ip.as_str(), segment)
            } else if protocol == 17 {
                summarize_udp(src_ip.as_str(), dst_ip.as_str(), segment)
            } else if protocol == 1 {
                summarize_icmp(src_ip.as_str(), dst_ip.as_str(), segment, false)
            } else {
                None
            }
        },
        EtherType::Ipv6 => {
            let (header, segment) = match Ipv6Header::parse(payload) {
                Ok(res) => res,
                Err(_) => {
                    return None;
                },
            };
            let src_ip = header.source().to_string();
            let dst_ip = header.destination().to_string();
            proof {
                assert(payload@.subrange(0, 40).subrange(8, 24) =~= payload@.subrange(8, 24));
                assert(payload@.subrange(0, 40).subrange(24, 40) =~= payload@.subrange(24, 40));
                assert(segment@ =~= payload@.skip(40));
            }
            let next = header.next_header();
            if next == 6 {
                summarize_tcp(src_ip.as_str(), dst_ip.as_str(), segment)
            } else if next == 17 {
                summarize_udp(src_ip.as_str(), dst_ip.as_str(), segment)
            } else if next == 58 {
                summarize_icmp(src_ip.as_str(), dst_ip.as_str(), segment, true)
            } else {
                None
            }
        },
        EtherType::Arp => summarize_arp(payload),
        EtherType::Other(_) => None,
    }
}

} // verus!
