use netzer::arp::ArpPacket;
use netzer::error::ParseError;
use netzer::ethernet::{EtherType, EthernetFrame};
use netzer::icmp::IcmpHeader;
use netzer::ipv4::{Ipv4Address, Ipv4Header};
use netzer::ipv6::{Ipv6Address, Ipv6Header};
use netzer::mac::MacAddress;
use netzer::tcp::TcpHeader;
use netzer::udp::UdpHeader;

#[test]
fn test_ethernet_parse_success() {
    // Dummy Ethernet frame (14 bytes) + 4 bytes payload
    // Dest MAC: 00:11:22:33:44:55
    // Src MAC:  aa:bb:cc:dd:ee:ff
    // EtherType: 0x0800 (IPv4)
    // Payload: 0xde, 0xad, 0xbe, 0xef
    let data: [u8; 18] = [
        0x00, 0x11, 0x22, 0x33, 0x44, 0x55,
        0xaa, 0xbb, 0xcc, 0xdd, 0xee, 0xff,
        0x08, 0x00,
        0xde, 0xad, 0xbe, 0xef,
    ];

    let (frame, payload) = EthernetFrame::parse(&data).expect("Parsing failed");

    assert_eq!(frame.destination(), MacAddress([0x00, 0x11, 0x22, 0x33, 0x44, 0x55]));
    assert_eq!(frame.source(), MacAddress([0xaa, 0xbb, 0xcc, 0xdd, 0xee, 0xff]));
    assert_eq!(frame.ethertype(), EtherType::Ipv4);
    assert_eq!(payload, &[0xde, 0xad, 0xbe, 0xef]);
}

#[test]
fn test_ethernet_parse_too_short() {
    let data: [u8; 10] = [0; 10]; // Too short for a 14-byte header
    let result = EthernetFrame::parse(&data);
    assert_eq!(result.err(), Some(ParseError::BufferTooShort));
}

#[test]
fn test_mac_display() {
    let mac = MacAddress([0x00, 0x1A, 0x2B, 0x3C, 0x4D, 0x5E]);
    assert_eq!(mac.to_string(), "00:1a:2b:3c:4d:5e");
}

#[test]
fn ethertype_values() {
    assert_eq!(EtherType::from(0x0800), EtherType::Ipv4);
    assert_eq!(EtherType::from(0x0806), EtherType::Arp);
    assert_eq!(EtherType::from(0x86DD), EtherType::Ipv6);
    assert_eq!(EtherType::from(0x1234), EtherType::Other(0x1234));
    let data: [u8; 14] = [0; 14];
    let (frame, payload) = EthernetFrame::parse(&data).unwrap();
    assert_eq!(frame.ethertype(), EtherType::Other(0));
    assert!(payload.is_empty());
}

#[test]
fn ipv4_header_with_options_and_payload() {
    let mut data = vec![0u8; 28];
    data[0] = 0x46; // version 4, IHL 6 (24 bytes)
    data[9] = 17;
    data[12..16].copy_from_slice(&[192, 168, 1, 10]);
    data[16..20].copy_from_slice(&[8, 8, 4, 4]);
    data[24..28].copy_from_slice(&[1, 2, 3, 4]);
    let (header, payload) = Ipv4Header::parse(&data).unwrap();
    assert_eq!(header.source(), Ipv4Address([192, 168, 1, 10]));
    assert_eq!(header.destination(), Ipv4Address([8, 8, 4, 4]));
    assert_eq!(header.protocol(), 17);
    assert_eq!(payload, &[1, 2, 3, 4]);
    assert_eq!(header.source().to_string(), "192.168.1.10");
    assert_eq!(Ipv4Address([0, 0, 255, 1]).to_string(), "0.0.255.1");
}

#[test]
fn ipv4_header_errors() {
    assert_eq!(Ipv4Header::parse(&[0x45; 19]).err(), Some(ParseError::BufferTooShort));
    let mut data = vec![0u8; 20];
    data[0] = 0x44; // IHL 4: 16 bytes, below the minimum
    assert_eq!(Ipv4Header::parse(&data).err(), Some(ParseError::InvalidFormat));
    data[0] = 0x4f; // IHL 15: 60 bytes, longer than the buffer
    assert_eq!(Ipv4Header::parse(&data).err(), Some(ParseError::InvalidFormat));
}

#[test]
fn ipv6_header_fields() {
    let mut data = vec![0u8; 42];
    data[0] = 0x60;
    data[6] = 58;
    data[8] = 0xfe;
    data[9] = 0x80;
    data[23] = 1;
    data[24] = 0x20;
    data[25] = 0x01;
    data[39] = 0xab;
    data[40] = 9;
    data[41] = 9;
    let (header, payload) = Ipv6Header::parse(&data).unwrap();
    assert_eq!(header.next_header(), 58);
    assert_eq!(header.source().to_string(), "fe80:0000:0000:0000:0000:0000:0000:0001");
    assert_eq!(header.destination().to_string(), "2001:0000:0000:0000:0000:0000:0000:00ab");
    assert_eq!(payload, &[9, 9]);
    let mut expected = [0u8; 16];
    expected[0] = 0xfe;
    expected[1] = 0x80;
    expected[15] = 1;
    assert_eq!(header.source(), Ipv6Address(expected));
    assert_eq!(Ipv6Header::parse(&data[..39]).err(), Some(ParseError::BufferTooShort));
}

#[test]
fn tcp_header_ports_and_errors() {
    let mut data = vec![0u8; 24];
    data[0] = 0x1f;
    data[1] = 0x90; // 8080
    data[2] = 0x01;
    data[3] = 0xbb; // 443
    data[12] = 0x50; // data offset 5
    let (header, payload) = TcpHeader::parse(&data).unwrap();
    assert_eq!(header.source_port(), 8080);
    assert_eq!(header.destination_port(), 443);
    assert_eq!(payload.len(), 4);
    data[12] = 0x60; // 24-byte header
    let (_, payload) = TcpHeader::parse(&data).unwrap();
    assert!(payload.is_empty());
    data[12] = 0x70; // 28 bytes: longer than the buffer
    assert_eq!(TcpHeader::parse(&data).err(), Some(ParseError::InvalidFormat));
    data[12] = 0x40; // 16 bytes: below the minimum
    assert_eq!(TcpHeader::parse(&data).err(), Some(ParseError::InvalidFormat));
    assert_eq!(TcpHeader::parse(&data[..19]).err(), Some(ParseError::BufferTooShort));
}

#[test]
fn udp_and_icmp_headers() {
    let data = [0x00, 0x35, 0xc3, 0x50, 0, 12, 0, 0, 7, 7, 7, 7];
    let (udp, payload) = UdpHeader::parse(&data).unwrap();
    assert_eq!(udp.source_port(), 53);
    assert_eq!(udp.destination_port(), 50000);
    assert_eq!(payload, &[7, 7, 7, 7]);
    assert_eq!(UdpHeader::parse(&data[..7]).err(), Some(ParseError::BufferTooShort));

    let icmp = [3u8, 1, 0, 0, 0, 0, 0, 0, 0x45];
    let (header, rest) = IcmpHeader::parse(&icmp).unwrap();
    assert_eq!(header.icmp_type(), 3);
    assert_eq!(header.code(), 1);
    assert_eq!(rest, &[0x45]);
    assert_eq!(IcmpHeader::parse(&icmp[..7]).err(), Some(ParseError::BufferTooShort));
}

#[test]
fn arp_packet_fields() {
    let mut data = vec![0u8; 30];
    data[0..2].copy_from_slice(&[0, 1]);
    data[2..4].copy_from_slice(&[0x08, 0x00]);
    data[6..8].copy_from_slice(&[0, 2]);
    data[8..14].copy_from_slice(&[1, 2, 3, 4, 5, 6]);
    data[14..18].copy_from_slice(&[10, 0, 0, 1]);
    data[18..24].copy_from_slice(&[0xa, 0xb, 0xc, 0xd, 0xe, 0xf]);
    data[24..28].copy_from_slice(&[10, 0, 0, 2]);
    let arp = ArpPacket::parse(&data).unwrap();
    assert_eq!(arp.hardware_type(), 1);
    assert_eq!(arp.protocol_type(), 0x0800);
    assert_eq!(arp.opcode(), 2);
    assert_eq!(arp.sender_mac(), MacAddress([1, 2, 3, 4, 5, 6]));
    assert_eq!(arp.sender_ip(), Ipv4Address([10, 0, 0, 1]));
    assert_eq!(arp.target_mac(), MacAddress([0xa, 0xb, 0xc, 0xd, 0xe, 0xf]));
    assert_eq!(arp.target_ip(), Ipv4Address([10, 0, 0, 2]));
    assert!(matches!(ArpPacket::parse(&data[..27]), Err(ParseError::BufferTooShort)));
}

#[test]
fn parse_error_messages() {
    assert_eq!(ParseError::BufferTooShort.to_string(), "buffer is too short to parse the header");
    assert_eq!(ParseError::InvalidFormat.to_string(), "invalid header format");
}
