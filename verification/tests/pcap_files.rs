use netzer::pcap::{file_header, record_header};

#[test]
fn pcap_file_header_in_both_orders() {
    assert_eq!(
        file_header(false),
        vec![0xd4, 0xc3, 0xb2, 0xa1, 2, 0, 4, 0, 0, 0, 0, 0, 0, 0, 0, 0, 0xff, 0xff, 0, 0, 1, 0, 0, 0]
    );
    assert_eq!(
        file_header(true),
        vec![0xa1, 0xb2, 0xc3, 0xd4, 0, 2, 0, 4, 0, 0, 0, 0, 0, 0, 0, 0, 0, 0, 0xff, 0xff, 0, 0, 0, 1]
    );
}

#[test]
fn pcap_record_header_fields() {
    let h = record_header(0x6553_f100, 123_456, 60, false);
    assert_eq!(h, vec![0x00, 0xf1, 0x53, 0x65, 0x40, 0xe2, 0x01, 0x00, 60, 0, 0, 0, 60, 0, 0, 0]);
    let h = record_header(1, 2, 1514, true);
    assert_eq!(h, vec![0, 0, 0, 1, 0, 0, 0, 2, 0, 0, 0x05, 0xea, 0, 0, 0x05, 0xea]);
}

#[test]
fn pcap_headers_match_native_encoding() {
    let big = 1u16.to_ne_bytes()[0] == 0;
    let mut expected = Vec::new();
    expected.extend_from_slice(&0xa1b2c3d4u32.to_ne_bytes());
    expected.extend_from_slice(&2u16.to_ne_bytes());
    expected.extend_from_slice(&4u16.to_ne_bytes());
    expected.extend_from_slice(&[0u8; 8]);
    expected.extend_from_slice(&65535u32.to_ne_bytes());
    expected.extend_from_slice(&1u32.to_ne_bytes());
    assert_eq!(file_header(big), expected);
    let mut rec = Vec::new();
    for v in [77u32, 999_999, 42, 42] {
        rec.extend_from_slice(&v.to_ne_bytes());
    }
    assert_eq!(record_header(77, 999_999, 42, big), rec);
}
