use netzer::dissect::PacketKind;
use netzer::records::counts_destination;
use netzer::style::{badge_tint, label_tint, log_info, log_info_is_cuttable, log_label, log_tints, Tint};

#[test]
fn feed_and_badge_styles() {
    assert_eq!(label_tint("TCP"), Tint::BrightCyanBold);
    assert_eq!(label_tint("UDP"), Tint::BlueBold);
    assert_eq!(label_tint("TLS"), Tint::BrightMagentaBold);
    assert_eq!(label_tint("DNS"), Tint::BrightYellowBold);
    assert_eq!(label_tint("HTTP"), Tint::BrightGreenBold);
    assert_eq!(label_tint("ARP"), Tint::Yellow);
    assert_eq!(label_tint("ICMP"), Tint::BrightRedBold);
    assert_eq!(label_tint("ICMP6"), Tint::BrightRedBold);
    assert_eq!(label_tint("tcp"), Tint::White);
    assert_eq!(badge_tint("ICMP"), Tint::White);
    assert_eq!(badge_tint("ICMP6"), Tint::White);
    assert_eq!(badge_tint("HTTP"), Tint::BrightGreenBold);
    assert_eq!(badge_tint("X"), Tint::White);
}

#[test]
fn log_line_styles() {
    assert_eq!(log_tints(PacketKind::Tcp, "[ENCRYPTED]"), (Tint::BrightCyanBold, Tint::BrightBlack));
    assert_eq!(log_tints(PacketKind::Tls, "example.com"), (Tint::BrightMagentaBold, Tint::BrightMagentaBold));
    assert_eq!(log_tints(PacketKind::Tls, "[ENCRYPTED]"), (Tint::BrightMagentaBold, Tint::BrightBlack));
    assert_eq!(log_tints(PacketKind::Http, "GET /"), (Tint::BrightGreenBold, Tint::BrightGreen));
    assert_eq!(log_tints(PacketKind::Udp, "-"), (Tint::BrightBlueBold, Tint::BrightBlack));
    assert_eq!(log_tints(PacketKind::Dns, "DNS: a.b"), (Tint::BrightBlueBold, Tint::BrightYellowBold));
    assert_eq!(log_tints(PacketKind::Icmp6, "Type 200"), (Tint::BrightRedBold, Tint::BrightRed));
    assert_eq!(log_tints(PacketKind::Arp, "Opcode 9"), (Tint::BrightYellowBold, Tint::BrightYellow));
    assert_eq!(log_label(PacketKind::Dns), "UDP");
    assert_eq!(log_label(PacketKind::Icmp6), "ICMP6");
    assert_eq!(log_label(PacketKind::Tls), "TLS");
}

#[test]
fn log_descriptions_and_destinations() {
    let long = "Who has 192.168.100.200? Tell 192.168.100.201";
    assert!(log_info_is_cuttable(PacketKind::Arp, long));
    assert_eq!(log_info(PacketKind::Arp, long), "Who has 192.168.100.200? Tell 192.…");
    assert_eq!(log_info(PacketKind::Http, long), long);
    assert_eq!(log_info(PacketKind::Arp, "Opcode 3"), "Opcode 3");
    assert!(!log_info_is_cuttable(PacketKind::Arp, &"é".repeat(40)));
    assert!(log_info_is_cuttable(PacketKind::Dns, &"é".repeat(40)));
    assert!(counts_destination(PacketKind::Tcp));
    assert!(counts_destination(PacketKind::Icmp6));
    assert!(!counts_destination(PacketKind::Arp));
}
