//! Packet dissection for Ethernet, ARP, IPv4, IPv6, TCP, UDP, ICMP, DNS and
//! TLS, TCP stream reassembly and the text rendering used by the analyzer.

pub mod error;
pub mod wire;
pub mod textfmt;
pub mod mac;
pub mod ethernet;
pub mod arp;
pub mod ipv4;
pub mod ipv6;
pub mod tcp;
pub mod udp;
pub mod icmp;
pub mod dns;
pub mod tls;
pub mod hexdump;
pub mod tcp_stream;
pub mod display;
pub mod http;
pub mod dissect;
pub mod records;
pub mod sha1;
pub mod websocket;
pub mod bpf;
pub mod privilege;
pub mod tally;
pub mod dashboard;
pub mod pcap;
pub mod style;
