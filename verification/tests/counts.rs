use netzer::dashboard::{percent, uptime, Dashboard, PacketRow, MAX_ROWS, RATE_WINDOW};
use netzer::tally::Tally;

fn row(proto: &str, dst: &str, size: usize) -> PacketRow {
    PacketRow {
        timestamp: "12:00:00.000".to_string(),
        proto: proto.to_string(),
        src: "10.0.0.1:1234".to_string(),
        dst: dst.to_string(),
        info: "-".to_string(),
        size,
        payload: vec![1, 2, 3],
    }
}

#[test]
fn tally_counts_each_key() {
    let mut t = Tally::new();
    assert_eq!(t.count("TCP"), 0);
    t.bump("TCP");
    t.bump("UDP");
    t.bump("TCP");
    assert_eq!(t.count("TCP"), 2);
    assert_eq!(t.count("UDP"), 1);
    assert_eq!(t.count("ARP"), 0);
}

#[test]
fn tally_max_count_is_at_least_one() {
    let mut t = Tally::new();
    assert_eq!(t.max_count(), 1);
    t.bump("DNS");
    t.bump("DNS");
    t.bump("DNS");
    t.bump("TLS");
    assert_eq!(t.max_count(), 3);
}

#[test]
fn tally_top_orders_by_count() {
    let mut t = Tally::new();
    for _ in 0..2 {
        t.bump("1.1.1.1:53");
    }
    for _ in 0..5 {
        t.bump("8.8.8.8:443");
    }
    t.bump("9.9.9.9:80");
    for _ in 0..2 {
        t.bump("4.4.4.4:22");
    }
    let top = t.top(3);
    assert_eq!(top.len(), 3);
    assert_eq!(top[0], ("8.8.8.8:443".to_string(), 5));
    assert_eq!(top[1].1, 2);
    assert_eq!(top[2].1, 2);
    assert!(top[1..].contains(&("1.1.1.1:53".to_string(), 2)));
    assert!(top[1..].contains(&("4.4.4.4:22".to_string(), 2)));
    assert!(t.top(0).is_empty());
    assert_eq!(t.top(10).len(), 4);
}

#[test]
fn dashboard_starts_empty() {
    let d = Dashboard::new("eth0");
    assert_eq!(d.interface, "eth0");
    assert_eq!(d.total_packets, 0);
    assert_eq!(d.total_bytes, 0);
    assert!(d.packets.is_empty());
    assert_eq!(d.rates, vec![0usize; RATE_WINDOW]);
    assert_eq!(d.packets_this_sec, 0);
}

#[test]
fn dashboard_record_updates_totals() {
    let mut d = Dashboard::new("lo");
    d.record(row("TCP", "1.2.3.4:443", 60), true);
    d.record(row("ARP", "ff:ff:ff:ff:ff:ff", 42), false);
    d.record(row("TCP", "1.2.3.4:443", 100), true);
    assert_eq!(d.total_packets, 3);
    assert_eq!(d.total_bytes, 202);
    assert_eq!(d.packets_this_sec, 3);
    assert_eq!(d.proto_counts.count("TCP"), 2);
    assert_eq!(d.proto_counts.count("ARP"), 1);
    assert_eq!(d.ip_stats.count("1.2.3.4:443"), 2);
    assert_eq!(d.ip_stats.count("ff:ff:ff:ff:ff:ff"), 0);
    assert_eq!(d.packets[0].size, 100);
    assert_eq!(d.packets[1].proto, "ARP");
    assert_eq!(d.packets[2].size, 60);
}

#[test]
fn dashboard_feed_keeps_newest_hundred() {
    let mut d = Dashboard::new("lo");
    for i in 0..150usize {
        d.record(row("UDP", "5.5.5.5:53", i), true);
    }
    assert_eq!(d.packets.len(), MAX_ROWS);
    assert_eq!(d.packets[0].size, 149);
    assert_eq!(d.packets[MAX_ROWS - 1].size, 50);
    assert_eq!(d.total_packets, 150);
}

#[test]
fn dashboard_tick_keeps_twenty_seconds() {
    let mut d = Dashboard::new("lo");
    d.record(row("UDP", "5.5.5.5:53", 10), true);
    d.record(row("UDP", "5.5.5.5:53", 10), true);
    d.tick();
    assert_eq!(d.packets_this_sec, 0);
    assert_eq!(d.rates.len(), RATE_WINDOW);
    assert_eq!(d.rates[RATE_WINDOW - 1], 2);
    assert_eq!(d.rates[0], 0);
    d.tick();
    assert_eq!(d.rates.len(), RATE_WINDOW);
    assert_eq!(d.rates[RATE_WINDOW - 2], 2);
    assert_eq!(d.rates[RATE_WINDOW - 1], 0);
}

#[test]
fn protocol_counts_add_up_to_total() {
    let mut d = Dashboard::new("lo");
    let labels = ["TCP", "UDP", "DNS", "TLS", "HTTP", "ARP", "ICMP", "ICMP6"];
    for (i, l) in labels.iter().enumerate() {
        for _ in 0..=i {
            d.record(row(l, "7.7.7.7:7", 1), *l != "ARP");
        }
    }
    let sum: usize = labels.iter().map(|l| d.proto_counts.count(l)).sum();
    assert_eq!(sum, d.total_packets);
    assert_eq!(d.total_packets, 36);
    assert_eq!(d.ip_stats.count("7.7.7.7:7"), 36 - 6);
}

#[test]
fn shares_and_uptime() {
    assert_eq!(percent(3, 4), 75);
    assert_eq!(percent(1, 3), 33);
    assert_eq!(percent(5, 0), 0);
    assert_eq!(percent(0, 7), 0);
    assert_eq!(uptime(0), "00:00:00");
    assert_eq!(uptime(3725), "01:02:05");
    assert_eq!(uptime(359999), "99:59:59");
    assert_eq!(uptime(360000), "100:00:00");
}
