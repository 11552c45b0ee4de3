//! The lines the analyzer writes about each frame: protocol labels, the
//! description shown, JSON lines for export and messages for the live view.
use vstd::prelude::*;
use crate::dissect::{PacketKind, PacketSummary, SummaryView};
use crate::display::{escape_json, json_escaped, truncate, truncate_is_safe, truncated, truncation_is_safe};
use crate::textfmt::{dec_text, push_decimal};

verus! {

/// Characters of a TLS server name that are shown.
pub const SNI_SHOWN: usize = 35;
/// Characters of a DNS query name that are shown.
pub const DNS_NAME_SHOWN: usize = 30;

/// The label shown and broadcast for a kind of frame.
pub open spec fn display_label_text(kind: PacketKind) -> Seq<char> {
    match kind {
        PacketKind::Tcp => "TCP"@,
        PacketKind::Tls => "TLS"@,
        PacketKind::Http => "HTTP"@,
        PacketKind::Udp => "UDP"@,
        PacketKind::Dns => "DNS"@,
        PacketKind::Icmp => "ICMP"@,
        PacketKind::Icmp6 => "ICMP6"@,
        PacketKind::Arp => "ARP"@,
    }
}

/// The label written to the JSON export: DNS is logged as UDP, and ICMPv6 as `ICMPv6`.
pub open spec fn json_label_text(kind: PacketKind) -> Seq<char> {
    match kind {
        PacketKind::Dns => "UDP"@,
        PacketKind::Icmp6 => "ICMPv6"@,
        _ => display_label_text(kind),
    }
}

/// The label shown and broadcast for a kind of frame.
pub fn display_label(kind: PacketKind) -> (s: &'static str)
    ensures
        s@ == display_label_text(kind),
{
    match kind {
        PacketKind::Tcp => "TCP",
        PacketKind::Tls => "TLS",
        PacketKind::Http => "HTTP",
        PacketKind::Udp => "UDP",
        PacketKind::Dns => "DNS",
        PacketKind::Icmp => "ICMP",
        PacketKind::Icmp6 => "ICMP6",
        PacketKind::Arp => "ARP",
    }
}

/// The label written to the JSON export.
pub fn json_label(kind: PacketKind) -> (s: &'static str)
    ensures
        s@ == json_label_text(kind),
{
    match kind {
        PacketKind::Dns => "UDP",
        PacketKind::Icmp6 => "ICMPv6",
        _ => display_label(kind),
    }
}

/// The description of a frame as shown: a TLS server name cut to 35
/// characters, a DNS query name cut to 30 after `DNS: `, other details as they are.
pub open spec fn info_of(v: SummaryView) -> Seq<char> {
    if v.4 {
        if v.0 == PacketKind::Tls {
            truncated(v.3, SNI_SHOWN as nat)
        } else {
            "DNS: "@ + truncated(v.3, DNS_NAME_SHOWN as nat)
        }
    } else {
        v.3
    }
}

/// Whether the name in a summary can be cut for display.
pub open spec fn info_is_showable(v: SummaryView) -> bool {
    v.4 ==> truncation_is_safe(v.3, if v.0 == PacketKind::Tls { SNI_SHOWN as nat } else { DNS_NAME_SHOWN as nat })
}

/// Whether `info_text` can be called on `s`.
pub fn info_showable(s: &PacketSummary) -> (r: bool)
    ensures
        r == info_is_showable(s@),
{
    if s.detail_is_name {
        let limit = if s.kind == PacketKind::Tls { SNI_SHOWN } else { DNS_NAME_SHOWN };
        truncate_is_safe(s.detail.as_str(), limit)
    } else {
        true
    }
}

/// The description shown for a frame.
pub fn info_text(s: &PacketSummary) -> (out: String)
    requires
        info_is_showable(s@),
    ensures
        out@ == info_of(s@),
{
    if s.detail_is_name {
        if s.kind == PacketKind::Tls {
            truncate(s.detail.as_str(), SNI_SHOWN)
        } else {
            let mut out = String::from_str("DNS: ");
            let name = truncate(s.detail.as_str(), DNS_NAME_SHOWN);
            out.append(name.as_str());
            out
        }
    } else {
        s.detail.clone()
    }
}

/// The fields shared by the export line and the live message, up to the size:
/// `{"timestamp":"…","proto":"…","src":"…","dst":"…","info":"…","size":N`.
pub open spec fn record_fields(time: Seq<char>, proto: Seq<char>, src: Seq<char>, dst: Seq<char>, info: Seq<char>, size: nat) -> Seq<char> {
    "{\"timestamp\":\""@ + json_escaped(time) + "\",\"proto\":\""@ + json_escaped(proto) + "\",\"src\":\""@
        + json_escaped(src) + "\",\"dst\":\""@ + json_escaped(dst) + "\",\"info\":\""@ + json_escaped(info)
        + "\",\"size\":"@ + dec_text(size)
}

fn push_record_fields(out: &mut String, time: &str, proto: &str, src: &str, dst: &str, info: &str, size: usize)
    ensures
        final(out)@ == old(out)@ + record_fields(time@, proto@, src@, dst@, info@, size as nat),
{
    let ghost start = out@;
    out.append("{\"timestamp\":\"");
    out.append(escape_json(time).as_str());
    out.append("\",\"proto\":\"");
    out.append(escape_json(proto).as_str());
    out.append("\",\"src\":\"");
    out.append(escape_json(src).as_str());
    out.append("\",\"dst\":\"");
    out.append(escape_json(dst).as_str());
    out.append("\",\"info\":\"");
    out.append(escape_json(info).as_str());
    out.append("\",\"size\":");
    push_decimal(out, size as u64);
    assert(out@ =~= start + record_fields(time@, proto@, src@, dst@, info@, size as nat));
}

/// One line of the JSON export: the record fields, `}` and a newline.
pub fn json_line(time: &str, proto: &str, src: &str, dst: &str, info: &str, size: usize) -> (line: String)
    ensures
        line@ == record_fields(time@, proto@, src@, dst@, info@, size as nat) + "}\n"@,
{
    let mut line = String::new();
    push_record_fields(&mut line, time, proto, src, dst, info, size);
    line.append("}\n");
    assert(line@ =~= record_fields(time@, proto@, src@, dst@, info@, size as nat) + "}\n"@);
    line
}

/// One message of the live view: the record fields and the raw frame in hexadecimal.
pub fn live_message(time: &str, proto: &str, src: &str, dst: &str, info: &str, size: usize, raw_hex: &str) -> (msg: String)
    ensures
        msg@ == record_fields(time@, proto@, src@, dst@, info@, size as nat) + ",\"payload\":\""@ + raw_hex@ + "\"}"@,
{
    let mut msg = String::new();
    push_record_fields(&mut msg, time, proto, src, dst, info, size);
    msg.append(",\"payload\":\"");
    msg.append(raw_hex);
    msg.append("\"}");
    assert(msg@ =~= record_fields(time@, proto@, src@, dst@, info@, size as nat) + ",\"payload\":\""@ + raw_hex@ + "\"}"@);
    msg
}

/// Whether a frame of `kind` counts toward the destination statistics:
/// every kind but ARP, whose endpoints are hardware addresses.
pub open spec fn counts_destination_of(kind: PacketKind) -> bool {
    kind != PacketKind::Arp
}

/// Whether a frame of `kind` counts toward the destination statistics.
pub fn counts_destination(kind: PacketKind) -> (r: bool)
    ensures
        r == counts_destination_of(kind),
{
    match kind {
        PacketKind::Arp => false,
        _ => true,
    }
}

} // verus!
