//! Which terminal style the analyzer gives each protocol and description: on
//! the dashboard feed, on the metrics badges, and on the log lines.
use vstd::prelude::*;
use crate::dissect::PacketKind;
use crate::records::{display_label, display_label_text};
use crate::textfmt::{chars_of, text_is};
use crate::display::{truncate, truncate_is_safe, truncated, truncation_is_safe};

verus! {

/// A terminal text style.
#[derive(Debug, Clone, Copy, PartialEq, Eq, Structural)]
pub enum Tint {
    White,
    Yellow,
    BrightYellow,
    BrightYellowBold,
    BrightGreen,
    BrightGreenBold,
    BrightCyanBold,
    BlueBold,
    BrightBlueBold,
    BrightMagentaBold,
    BrightRed,
    BrightRedBold,
    BrightBlack,
}

/// The style of a protocol label in the dashboard feed.
pub open spec fn label_tint_of(p: Seq<char>) -> Tint {
    if p == "TCP"@ {
        Tint::BrightCyanBold
    } else if p == "UDP"@ {
        Tint::BlueBold
    } else if p == "TLS"@ {
        Tint::BrightMagentaBold
    } else if p == "DNS"@ {
        Tint::BrightYellowBold
    } else if p == "HTTP"@ {
        Tint::BrightGreenBold
    } else if p == "ARP"@ {
        Tint::Yellow
    } else if p == "ICMP"@ || p == "ICMP6"@ {
        Tint::BrightRedBold
    } else {
        Tint::White
    }
}

/// The style of a protocol badge in the metrics panel: as in the feed, but
/// ICMP badges are plain white.
pub open spec fn badge_tint_of(p: Seq<char>) -> Tint {
    if p == "ICMP"@ || p == "ICMP6"@ {
        Tint::White
    } else {
        label_tint_of(p)
    }
}

/// The protocol column of a log line: DNS is logged under UDP.
pub open spec fn log_label_text(kind: PacketKind) -> Seq<char> {
    if kind == PacketKind::Dns {
        "UDP"@
    } else {
        display_label_text(kind)
    }
}

/// The styles of a log line: its protocol column, and its description `info`.
pub open spec fn log_tints_of(kind: PacketKind, info: Seq<char>) -> (Tint, Tint) {
    match kind {
        PacketKind::Tcp | PacketKind::Tls | PacketKind::Http => {
            let proto = if kind == PacketKind::Tls {
                Tint::BrightMagentaBold
            } else if kind == PacketKind::Http {
                Tint::BrightGreenBold
            } else {
                Tint::BrightCyanBold
            };
            let text = if info == "[ENCRYPTED]"@ {
                Tint::BrightBlack
            } else if kind == PacketKind::Http {
                Tint::BrightGreen
            } else {
                Tint::BrightMagentaBold
            };
            (proto, text)
        },
        PacketKind::Udp | PacketKind::Dns => {
            (Tint::BrightBlueBold, if kind == PacketKind::Dns { Tint::BrightYellowBold } else { Tint::BrightBlack })
        },
        PacketKind::Icmp | PacketKind::Icmp6 => (Tint::BrightRedBold, Tint::BrightRed),
        PacketKind::Arp => (Tint::BrightYellowBold, Tint::BrightYellow),
    }
}

/// The style of the protocol label `p` in the dashboard feed.
pub fn label_tint(p: &str) -> (t: Tint)
    ensures
        t == label_tint_of(p@),
{
    let v = chars_of(p);
    if text_is(&v, "TCP") {
        Tint::BrightCyanBold
    } else if text_is(&v, "UDP") {
        Tint::BlueBold
    } else if text_is(&v, "TLS") {
        Tint::BrightMagentaBold
    } else if text_is(&v, "DNS") {
        Tint::BrightYellowBold
    } else if text_is(&v, "HTTP") {
        Tint::BrightGreenBold
    } else if text_is(&v, "ARP") {
        Tint::Yellow
    } else if text_is(&v, "ICMP") || text_is(&v, "ICMP6") {
        Tint::BrightRedBold
    } else {
        Tint::White
    }
}

/// The style of the protocol badge `p` in the metrics panel.
pub fn badge_tint(p: &str) -> (t: Tint)
    ensures
        t == badge_tint_of(p@),
{
    let v = chars_of(p);
    if text_is(&v, "ICMP") || text_is(&v, "ICMP6") {
        Tint::White
    } else {
        label_tint(p)
    }
}

/// The protocol column of a log line for a frame of `kind`.
pub fn log_label(kind: PacketKind) -> (s: &'static str)
    ensures
        s@ == log_label_text(kind),
{
    match kind {
        PacketKind::Dns => "UDP",
        _ => display_label(kind),
    }
}

/// The styles of the log line of a frame of `kind` described by `info`.
pub fn log_tints(kind: PacketKind, info: &str) -> (t: (Tint, Tint))
    ensures
        t == log_tints_of(kind, info@),
{
    match kind {
        PacketKind::Tcp | PacketKind::Tls | PacketKind::Http => {
            let proto = match kind {
                PacketKind::Tls => Tint::BrightMagentaBold,
                PacketKind::Http => Tint::BrightGreenBold,
                _ => Tint::BrightCyanBold,
            };
            let v = chars_of(info);
            let text = if text_is(&v, "[ENCRYPTED]") {
                Tint::BrightBlack
            } else {
                match kind {
                    PacketKind::Http => Tint::BrightGreen,
                    _ => Tint::BrightMagentaBold,
                }
            };
            (proto, text)
        },
        PacketKind::Udp => (Tint::BrightBlueBold, Tint::BrightBlack),
        PacketKind::Dns => (Tint::BrightBlueBold, Tint::BrightYellowBold),
        PacketKind::Icmp | PacketKind::Icmp6 => (Tint::BrightRedBold, Tint::BrightRed),
        PacketKind::Arp => (Tint::BrightYellowBold, Tint::BrightYellow),
    }
}

/// Characters of an ARP description shown on a log line.
pub const ARP_INFO_SHOWN: usize = 35;

/// The description on a log line: an ARP description cut to 35 characters,
/// any other as it is.
pub open spec fn log_info_text(kind: PacketKind, info: Seq<char>) -> Seq<char> {
    if kind == PacketKind::Arp {
        truncated(info, ARP_INFO_SHOWN as nat)
    } else {
        info
    }
}

/// Whether `log_info` can shorten `info` for a frame of `kind`.
pub open spec fn log_info_cuttable(kind: PacketKind, info: Seq<char>) -> bool {
    kind == PacketKind::Arp ==> truncation_is_safe(info, ARP_INFO_SHOWN as nat)
}

/// Whether `log_info` can be called on `info` for a frame of `kind`.
pub fn log_info_is_cuttable(kind: PacketKind, info: &str) -> (r: bool)
    ensures
        r == log_info_cuttable(kind, info@),
{
    match kind {
        PacketKind::Arp => truncate_is_safe(info, ARP_INFO_SHOWN),
        _ => true,
    }
}

/// The description shown on the log line of a frame of `kind`.
pub fn log_info(kind: PacketKind, info: &str) -> (out: String)
    requires
        log_info_cuttable(kind, info@),
    ensures
        out@ == log_info_text(kind, info@),
{
    match kind {
        PacketKind::Arp => truncate(info, ARP_INFO_SHOWN),
        _ => String::from_str(info),
    }
}

} // verus!
