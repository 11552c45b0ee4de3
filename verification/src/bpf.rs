//! The classic BPF programs attached to the capture socket.
use vstd::prelude::*;
use crate::textfmt::{chars_of, text_is};
use crate::wire::be16;
use crate::websocket::{lowercase, to_lowercase};

verus! {

/// One classic BPF instruction (`struct sock_filter`).
#[derive(Debug, Clone, Copy, PartialEq, Eq, Structural)]
pub struct SockFilter {
    pub code: u16,
    pub jt: u8,
    pub jf: u8,
    pub k: u32,
}

/// An instruction.
pub open spec fn insn(code: u16, jt: u8, jf: u8, k: u32) -> SockFilter {
    SockFilter { code, jt, jf, k }
}

/// The number of bytes a classic BPF program `prog` keeps of the frame `pkt`
/// (0: the frame is dropped), running from instruction `pc` with accumulator
/// `a` and index register `x`. The operations are those of the analyzer's
/// programs: load half-word (`0x28`) or byte (`0x30`) at a fixed offset, load
/// the IPv4 header length into `x` (`0xb1`, four times the low nibble), load
/// half-word at `x` plus an offset (`0x48`), jump on equality (`0x15`), and
/// return (`0x06`). A load past the end of the frame drops it, as the kernel
/// does, and so does running off the program or any other operation.
pub open spec fn bpf_run(prog: Seq<SockFilter>, pkt: Seq<u8>, pc: int, a: int, x: int) -> int
    decreases prog.len() - pc,
{
    if pc < 0 || pc >= prog.len() {
        0
    } else {
        let i = prog[pc];
        let k = i.k as int;
        if i.code == 0x06 {
            k
        } else if i.code == 0x28 {
            if k + 2 <= pkt.len() { bpf_run(prog, pkt, pc + 1, be16(pkt[k], pkt[k + 1]), x) } else { 0 }
        } else if i.code == 0x30 {
            if k + 1 <= pkt.len() { bpf_run(prog, pkt, pc + 1, pkt[k] as int, x) } else { 0 }
        } else if i.code == 0xb1 {
            if k + 1 <= pkt.len() { bpf_run(prog, pkt, pc + 1, a, 4 * (pkt[k] % 16) as int) } else { 0 }
        } else if i.code == 0x48 {
            if 0 <= x && x + k + 2 <= pkt.len() {
                bpf_run(prog, pkt, pc + 1, be16(pkt[x + k], pkt[x + k + 1]), x)
            } else {
                0
            }
        } else if i.code == 0x15 {
            let target = if a == k { pc + 1 + i.jt as int } else { pc + 1 + i.jf as int };
            if target < prog.len() { bpf_run(prog, pkt, target, a, x) } else { 0 }
        } else {
            0
        }
    }
}

/// Whether `prog` lets the frame `pkt` through to the socket.
pub open spec fn accepts(prog: Seq<SockFilter>, pkt: Seq<u8>) -> bool {
    bpf_run(prog, pkt, 0, 0, 0) != 0
}

/// The EtherType of a frame of at least 14 bytes.
pub open spec fn frame_ether(f: Seq<u8>) -> int {
    be16(f[12], f[13])
}

/// An IPv4 frame whose IP protocol field (byte 23) is `proto`.
pub open spec fn ipv4_proto_frame(f: Seq<u8>, proto: int) -> bool {
    f.len() >= 24 && frame_ether(f) == 0x0800 && f[23] == proto
}

/// An ARP frame.
pub open spec fn arp_frame(f: Seq<u8>) -> bool {
    f.len() >= 14 && frame_ether(f) == 0x0806
}

/// An IPv4 TCP or UDP frame whose source or destination port is `port`, the
/// ports read after the IPv4 header (its length from the IHL nibble of byte 14).
pub open spec fn port_frame(f: Seq<u8>, port: int) -> bool {
    let x = 4 * (f[14] % 16) as int;
    &&& f.len() >= 24
    &&& frame_ether(f) == 0x0800
    &&& (f[23] == 6 || f[23] == 17)
    &&& x + 16 <= f.len()
    &&& (be16(f[x + 14], f[x + 15]) == port || (x + 18 <= f.len() && be16(f[x + 16], f[x + 17]) == port))
}

/// Accepts IPv4 TCP or UDP frames whose source or destination port is `port`:
/// EtherType IPv4, protocol 6 or 17, then either port (IPv4 header length
/// taken from IHL); everything else is dropped.
pub open spec fn port_program(port: u16) -> Seq<SockFilter> {
    seq![
        insn(0x28, 0, 8, 12),
        insn(0x15, 0, 9, 0x0800),
        insn(0x30, 0, 0, 23),
        insn(0x15, 1, 0, 6),
        insn(0x15, 0, 6, 17),
        insn(0xb1, 0, 0, 14),
        insn(0x48, 0, 0, 14),
        insn(0x15, 2, 0, port as u32),
        insn(0x48, 0, 0, 16),
        insn(0x15, 0, 1, port as u32),
        insn(0x06, 0, 0, 65535),
        insn(0x06, 0, 0, 0),
    ]
}

/// Accepts IPv4 frames carrying protocol `proto`, drops everything else.
pub open spec fn ipv4_proto_program(proto: u32) -> Seq<SockFilter> {
    seq![
        insn(0x28, 0, 3, 12),
        insn(0x15, 0, 3, 0x0800),
        insn(0x30, 0, 0, 23),
        insn(0x15, 0, 1, proto),
        insn(0x06, 0, 0, 65535),
        insn(0x06, 0, 0, 0),
    ]
}

/// Accepts ARP frames, drops everything else.
pub open spec fn arp_program() -> Seq<SockFilter> {
    seq![
        insn(0x28, 0, 1, 12),
        insn(0x15, 0, 1, 0x0806),
        insn(0x06, 0, 0, 65535),
        insn(0x06, 0, 0, 0),
    ]
}

/// The program for a lower-case protocol name: `tcp`, `udp`, `icmp` or
/// `arp`; nothing for any other name.
pub open spec fn named_program(lower: Seq<char>) -> Option<Seq<SockFilter>> {
    if lower == "tcp"@ {
        Some(ipv4_proto_program(6))
    } else if lower == "udp"@ {
        Some(ipv4_proto_program(17))
    } else if lower == "icmp"@ {
        Some(ipv4_proto_program(1))
    } else if lower == "arp"@ {
        Some(arp_program())
    } else {
        None
    }
}

/// The frames the filter for a lower-case protocol name lets through.
pub open spec fn named_frame(lower: Seq<char>, f: Seq<u8>) -> bool {
    if lower == "tcp"@ {
        ipv4_proto_frame(f, 6)
    } else if lower == "udp"@ {
        ipv4_proto_frame(f, 17)
    } else if lower == "icmp"@ {
        ipv4_proto_frame(f, 1)
    } else {
        arp_frame(f)
    }
}

/// The program for a protocol name, compared lower-cased.
pub open spec fn proto_program(name: Seq<char>) -> Option<Seq<SockFilter>> {
    named_program(lowercase(name))
}

/// The protocol program keeps exactly the IPv4 frames of protocol `proto`.
pub proof fn lemma_ipv4_proto_program_accepts(proto: u32, f: Seq<u8>)
    ensures
        accepts(ipv4_proto_program(proto), f) == ipv4_proto_frame(f, proto as int),
{
    let p = ipv4_proto_program(proto);
    assert(p[0] == insn(0x28, 0, 3, 12));
    assert(p[1] == insn(0x15, 0, 3, 0x0800));
    assert(p[2] == insn(0x30, 0, 0, 23));
    assert(p[3] == insn(0x15, 0, 1, proto));
    assert(p[4] == insn(0x06, 0, 0, 65535));
    assert(p[5] == insn(0x06, 0, 0, 0));
    if f.len() >= 14 {
        let et = be16(f[12], f[13]);
        assert(bpf_run(p, f, 0, 0, 0) == bpf_run(p, f, 1, et, 0));
        if et == 0x0800 {
            assert(bpf_run(p, f, 1, et, 0) == bpf_run(p, f, 2, et, 0));
            if f.len() >= 24 {
                let b = f[23] as int;
                assert(bpf_run(p, f, 2, et, 0) == bpf_run(p, f, 3, b, 0));
                if b == proto {
                    assert(bpf_run(p, f, 3, b, 0) == bpf_run(p, f, 4, b, 0));
                    assert(bpf_run(p, f, 4, b, 0) == 65535);
                } else {
                    assert(bpf_run(p, f, 3, b, 0) == bpf_run(p, f, 5, b, 0));
                    assert(bpf_run(p, f, 5, b, 0) == 0);
                }
            } else {
                assert(bpf_run(p, f, 2, et, 0) == 0);
            }
        } else {
            assert(bpf_run(p, f, 1, et, 0) == bpf_run(p, f, 5, et, 0));
            assert(bpf_run(p, f, 5, et, 0) == 0);
        }
    } else {
        assert(bpf_run(p, f, 0, 0, 0) == 0);
    }
}

/// The ARP program keeps exactly the ARP frames.
pub proof fn lemma_arp_program_accepts(f: Seq<u8>)
    ensures
        accepts(arp_program(), f) == arp_frame(f),
{
    let p = arp_program();
    assert(p[0] == insn(0x28, 0, 1, 12));
    assert(p[1] == insn(0x15, 0, 1, 0x0806));
    assert(p[2] == insn(0x06, 0, 0, 65535));
    assert(p[3] == insn(0x06, 0, 0, 0));
    if f.len() >= 14 {
        let et = be16(f[12], f[13]);
        assert(bpf_run(p, f, 0, 0, 0) == bpf_run(p, f, 1, et, 0));
        if et == 0x0806 {
            assert(bpf_run(p, f, 1, et, 0) == bpf_run(p, f, 2, et, 0));
        } else {
            assert(bpf_run(p, f, 1, et, 0) == bpf_run(p, f, 3, et, 0));
        }
    } else {
        assert(bpf_run(p, f, 0, 0, 0) == 0);
    }
}

/// The port program keeps exactly the IPv4 TCP and UDP frames to or from `port`.
pub proof fn lemma_port_program_accepts(port: u16, f: Seq<u8>)
    ensures
        accepts(port_program(port), f) == port_frame(f, port as int),
{
    let p = port_program(port);
    let k = port as u32;
    assert(p[0] == insn(0x28, 0, 8, 12));
    assert(p[1] == insn(0x15, 0, 9, 0x0800));
    assert(p[2] == insn(0x30, 0, 0, 23));
    assert(p[3] == insn(0x15, 1, 0, 6));
    assert(p[4] == insn(0x15, 0, 6, 17));
    assert(p[5] == insn(0xb1, 0, 0, 14));
    assert(p[6] == insn(0x48, 0, 0, 14));
    assert(p[7] == insn(0x15, 2, 0, k));
    assert(p[8] == insn(0x48, 0, 0, 16));
    assert(p[9] == insn(0x15, 0, 1, k));
    assert(p[10] == insn(0x06, 0, 0, 65535));
    assert(p[11] == insn(0x06, 0, 0, 0));
    if f.len() < 14 {
        assert(bpf_run(p, f, 0, 0, 0) == 0);
        return;
    }
    let et = be16(f[12], f[13]);
    assert(bpf_run(p, f, 0, 0, 0) == bpf_run(p, f, 1, et, 0));
    if et != 0x0800 {
        assert(bpf_run(p, f, 1, et, 0) == bpf_run(p, f, 11, et, 0));
        assert(bpf_run(p, f, 11, et, 0) == 0);
        return;
    }
    assert(bpf_run(p, f, 1, et, 0) == bpf_run(p, f, 2, et, 0));
    if f.len() < 24 {
        assert(bpf_run(p, f, 2, et, 0) == 0);
        return;
    }
    let b = f[23] as int;
    assert(bpf_run(p, f, 2, et, 0) == bpf_run(p, f, 3, b, 0));
    if b == 6 {
        assert(bpf_run(p, f, 3, b, 0) == bpf_run(p, f, 5, b, 0));
    } else {
        assert(bpf_run(p, f, 3, b, 0) == bpf_run(p, f, 4, b, 0));
        if b == 17 {
            assert(bpf_run(p, f, 4, b, 0) == bpf_run(p, f, 5, b, 0));
        } else {
            assert(bpf_run(p, f, 4, b, 0) == bpf_run(p, f, 11, b, 0));
            assert(bpf_run(p, f, 11, b, 0) == 0);
            return;
        }
    }
    let x = 4 * (f[14] % 16) as int;
    assert(bpf_run(p, f, 5, b, 0) == bpf_run(p, f, 6, b, x));
    if x + 16 > f.len() {
        assert(bpf_run(p, f, 6, b, x) == 0);
        return;
    }
    let first = be16(f[x + 14], f[x + 15]);
    assert(bpf_run(p, f, 6, b, x) == bpf_run(p, f, 7, first, x));
    if first == port as int {
        assert(bpf_run(p, f, 7, first, x) == bpf_run(p, f, 10, first, x));
        assert(bpf_run(p, f, 10, first, x) == 65535);
        return;
    }
    assert(bpf_run(p, f, 7, first, x) == bpf_run(p, f, 8, first, x));
    if x + 18 > f.len() {
        assert(bpf_run(p, f, 8, first, x) == 0);
        return;
    }
    let second = be16(f[x + 16], f[x + 17]);
    assert(bpf_run(p, f, 8, first, x) == bpf_run(p, f, 9, second, x));
    if second == port as int {
        assert(bpf_run(p, f, 9, second, x) == bpf_run(p, f, 10, second, x));
        assert(bpf_run(p, f, 10, second, x) == 65535);
    } else {
        assert(bpf_run(p, f, 9, second, x) == bpf_run(p, f, 11, second, x));
        assert(bpf_run(p, f, 11, second, x) == 0);
    }
}

/// The filter that keeps IPv4 TCP/UDP traffic to or from `port`, and drops
/// every other frame.
pub fn port_filter(port: u16) -> (prog: Vec<SockFilter>)
    ensures
        prog@ == port_program(port),
        forall|f: Seq<u8>| #[trigger] accepts(prog@, f) == port_frame(f, port as int),
{
    let p = port as u32;
    let prog = vec![
        SockFilter { code: 0x28, jt: 0, jf: 8, k: 12 },
        SockFilter { code: 0x15, jt: 0, jf: 9, k: 0x0800 },
        SockFilter { code: 0x30, jt: 0, jf: 0, k: 23 },
        SockFilter { code: 0x15, jt: 1, jf: 0, k: 6 },
        SockFilter { code: 0x15, jt: 0, jf: 6, k: 17 },
        SockFilter { code: 0xb1, jt: 0, jf: 0, k: 14 },
        SockFilter { code: 0x48, jt: 0, jf: 0, k: 14 },
        SockFilter { code: 0x15, jt: 2, jf: 0, k: p },
        SockFilter { code: 0x48, jt: 0, jf: 0, k: 16 },
        SockFilter { code: 0x15, jt: 0, jf: 1, k: p },
        SockFilter { code: 0x06, jt: 0, jf: 0, k: 65535 },
        SockFilter { code: 0x06, jt: 0, jf: 0, k: 0 },
    ];
    assert(prog@ =~= port_program(port));
    assert forall|f: Seq<u8>| #[trigger] accepts(prog@, f) == port_frame(f, port as int) by {
        lemma_port_program_accepts(port, f);
    }
    prog
}

fn ipv4_proto_filter(proto: u32) -> (prog: Vec<SockFilter>)
    ensures
        prog@ == ipv4_proto_program(proto),
{
    let prog = vec![
        SockFilter { code: 0x28, jt: 0, jf: 3, k: 12 },
        SockFilter { code: 0x15, jt: 0, jf: 3, k: 0x0800 },
        SockFilter { code: 0x30, jt: 0, jf: 0, k: 23 },
        SockFilter { code: 0x15, jt: 0, jf: 1, k: proto },
        SockFilter { code: 0x06, jt: 0, jf: 0, k: 65535 },
        SockFilter { code: 0x06, jt: 0, jf: 0, k: 0 },
    ];
    assert(prog@ =~= ipv4_proto_program(proto));
    prog
}

/// The filter for a lower-case protocol name (`tcp`, `udp`, `icmp`, `arp`):
/// it keeps the IPv4 frames of that protocol, or the ARP frames, and drops
/// every other frame; `None` for a protocol the analyzer cannot filter on.
pub fn named_proto_filter(lower: &str) -> (prog: Option<Vec<SockFilter>>)
    ensures
        match named_program(lower@) {
            None => prog is None,
            Some(p) => prog matches Some(v) && v@ == p,
        },
        prog matches Some(v) ==> forall|f: Seq<u8>| #[trigger] accepts(v@, f) == named_frame(lower@, f),
{
    let v = chars_of(lower);
    if text_is(&v, "tcp") {
        let prog = ipv4_proto_filter(6);
        assert forall|f: Seq<u8>| #[trigger] accepts(prog@, f) == named_frame(lower@, f) by {
            lemma_ipv4_proto_program_accepts(6, f);
        }
        Some(prog)
    } else if text_is(&v, "udp") {
        let prog = ipv4_proto_filter(17);
        assert forall|f: Seq<u8>| #[trigger] accepts(prog@, f) == named_frame(lower@, f) by {
            lemma_ipv4_proto_program_accepts(17, f);
        }
        Some(prog)
    } else if text_is(&v, "icmp") {
        let prog = ipv4_proto_filter(1);
        assert forall|f: Seq<u8>| #[trigger] accepts(prog@, f) == named_frame(lower@, f) by {
            lemma_ipv4_proto_program_accepts(1, f);
        }
        Some(prog)
    } else if text_is(&v, "arp") {
        let prog = vec![
            SockFilter { code: 0x28, jt: 0, jf: 1, k: 12 },
            SockFilter { code: 0x15, jt: 0, jf: 1, k: 0x0806 },
            SockFilter { code: 0x06, jt: 0, jf: 0, k: 65535 },
            SockFilter { code: 0x06, jt: 0, jf: 0, k: 0 },
        ];
        assert(prog@ =~= arp_program());
        assert forall|f: Seq<u8>| #[trigger] accepts(prog@, f) == named_frame(lower@, f) by {
            lemma_arp_program_accepts(f);
        }
        Some(prog)
    } else {
        None
    }
}

/// The filter for a protocol name (`tcp`, `udp`, `icmp`, `arp`, in any case),
/// which keeps only the frames of that protocol; `None` for a protocol the
/// analyzer cannot filter on.
pub fn proto_filter(proto: &str) -> (prog: Option<Vec<SockFilter>>)
    ensures
        match proto_program(proto@) {
            None => prog is None,
            Some(p) => prog matches Some(v) && v@ == p,
        },
        prog matches Some(v) ==> forall|f: Seq<u8>| #[trigger] accepts(v@, f) == named_frame(lowercase(proto@), f),
{
    let lower = to_lowercase(proto);
    named_proto_filter(lower.as_str())
}

} // verus!
