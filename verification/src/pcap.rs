//! The classic PCAP capture file: its file header and the header of each
//! record, written in the byte order of the machine that writes them (readers
//! tell the order from the magic number).
use vstd::prelude::*;

verus! {

/// The magic number that opens a PCAP file (microsecond timestamps).
pub const PCAP_MAGIC: u32 = 0xa1b2_c3d4;
/// The largest frame a record holds.
pub const PCAP_SNAPLEN: u32 = 65535;
/// The link type of Ethernet frames.
pub const LINKTYPE_ETHERNET: u32 = 1;

/// The two bytes of `v` in the given byte order.
pub open spec fn u16_bytes(v: u16, big_endian: bool) -> Seq<u8> {
    let lo = (v % 256) as u8;
    let hi = (v / 256) as u8;
    if big_endian { seq![hi, lo] } else { seq![lo, hi] }
}

/// The four bytes of `v` in the given byte order.
pub open spec fn u32_bytes(v: u32, big_endian: bool) -> Seq<u8> {
    let b0 = (v % 256) as u8;
    let b1 = ((v / 256) % 256) as u8;
    let b2 = ((v / 65536) % 256) as u8;
    let b3 = (v / 16777216) as u8;
    if big_endian { seq![b3, b2, b1, b0] } else { seq![b0, b1, b2, b3] }
}

/// The 24-byte file header: magic number, version 2.4, time zone and
/// timestamp accuracy zero, snapshot length 65535, link type Ethernet.
pub open spec fn pcap_file_header(big_endian: bool) -> Seq<u8> {
    u32_bytes(PCAP_MAGIC, big_endian) + u16_bytes(2, big_endian) + u16_bytes(4, big_endian) + Seq::new(8, |i: int| 0u8)
        + u32_bytes(PCAP_SNAPLEN, big_endian) + u32_bytes(LINKTYPE_ETHERNET, big_endian)
}

/// The 16-byte header of a record: seconds, microseconds, then the frame's
/// length twice (as captured and as sent on the wire).
pub open spec fn pcap_record_header(sec: u32, usec: u32, len: u32, big_endian: bool) -> Seq<u8> {
    u32_bytes(sec, big_endian) + u32_bytes(usec, big_endian) + u32_bytes(len, big_endian) + u32_bytes(len, big_endian)
}

fn push_u16(out: &mut Vec<u8>, v: u16, big_endian: bool)
    ensures
        final(out)@ == old(out)@ + u16_bytes(v, big_endian),
{
    let lo = (v % 256) as u8;
    let hi = (v / 256) as u8;
    if big_endian {
        out.push(hi);
        out.push(lo);
    } else {
        out.push(lo);
        out.push(hi);
    }
    assert(out@ =~= old(out)@ + u16_bytes(v, big_endian));
}

fn push_u32(out: &mut Vec<u8>, v: u32, big_endian: bool)
    ensures
        final(out)@ == old(out)@ + u32_bytes(v, big_endian),
{
    let b0 = (v % 256) as u8;
    let b1 = ((v / 256) % 256) as u8;
    let b2 = ((v / 65536) % 256) as u8;
    let b3 = (v / 16777216) as u8;
    if big_endian {
        out.push(b3);
        out.push(b2);
        out.push(b1);
        out.push(b0);
    } else {
        out.push(b0);
        out.push(b1);
        out.push(b2);
        out.push(b3);
    }
    assert(out@ =~= old(out)@ + u32_bytes(v, big_endian));
}

/// The file header, in big-endian order when `big_endian`, else little-endian.
pub fn file_header(big_endian: bool) -> (h: Vec<u8>)
    ensures
        h@ == pcap_file_header(big_endian),
        h@.len() == 24,
{
    let mut h: Vec<u8> = Vec::new();
    push_u32(&mut h, PCAP_MAGIC, big_endian);
    push_u16(&mut h, 2, big_endian);
    push_u16(&mut h, 4, big_endian);
    let mut i: usize = 0;
    while i < 8
        invariant
            i <= 8,
            h@ == u32_bytes(PCAP_MAGIC, big_endian) + u16_bytes(2, big_endian) + u16_bytes(4, big_endian)
                + Seq::new(i as nat, |j: int| 0u8),
        decreases 8 - i,
    {
        h.push(0);
        i = i + 1;
        assert(h@ =~= u32_bytes(PCAP_MAGIC, big_endian) + u16_bytes(2, big_endian) + u16_bytes(4, big_endian)
            + Seq::new(i as nat, |j: int| 0u8));
    }
    push_u32(&mut h, PCAP_SNAPLEN, big_endian);
    push_u32(&mut h, LINKTYPE_ETHERNET, big_endian);
    h
}

/// The header of the record for a frame of `captured` bytes taken at `sec`
/// seconds and `usec` microseconds; the length field keeps the low 32 bits.
pub fn record_header(sec: u32, usec: u32, captured: usize, big_endian: bool) -> (h: Vec<u8>)
    ensures
        h@ == pcap_record_header(sec, usec, (captured as nat % 0x1_0000_0000) as u32, big_endian),
        h@.len() == 16,
{
    let len = (captured as u64 % 0x1_0000_0000) as u32;
    let mut h: Vec<u8> = Vec::new();
    push_u32(&mut h, sec, big_endian);
    push_u32(&mut h, usec, big_endian);
    push_u32(&mut h, len, big_endian);
    push_u32(&mut h, len, big_endian);
    h
}

} // verus!
