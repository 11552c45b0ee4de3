use vstd::prelude::*;
use crate::error::ParseError;
use crate::ipv4::Ipv4Address;
use crate::mac::MacAddress;
use crate::wire::{be16, read_be16};

verus! {

/// Length of an ARP packet for Ethernet/IPv4.
pub const ARP_HEADER_LEN: usize = 28;

/// An ARP packet (Ethernet hardware, IPv4 protocol addresses), borrowed from the buffer.
pub struct ArpPacket<'a> {
    buffer: &'a [u8],
}

impl<'a> View for ArpPacket<'a> {
    type V = Seq<u8>;

    /// The packet bytes.
    closed spec fn view(&self) -> Seq<u8> {
        self.buffer@
    }
}

impl<'a> ArpPacket<'a> {
    #[verifier::type_invariant]
    spec fn packet_is_complete(self) -> bool {
        self.buffer@.len() == ARP_HEADER_LEN
    }

    /// Takes the first 28 bytes of `buffer` as an ARP packet.
    pub fn parse(buffer: &'a [u8]) -> (res: Result<Self, ParseError>)
        ensures
            buffer@.len() < ARP_HEADER_LEN ==> res == Err::<Self, ParseError>(ParseError::BufferTooShort),
            buffer@.len() >= ARP_HEADER_LEN ==> (res matches Ok(p) && p@ == buffer@.subrange(0, ARP_HEADER_LEN as int)),
    {
        if buffer.len() < ARP_HEADER_LEN {
            return Err(ParseError::BufferTooShort);
        }
        Ok(ArpPacket { buffer: &buffer[0..ARP_HEADER_LEN] })
    }

    /// Hardware type (bytes 0..2).
    pub fn hardware_type(&self) -> (v: u16)
        ensures
            self@.len() == ARP_HEADER_LEN,
            v == be16(self@[0], self@[1]),
    {
        proof { use_type_invariant(self); }
        read_be16(self.buffer, 0)
    }

    /// Protocol type (bytes 2..4).
    pub fn protocol_type(&self) -> (v: u16)
        ensures
            self@.len() == ARP_HEADER_LEN,
            v == be16(self@[2], self@[3]),
    {
        proof { use_type_invariant(self); }
        read_be16(self.buffer, 2)
    }

    /// Operation: 1 request, 2 reply (bytes 6..8).
    pub fn opcode(&self) -> (v: u16)
        ensures
            self@.len() == ARP_HEADER_LEN,
            v == be16(self@[6], self@[7]),
    {
        proof { use_type_invariant(self); }
        read_be16(self.buffer, 6)
    }

    /// Sender hardware address (bytes 8..14).
    pub fn sender_mac(&self) -> (m: MacAddress)
        ensures
            m.0@ == self@.subrange(8, 14),
    {
        proof { use_type_invariant(self); }
        let b = self.buffer;
        let m = MacAddress([b[8], b[9], b[10], b[11], b[12], b[13]]);
        assert(m.0@ =~= self@.subrange(8, 14));
        m
    }

    /// Sender protocol address (bytes 14..18).
    pub fn sender_ip(&self) -> (ip: Ipv4Address)
        ensures
            ip.0@ == self@.subrange(14, 18),
    {
        proof { use_type_invariant(self); }
        let b = self.buffer;
        let ip = Ipv4Address([b[14], b[15], b[16], b[17]]);
        assert(ip.0@ =~= self@.subrange(14, 18));
        ip
    }

    /// Target hardware address (bytes 18..24).
    pub fn target_mac(&self) -> (m: MacAddress)
        ensures
            m.0@ == self@.subrange(18, 24),
    {
        proof { use_type_invariant(self); }
        let b = self.buffer;
        let m = MacAddress([b[18], b[19], b[20], b[21], b[22], b[23]]);
        assert(m.0@ =~= self@.subrange(18, 24));
        m
    }

    /// Target protocol address (bytes 24..28).
    pub fn target_ip(&self) -> (ip: Ipv4Address)
        ensures
            ip.0@ == self@.subrange(24, 28),
    {
        proof { use_type_invariant(self); }
        let b = self.buffer;
        let ip = Ipv4Address([b[24], b[25], b[26], b[27]]);
        assert(ip.0@ =~= self@.subrange(24, 28));
        ip
    }
}

} // verus!
