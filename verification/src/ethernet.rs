use vstd::prelude::*;
use crate::error::ParseError;
use crate::mac::MacAddress;
use crate::wire::{be16, read_be16};

verus! {

/// Length of an Ethernet II header: two addresses and the EtherType.
pub const ETHERNET_HEADER_LEN: usize = 14;

/// The protocol carried by an Ethernet frame.
#[derive(Debug, Clone, Copy, PartialEq, Eq, Structural)]
pub enum EtherType {
    Ipv4,
    Ipv6,
    Arp,
    Other(u16),
}

/// The EtherType that a 16-bit field value names.
pub open spec fn ether_type_of(val: u16) -> EtherType {
    if val == 0x0800 {
        EtherType::Ipv4
    } else if val == 0x0806 {
        EtherType::Arp
    } else if val == 0x86DD {
        EtherType::Ipv6
    } else {
        EtherType::Other(val)
    }
}

impl vstd::std_specs::convert::FromSpecImpl<u16> for EtherType {
    open spec fn obeys_from_spec() -> bool {
        true
    }

    open spec fn from_spec(val: u16) -> EtherType {
        ether_type_of(val)
    }
}

impl From<u16> for EtherType {
    fn from(val: u16) -> (t: EtherType) {
        match val {
            0x0800 => EtherType::Ipv4,
            0x0806 => EtherType::Arp,
            0x86DD => EtherType::Ipv6,
            other => EtherType::Other(other),
        }
    }
}

/// The header of an Ethernet II frame, borrowed from the captured buffer.
pub struct EthernetFrame<'a> {
    buffer: &'a [u8],
}

impl<'a> View for EthernetFrame<'a> {
    type V = Seq<u8>;

    /// The header bytes.
    closed spec fn view(&self) -> Seq<u8> {
        self.buffer@
    }
}

impl<'a> EthernetFrame<'a> {
    #[verifier::type_invariant]
    spec fn header_is_complete(self) -> bool {
        self.buffer@.len() == ETHERNET_HEADER_LEN
    }

    /// Parses an Ethernet II frame from a byte slice.
    /// Returns the parsed frame and a slice containing the remaining payload.
    pub fn parse(buffer: &'a [u8]) -> (res: Result<(Self, &'a [u8]), ParseError>)
        ensures
            buffer@.len() < ETHERNET_HEADER_LEN ==> res == Err::<(Self, &'a [u8]), ParseError>(ParseError::BufferTooShort),
            buffer@.len() >= ETHERNET_HEADER_LEN ==> res is Ok,
            res matches Ok((frame, payload)) ==> {
                &&& frame@ == buffer@.subrange(0, ETHERNET_HEADER_LEN as int)
                &&& payload@ == buffer@.subrange(ETHERNET_HEADER_LEN as int, buffer@.len() as int)
            },
    {
        if buffer.len() < ETHERNET_HEADER_LEN {
            return Err(ParseError::BufferTooShort);
        }
        let frame = EthernetFrame { buffer: &buffer[0..ETHERNET_HEADER_LEN] };
        let payload = &buffer[ETHERNET_HEADER_LEN..buffer.len()];
        Ok((frame, payload))
    }

    /// The destination hardware address (bytes 0..6).
    pub fn destination(&self) -> (mac: MacAddress)
        ensures
            mac.0@ == self@.subrange(0, 6),
    {
        proof { use_type_invariant(self); }
        let b = self.buffer;
        let mac = MacAddress([b[0], b[1], b[2], b[3], b[4], b[5]]);
        assert(mac.0@ =~= self@.subrange(0, 6));
        mac
    }

    /// The source hardware address (bytes 6..12).
    pub fn source(&self) -> (mac: MacAddress)
        ensures
            mac.0@ == self@.subrange(6, 12),
    {
        proof { use_type_invariant(self); }
        let b = self.buffer;
        let mac = MacAddress([b[6], b[7], b[8], b[9], b[10], b[11]]);
        assert(mac.0@ =~= self@.subrange(6, 12));
        mac
    }

    /// The EtherType field (bytes 12..14, big-endian).
    pub fn ethertype(&self) -> (t: EtherType)
        ensures
            self@.len() == ETHERNET_HEADER_LEN,
            t == ether_type_of(be16(self@[12], self@[13]) as u16),
    {
        proof { use_type_invariant(self); }
        EtherType::from(read_be16(self.buffer, 12))
    }
}

} // verus!
