use vstd::prelude::*;
use crate::error::ParseError;

verus! {

/// Length of the ICMP header.
pub const ICMP_HEADER_LEN: usize = 8;

/// An ICMP (or ICMPv6) header, borrowed from the captured buffer.
pub struct IcmpHeader<'a> {
    buffer: &'a [u8],
}

impl<'a> View for IcmpHeader<'a> {
    type V = Seq<u8>;

    /// The header bytes.
    closed spec fn view(&self) -> Seq<u8> {
        self.buffer@
    }
}

impl<'a> IcmpHeader<'a> {
    #[verifier::type_invariant]
    spec fn header_is_complete(self) -> bool {
        self.buffer@.len() == ICMP_HEADER_LEN
    }

    /// Splits an ICMP message into its 8-byte header and the rest.
    pub fn parse(buffer: &'a [u8]) -> (res: Result<(Self, &'a [u8]), ParseError>)
        ensures
            buffer@.len() < ICMP_HEADER_LEN ==> res == Err::<(Self, &'a [u8]), ParseError>(ParseError::BufferTooShort),
            buffer@.len() >= ICMP_HEADER_LEN ==> (res matches Ok((header, payload))
                && header@ == buffer@.subrange(0, 8)
                && payload@ == buffer@.skip(8)),
    {
        if buffer.len() < ICMP_HEADER_LEN {
            return Err(ParseError::BufferTooShort);
        }
        let header = IcmpHeader { buffer: &buffer[0..ICMP_HEADER_LEN] };
        let payload = &buffer[ICMP_HEADER_LEN..buffer.len()];
        Ok((header, payload))
    }

    /// The message type (byte 0).
    pub fn icmp_type(&self) -> (t: u8)
        ensures
            self@.len() == ICMP_HEADER_LEN,
            t == self@[0],
    {
        proof { use_type_invariant(self); }
        self.buffer[0]
    }

    /// The message code (byte 1).
    pub fn code(&self) -> (c: u8)
        ensures
            self@.len() == ICMP_HEADER_LEN,
            c == self@[1],
    {
        proof { use_type_invariant(self); }
        self.buffer[1]
    }
}

} // verus!
