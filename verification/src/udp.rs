use vstd::prelude::*;
use crate::error::ParseError;
use crate::wire::{be16, read_be16};

verus! {

/// Length of a UDP header.
pub const UDP_HEADER_LEN: usize = 8;

/// A UDP header, borrowed from the captured buffer.
pub struct UdpHeader<'a> {
    buffer: &'a [u8],
}

impl<'a> View for UdpHeader<'a> {
    type V = Seq<u8>;

    /// The header bytes.
    closed spec fn view(&self) -> Seq<u8> {
        self.buffer@
    }
}

impl<'a> UdpHeader<'a> {
    #[verifier::type_invariant]
    spec fn header_is_complete(self) -> bool {
        self.buffer@.len() == UDP_HEADER_LEN
    }

    /// Splits a UDP datagram into its 8-byte header and its payload.
    pub fn parse(buffer: &'a [u8]) -> (res: Result<(Self, &'a [u8]), ParseError>)
        ensures
            buffer@.len() < UDP_HEADER_LEN ==> res == Err::<(Self, &'a [u8]), ParseError>(ParseError::BufferTooShort),
            buffer@.len() >= UDP_HEADER_LEN ==> (res matches Ok((header, payload))
                && header@ == buffer@.subrange(0, UDP_HEADER_LEN as int)
                && payload@ == buffer@.subrange(UDP_HEADER_LEN as int, buffer@.len() as int)),
    {
        if buffer.len() < UDP_HEADER_LEN {
            return Err(ParseError::BufferTooShort);
        }
        let header = UdpHeader { buffer: &buffer[0..UDP_HEADER_LEN] };
        let payload = &buffer[UDP_HEADER_LEN..buffer.len()];
        Ok((header, payload))
    }

    /// Source port (bytes 0..2).
    pub fn source_port(&self) -> (p: u16)
        ensures
            self@.len() == UDP_HEADER_LEN,
            p == be16(self@[0], self@[1]),
    {
        proof { use_type_invariant(self); }
        read_be16(self.buffer, 0)
    }

    /// Destination port (bytes 2..4).
    pub fn destination_port(&self) -> (p: u16)
        ensures
            self@.len() == UDP_HEADER_LEN,
            p == be16(self@[2], self@[3]),
    {
        proof { use_type_invariant(self); }
        read_be16(self.buffer, 2)
    }
}

} // verus!
