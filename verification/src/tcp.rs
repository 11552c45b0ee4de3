use vstd::prelude::*;
use crate::error::ParseError;
use crate::wire::{be16, read_be16};

verus! {

/// Length of a TCP header without options.
pub const TCP_HEADER_MIN_LEN: usize = 20;

/// The header length that the data offset (high nibble of byte 12) announces.
pub open spec fn tcp_header_len(offset_byte: u8) -> int {
    (offset_byte / 16) * 4
}

/// A TCP header (options included), borrowed from the captured buffer.
pub struct TcpHeader<'a> {
    buffer: &'a [u8],
}

impl<'a> View for TcpHeader<'a> {
    type V = Seq<u8>;

    /// The header bytes.
    closed spec fn view(&self) -> Seq<u8> {
        self.buffer@
    }
}

impl<'a> TcpHeader<'a> {
    #[verifier::type_invariant]
    spec fn header_is_complete(self) -> bool {
        TCP_HEADER_MIN_LEN <= self.buffer@.len() <= 60
    }

    /// Splits a TCP segment into its header (as long as the data offset says) and its payload.
    pub fn parse(buffer: &'a [u8]) -> (res: Result<(Self, &'a [u8]), ParseError>)
        ensures
            buffer@.len() < TCP_HEADER_MIN_LEN ==> res == Err::<(Self, &'a [u8]), ParseError>(ParseError::BufferTooShort),
            buffer@.len() >= TCP_HEADER_MIN_LEN ==> {
                let hl = tcp_header_len(buffer@[12]);
                if buffer@.len() < hl || hl < TCP_HEADER_MIN_LEN {
                    res == Err::<(Self, &'a [u8]), ParseError>(ParseError::InvalidFormat)
                } else {
                    (res matches Ok((header, payload)) && header@ == buffer@.subrange(0, hl)
                        && payload@ == buffer@.subrange(hl, buffer@.len() as int))
                }
            },
    {
        if buffer.len() < TCP_HEADER_MIN_LEN {
            return Err(ParseError::BufferTooShort);
        }
        let header_len = (buffer[12] / 16) as usize * 4;
        if buffer.len() < header_len || header_len < TCP_HEADER_MIN_LEN {
            return Err(ParseError::InvalidFormat);
        }
        let header = TcpHeader { buffer: &buffer[0..header_len] };
        let payload = &buffer[header_len..buffer.len()];
        Ok((header, payload))
    }

    /// Source port (bytes 0..2).
    pub fn source_port(&self) -> (p: u16)
        ensures
            self@.len() >= TCP_HEADER_MIN_LEN,
            p == be16(self@[0], self@[1]),
    {
        proof { use_type_invariant(self); }
        read_be16(self.buffer, 0)
    }

    /// Destination port (bytes 2..4).
    pub fn destination_port(&self) -> (p: u16)
        ensures
            self@.len() >= TCP_HEADER_MIN_LEN,
            p == be16(self@[2], self@[3]),
    {
        proof { use_type_invariant(self); }
        read_be16(self.buffer, 2)
    }
}

} // verus!
