use vstd::prelude::*;
use crate::error::ParseError;
use crate::textfmt::{dec_text, join_with, lemma_join_with_step, push_char, push_decimal};

verus! {

/// Length of an IPv4 header without options.
pub const IPV4_HEADER_MIN_LEN: usize = 20;

/// A 32-bit IPv4 address.
#[derive(Debug, Clone, Copy, PartialEq, Eq)]
pub struct Ipv4Address(pub [u8; 4]);

/// Dotted decimal notation, e.g. `192.168.1.10`.
pub open spec fn ipv4_text(octets: Seq<u8>) -> Seq<char> {
    join_with(Seq::new(octets.len(), |i: int| dec_text(octets[i] as nat)), seq!['.'])
}

impl Ipv4Address {
    /// The address in dotted decimal notation.
    pub fn to_string(&self) -> (s: String)
        ensures
            s@ == ipv4_text(self.0@),
    {
        let ghost parts = Seq::new(4, |i: int| dec_text(self.0@[i] as nat));
        let mut s = String::new();
        let mut i: usize = 0;
        while i < 4
            invariant
                i <= 4,
                parts == Seq::new(4, |i: int| dec_text(self.0@[i] as nat)),
                s@ == join_with(parts.take(i as int), seq!['.']),
            decreases 4 - i,
        {
            proof { lemma_join_with_step(parts, seq!['.'], i as int); }
            if i > 0 {
                push_char(&mut s, '.');
            }
            push_decimal(&mut s, self.0[i] as u64);
            i = i + 1;
        }
        assert(parts.take(4) =~= parts);
        s
    }
}

/// The header length that the IHL field (low nibble of the first byte) announces.
pub open spec fn ipv4_header_len(first: u8) -> int {
    (first % 16) * 4
}

/// An IPv4 header (options included), borrowed from the captured buffer.
pub struct Ipv4Header<'a> {
    buffer: &'a [u8],
}

impl<'a> View for Ipv4Header<'a> {
    type V = Seq<u8>;

    /// The header bytes.
    closed spec fn view(&self) -> Seq<u8> {
        self.buffer@
    }
}

impl<'a> Ipv4Header<'a> {
    #[verifier::type_invariant]
    spec fn header_is_complete(self) -> bool {
        &&& IPV4_HEADER_MIN_LEN <= self.buffer@.len() <= 60
    }

    /// Splits an IPv4 packet into its header (as long as IHL says) and its payload.
    pub fn parse(buffer: &'a [u8]) -> (res: Result<(Self, &'a [u8]), ParseError>)
        ensures
            buffer@.len() < IPV4_HEADER_MIN_LEN ==> res == Err::<(Self, &'a [u8]), ParseError>(
                ParseError::BufferTooShort,
            ),
            buffer@.len() >= IPV4_HEADER_MIN_LEN ==> {
                let hl = ipv4_header_len(buffer@[0]);
                if buffer@.len() < hl || hl < IPV4_HEADER_MIN_LEN {
                    res == Err::<(Self, &'a [u8]), ParseError>(ParseError::InvalidFormat)
                } else {
                    (res matches Ok((header, payload)) && header@ == buffer@.subrange(0, hl)
                        && payload@ == buffer@.subrange(hl, buffer@.len() as int))
                }
            },
    {
        if buffer.len() < IPV4_HEADER_MIN_LEN {
            return Err(ParseError::BufferTooShort);
        }
        let header_len = (buffer[0] % 16) as usize * 4;
        if buffer.len() < header_len || header_len < IPV4_HEADER_MIN_LEN {
            return Err(ParseError::InvalidFormat);
        }
        let header = Ipv4Header { buffer: &buffer[0..header_len] };
        let payload = &buffer[header_len..buffer.len()];
        Ok((header, payload))
    }

    /// The source address (bytes 12..16).
    pub fn source(&self) -> (ip: Ipv4Address)
        ensures
            ip.0@ == self@.subrange(12, 16),
    {
        proof { use_type_invariant(self); }
        let b = self.buffer;
        let ip = Ipv4Address([b[12], b[13], b[14], b[15]]);
        assert(ip.0@ =~= self@.subrange(12, 16));
        ip
    }

    /// The destination address (bytes 16..20).
    pub fn destination(&self) -> (ip: Ipv4Address)
        ensures
            ip.0@ == self@.subrange(16, 20),
    {
        proof { use_type_invariant(self); }
        let b = self.buffer;
        let ip = Ipv4Address([b[16], b[17], b[18], b[19]]);
        assert(ip.0@ =~= self@.subrange(16, 20));
        ip
    }

    /// The protocol number of the payload (byte 9).
    pub fn protocol(&self) -> (p: u8)
        ensures
            self@.len() >= IPV4_HEADER_MIN_LEN,
            p == self@[9],
    {
        proof { use_type_invariant(self); }
        self.buffer[9]
    }
}

} // verus!
