use vstd::prelude::*;
use crate::error::ParseError;
use crate::textfmt::{hex2, join_with, lemma_join_with_step, push_char, push_hex2};

verus! {

/// Length of the fixed IPv6 header.
pub const IPV6_HEADER_LEN: usize = 40;

/// A 128-bit IPv6 address.
#[derive(Debug, Clone, Copy, PartialEq, Eq)]
pub struct Ipv6Address(pub [u8; 16]);

/// Eight colon-separated groups of four lower-case hexadecimal digits, without
/// zero compression.
pub open spec fn ipv6_text(octets: Seq<u8>) -> Seq<char> {
    join_with(
        Seq::new(octets.len() / 2, |i: int| hex2(octets[2 * i]) + hex2(octets[2 * i + 1])),
        seq![':'],
    )
}

impl Ipv6Address {
    /// The address as eight full groups, e.g. `fe80:0000:...:0001`.
    pub fn to_string(&self) -> (s: String)
        ensures
            s@ == ipv6_text(self.0@),
    {
        let ghost parts = Seq::new(8, |i: int| hex2(self.0@[2 * i]) + hex2(self.0@[2 * i + 1]));
        let mut s = String::new();
        let mut i: usize = 0;
        while i < 8
            invariant
                i <= 8,
                parts == Seq::new(8, |i: int| hex2(self.0@[2 * i]) + hex2(self.0@[2 * i + 1])),
                s@ == join_with(parts.take(i as int), seq![':']),
            decreases 8 - i,
        {
            proof { lemma_join_with_step(parts, seq![':'], i as int); }
            if i > 0 {
                push_char(&mut s, ':');
            }
            push_hex2(&mut s, self.0[2 * i]);
            push_hex2(&mut s, self.0[2 * i + 1]);
            i = i + 1;
            assert(parts[i - 1] == hex2(self.0@[2 * (i - 1)]) + hex2(self.0@[2 * (i - 1) + 1]));
        }
        assert(parts.take(8) =~= parts);
        s
    }
}

/// The fixed IPv6 header, borrowed from the captured buffer.
pub struct Ipv6Header<'a> {
    buffer: &'a [u8],
}

impl<'a> View for Ipv6Header<'a> {
    type V = Seq<u8>;

    /// The header bytes.
    closed spec fn view(&self) -> Seq<u8> {
        self.buffer@
    }
}

impl<'a> Ipv6Header<'a> {
    #[verifier::type_invariant]
    spec fn header_is_complete(self) -> bool {
        self.buffer@.len() == IPV6_HEADER_LEN
    }

    /// Splits an IPv6 packet into its fixed header and the rest.
    pub fn parse(buffer: &'a [u8]) -> (res: Result<(Self, &'a [u8]), ParseError>)
        ensures
            buffer@.len() < IPV6_HEADER_LEN ==> res == Err::<(Self, &'a [u8]), ParseError>(ParseError::BufferTooShort),
            buffer@.len() >= IPV6_HEADER_LEN ==> (res matches Ok((header, payload))
                && header@ == buffer@.subrange(0, IPV6_HEADER_LEN as int)
                && payload@ == buffer@.subrange(IPV6_HEADER_LEN as int, buffer@.len() as int)),
    {
        if buffer.len() < IPV6_HEADER_LEN {
            return Err(ParseError::BufferTooShort);
        }
        let header = Ipv6Header { buffer: &buffer[0..IPV6_HEADER_LEN] };
        let payload = &buffer[IPV6_HEADER_LEN..buffer.len()];
        Ok((header, payload))
    }

    /// The source address (bytes 8..24).
    pub fn source(&self) -> (ip: Ipv6Address)
        ensures
            ip.0@ == self@.subrange(8, 24),
    {
        proof { use_type_invariant(self); }
        let b = self.buffer;
        let ip = Ipv6Address([b[8], b[9], b[10], b[11], b[12], b[13], b[14], b[15], b[16], b[17], b[18], b[19], b[20], b[21], b[22], b[23]]);
        assert(ip.0@ =~= self@.subrange(8, 24));
        ip
    }

    /// The destination address (bytes 24..40).
    pub fn destination(&self) -> (ip: Ipv6Address)
        ensures
            ip.0@ == self@.subrange(24, 40),
    {
        proof { use_type_invariant(self); }
        let b = self.buffer;
        let ip = Ipv6Address([b[24], b[25], b[26], b[27], b[28], b[29], b[30], b[31], b[32], b[33], b[34], b[35], b[36], b[37], b[38], b[39]]);
        assert(ip.0@ =~= self@.subrange(24, 40));
        ip
    }

    /// The Next Header field (byte 6).
    pub fn next_header(&self) -> (n: u8)
        ensures
            self@.len() == IPV6_HEADER_LEN,
            n == self@[6],
    {
        proof { use_type_invariant(self); }
        self.buffer[6]
    }
}

} // verus!
