use vstd::prelude::*;
use crate::textfmt::{hex2, join_with, lemma_join_with_step, push_char, push_hex2};

verus! {

/// A 48-bit hardware (MAC) address.
#[derive(Debug, Clone, Copy, PartialEq, Eq)]
pub struct MacAddress(pub [u8; 6]);

/// Colon-separated lower-case hexadecimal octets, e.g. `00:1a:2b:3c:4d:5e`.
pub open spec fn mac_text(octets: Seq<u8>) -> Seq<char> {
    join_with(Seq::new(octets.len(), |i: int| hex2(octets[i])), seq![':'])
}

impl MacAddress {
    /// The address as `xx:xx:xx:xx:xx:xx`.
    pub fn to_string(&self) -> (s: String)
        ensures
            s@ == mac_text(self.0@),
    {
        let ghost parts = Seq::new(6, |i: int| hex2(self.0@[i]));
        let mut s = String::new();
        let mut i: usize = 0;
        while i < 6
            invariant
                i <= 6,
                parts == Seq::new(6, |i: int| hex2(self.0@[i])),
                s@ == join_with(parts.take(i as int), seq![':']),
            decreases 6 - i,
        {
            proof { lemma_join_with_step(parts, seq![':'], i as int); }
            if i > 0 {
                push_char(&mut s, ':');
            }
            push_hex2(&mut s, self.0[i]);
            i = i + 1;
        }
        assert(parts.take(6) =~= parts);
        s
    }
}

} // verus!
