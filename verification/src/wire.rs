//! Reading multi-byte fields out of a packet buffer.
use vstd::prelude::*;
use vstd::string::StringSliceAdditionalSpecFns;
use vstd::utf8::{valid_utf8, decode_utf8, encode_utf8_decode_utf8};

verus! {

/// The value of two bytes read in network (big-endian) order.
pub open spec fn be16(hi: u8, lo: u8) -> int {
    hi * 256 + lo
}

/// Reads the big-endian 16-bit field that starts at `at`.
pub fn read_be16(buf: &[u8], at: usize) -> (v: u16)
    requires
        at + 1 < buf@.len(),
    ensures
        v == be16(buf@[at as int], buf@[at + 1]),
{
    let hi = buf[at] as u16;
    let lo = buf[at + 1] as u16;
    hi * 256 + lo
}

/// Decodes `bytes` as UTF-8 text, borrowing it.
///
/// Calls `std::str::from_utf8`, which succeeds exactly on valid UTF-8 and then
/// returns a string slice over the same bytes.
#[verifier::external_body]
fn str_from_utf8<'a>(bytes: &'a [u8]) -> (res: Option<&'a str>)
    ensures
        res is Some <==> valid_utf8(bytes@),
        res matches Some(s) ==> s.spec_bytes() == bytes@,
{
    std::str::from_utf8(bytes).ok()
}

/// Decodes `bytes` as UTF-8; `None` when they are not valid UTF-8.
pub fn utf8_text<'a>(bytes: &'a [u8]) -> (res: Option<&'a str>)
    ensures
        res is Some <==> valid_utf8(bytes@),
        res matches Some(s) ==> s@ == decode_utf8(bytes@),
{
    let res = str_from_utf8(bytes);
    proof {
        if let Some(s) = res {
            encode_utf8_decode_utf8(s@);
        }
    }
    res
}

} // verus!
