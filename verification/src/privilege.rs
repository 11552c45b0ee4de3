//! Which identity the analyzer takes on after opening its capture socket.
use vstd::prelude::*;
use crate::textfmt::chars_of;

verus! {

/// The user and group id of `nobody`.
pub const NOBODY_ID: u32 = 65534;

/// Why no identity could be chosen.
#[derive(Debug, Clone, Copy, PartialEq, Eq, Structural)]
pub enum PrivilegeError {
    /// `SUDO_UID` is not a user id.
    BadSudoUid,
    /// `SUDO_GID` is not a group id.
    BadSudoGid,
}

/// Whether `c` is an ASCII decimal digit.
pub open spec fn is_digit(c: char) -> bool {
    '0' <= c <= '9'
}

/// The value of a string of decimal digits.
pub open spec fn digits_value(s: Seq<char>) -> nat
    decreases s.len(),
{
    if s.len() == 0 {
        0
    } else {
        digits_value(s.drop_last()) * 10 + ((s.last() as u32) - 48) as nat
    }
}

/// `s` without one leading `+`.
pub open spec fn unsigned_digits(s: Seq<char>) -> Seq<char> {
    if s.len() > 0 && s[0] == '+' {
        s.drop_first()
    } else {
        s
    }
}

/// Whether every character of `d` is a decimal digit.
pub open spec fn all_digits(d: Seq<char>) -> bool {
    forall|i: int| 0 <= i < d.len() ==> is_digit(#[trigger] d[i])
}

/// `str::parse::<u32>`: an optional `+`, then one or more ASCII digits whose
/// value fits in 32 bits; nothing else is a number.
pub open spec fn parse_u32_spec(s: Seq<char>) -> Option<u32> {
    let d = unsigned_digits(s);
    if d.len() > 0 && all_digits(d) && digits_value(d) <= u32::MAX {
        Some(digits_value(d) as u32)
    } else {
        None
    }
}

/// Parses a decimal 32-bit unsigned number as `str::parse::<u32>` does.
pub fn parse_u32(s: &str) -> (r: Option<u32>)
    ensures
        r == parse_u32_spec(s@),
{
    let v = chars_of(s);
    let start: usize = if v.len() > 0 && v[0] == '+' { 1 } else { 0 };
    let ghost d = unsigned_digits(v@);
    assert(d =~= v@.skip(start as int));
    if start >= v.len() {
        return None;
    }
    let mut value: u64 = 0;
    let mut i = start;
    while i < v.len()
        invariant
            start <= i <= v@.len(),
            v@ == s@,
            d == unsigned_digits(s@),
            d == v@.skip(start as int),
            forall|j: int| start <= j < i ==> is_digit(v@[j]),
            value == digits_value(v@.subrange(start as int, i as int)),
            value <= u32::MAX,
        decreases v@.len() - i,
    {
        let c = v[i];
        if !('0' <= c && c <= '9') {
            assert(d[i - start] == c);
            assert(!is_digit(d[i - start]));
            assert(!all_digits(d));
            return None;
        }
        let digit = (c as u32 - 48) as u64;
        assert(v@.subrange(start as int, i + 1).drop_last() =~= v@.subrange(start as int, i as int));
        value = value * 10 + digit;
        i = i + 1;
        if value > 0xFFFF_FFFF {
            proof {
                if all_digits(d) {
                    lemma_digits_value_grows(d, (i - start) as int);
                    assert(d.take(i - start) =~= v@.subrange(start as int, i as int));
                }
            }
            return None;
        }
    }
    assert(d =~= v@.subrange(start as int, v@.len() as int));
    Some(value as u32)
}

/// A longer run of digits is worth at least as much as its prefix.
proof fn lemma_digits_value_grows(d: Seq<char>, k: int)
    requires
        0 <= k <= d.len(),
        all_digits(d),
    ensures
        digits_value(d.take(k)) <= digits_value(d),
    decreases d.len() - k,
{
    if k < d.len() {
        lemma_digits_value_grows(d, k + 1);
        assert(d.take(k + 1).drop_last() =~= d.take(k));
    } else {
        assert(d.take(k) =~= d);
    }
}

/// The identity to switch to: nothing when not running as root (uid 0); the
/// ids in `SUDO_UID` and `SUDO_GID` when both are set; else `nobody`.
pub open spec fn privilege_target(current_uid: u32, sudo_uid: Option<Seq<char>>, sudo_gid: Option<Seq<char>>) -> Result<Option<(u32, u32)>, PrivilegeError> {
    if current_uid != 0 {
        Ok(None)
    } else {
        match (sudo_uid, sudo_gid) {
            (Some(u), Some(g)) => match parse_u32_spec(u) {
                None => Err(PrivilegeError::BadSudoUid),
                Some(uid) => match parse_u32_spec(g) {
                    None => Err(PrivilegeError::BadSudoGid),
                    Some(gid) => Ok(Some((uid, gid))),
                },
            },
            _ => Ok(Some((NOBODY_ID, NOBODY_ID))),
        }
    }
}

/// Decides the `(uid, gid)` to drop to after the socket is open.
pub fn privilege_plan(current_uid: u32, sudo_uid: Option<&str>, sudo_gid: Option<&str>) -> (r: Result<Option<(u32, u32)>, PrivilegeError>)
    ensures
        r == privilege_target(
            current_uid,
            match sudo_uid { Some(s) => Some(s@), None => None },
            match sudo_gid { Some(s) => Some(s@), None => None },
        ),
{
    if current_uid != 0 {
        return Ok(None);
    }
    match (sudo_uid, sudo_gid) {
        (Some(u), Some(g)) => {
            let uid = match parse_u32(u) {
                Some(v) => v,
                None => {
                    return Err(PrivilegeError::BadSudoUid);
                },
            };
            let gid = match parse_u32(g) {
                Some(v) => v,
                None => {
                    return Err(PrivilegeError::BadSudoGid);
                },
            };
            Ok(Some((uid, gid)))
        },
        _ => Ok(Some((NOBODY_ID, NOBODY_ID))),
    }
}

} // verus!
