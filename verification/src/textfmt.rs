//! Building text: hexadecimal and decimal digits, joined fields.
use vstd::prelude::*;

verus! {

/// The lower-case hexadecimal digit for `n` (0..16).
pub open spec fn hex_digit(n: int) -> char {
    if n < 10 {
        (48 + n) as char
    } else {
        (87 + n) as char
    }
}

/// The decimal digit for `n` (0..10).
pub open spec fn dec_digit(n: int) -> char {
    (48 + n) as char
}

/// A byte as two lower-case hexadecimal digits (`{:02x}`).
pub open spec fn hex2(b: u8) -> Seq<char> {
    seq![hex_digit((b / 16) as int), hex_digit((b % 16) as int)]
}

/// `n` in decimal, without leading zeros (`{}`).
pub open spec fn dec_text(n: nat) -> Seq<char>
    decreases n,
{
    if n < 10 {
        seq![dec_digit(n as int)]
    } else {
        dec_text(n / 10).push(dec_digit((n % 10) as int))
    }
}

/// A byte in decimal.
pub open spec fn byte_text(b: u8) -> Seq<char> {
    dec_text(b as nat)
}

/// A 16-bit value in decimal.
pub open spec fn u16_text(v: u16) -> Seq<char> {
    dec_text(v as nat)
}

/// `n` in lower-case hexadecimal, without leading zeros (`{:x}`).
pub open spec fn hex_text(n: nat) -> Seq<char>
    decreases n,
{
    if n < 16 {
        seq![hex_digit(n as int)]
    } else {
        hex_text(n / 16).push(hex_digit((n % 16) as int))
    }
}

/// `s` padded on the left with `'0'` up to `width` characters (`{:0w}`).
pub open spec fn zero_padded(s: Seq<char>, width: nat) -> Seq<char> {
    if s.len() >= width {
        s
    } else {
        Seq::new((width - s.len()) as nat, |i: int| '0') + s
    }
}

/// `n` rendered as `{:04x}`.
pub open spec fn hex4_text(n: nat) -> Seq<char> {
    zero_padded(hex_text(n), 4)
}

/// The parts joined with `sep` between consecutive parts.
pub open spec fn join_with(parts: Seq<Seq<char>>, sep: Seq<char>) -> Seq<char>
    decreases parts.len(),
{
    if parts.len() == 0 {
        Seq::empty()
    } else if parts.len() == 1 {
        parts[0]
    } else {
        join_with(parts.drop_last(), sep) + sep + parts.last()
    }
}

/// Joining one more part extends the joined text by the separator and that part.
pub proof fn lemma_join_with_step(parts: Seq<Seq<char>>, sep: Seq<char>, i: int)
    requires
        0 <= i < parts.len(),
    ensures
        join_with(parts.take(i + 1), sep) == (if i == 0 {
            parts[0]
        } else {
            join_with(parts.take(i), sep) + sep + parts[i]
        }),
{
    assert(parts.take(i + 1).drop_last() =~= parts.take(i));
}

/// Appends one character to `s`.
///
/// Calls `String::push`, whose documentation says the character is appended
/// to the end of the string.
#[verifier::external_body]
pub(crate) fn push_char(s: &mut String, c: char)
    ensures
        final(s)@ == old(s)@.push(c),
{
    s.push(c);
}

/// Appends the characters of `chars` to `s`, in order.
pub fn push_chars(s: &mut String, chars: &Vec<char>)
    ensures
        final(s)@ == old(s)@ + chars@,
{
    let ghost start = s@;
    let mut i: usize = 0;
    while i < chars.len()
        invariant
            i <= chars@.len(),
            s@ == start + chars@.subrange(0, i as int),
        decreases chars@.len() - i,
    {
        push_char(s, chars[i]);
        i = i + 1;
        assert(s@ =~= start + chars@.subrange(0, i as int));
    }
    assert(chars@.subrange(0, chars@.len() as int) =~= chars@);
}

/// The hexadecimal digit character for a value below 16.
pub fn hex_digit_char(n: u8) -> (c: char)
    requires
        n < 16,
    ensures
        c == hex_digit(n as int),
{
    if n < 10 {
        (48 + n) as char
    } else {
        (87 + n) as char
    }
}

/// Appends `b` as two lower-case hexadecimal digits.
pub fn push_hex2(s: &mut String, b: u8)
    ensures
        final(s)@ == old(s)@ + hex2(b),
{
    push_char(s, hex_digit_char(b / 16));
    push_char(s, hex_digit_char(b % 16));
    assert(s@ =~= old(s)@ + hex2(b));
}

/// The decimal digits of `n`.
pub fn dec_chars(n: u64) -> (v: Vec<char>)
    ensures
        v@ == dec_text(n as nat),
    decreases n,
{
    let d = (48 + (n % 10) as u8) as char;
    if n < 10 {
        let mut v = Vec::new();
        v.push(d);
        assert(v@ =~= dec_text(n as nat));
        v
    } else {
        let mut v = dec_chars(n / 10);
        v.push(d);
        v
    }
}

/// The lower-case hexadecimal digits of `n`.
pub fn hex_chars(n: u64) -> (v: Vec<char>)
    ensures
        v@ == hex_text(n as nat),
    decreases n,
{
    let d = hex_digit_char((n % 16) as u8);
    if n < 16 {
        let mut v = Vec::new();
        v.push(d);
        assert(v@ =~= hex_text(n as nat));
        v
    } else {
        let mut v = hex_chars(n / 16);
        v.push(d);
        v
    }
}

/// Appends `n` in decimal.
pub fn push_decimal(s: &mut String, n: u64)
    ensures
        final(s)@ == old(s)@ + dec_text(n as nat),
{
    let v = dec_chars(n);
    push_chars(s, &v);
}

/// Appends a byte in decimal.
pub fn push_byte_text(s: &mut String, b: u8)
    ensures
        final(s)@ == old(s)@ + byte_text(b),
{
    push_decimal(s, b as u64);
}

/// Appends a 16-bit value in decimal.
pub fn push_u16_text(s: &mut String, v: u16)
    ensures
        final(s)@ == old(s)@ + u16_text(v),
{
    push_decimal(s, v as u64);
}

/// Appends `n` as `{:04x}`.
pub fn push_hex4(s: &mut String, n: u64)
    ensures
        final(s)@ == old(s)@ + hex4_text(n as nat),
{
    let v = hex_chars(n);
    let ghost start = s@;
    let mut k: usize = v.len();
    while k < 4
        invariant
            v.len() <= k <= 4 || (k == v.len() && k >= 4),
            s@ == start + Seq::new((k - v.len()) as nat, |i: int| '0'),
        decreases 4 - k,
    {
        push_char(s, '0');
        k = k + 1;
        assert(s@ =~= start + Seq::new((k - v.len()) as nat, |i: int| '0'));
    }
    push_chars(s, &v);
    assert(s@ =~= start + hex4_text(n as nat));
}

/// The characters of `s`, in order.
pub fn chars_of(s: &str) -> (v: Vec<char>)
    ensures
        v@ == s@,
{
    broadcast use vstd::string::group_string_axioms;
    let mut v: Vec<char> = Vec::new();
    for c in it: s.chars()
        invariant
            v@ == it.seq().subrange(0, it.index() as int),
    {
        v.push(c);
    }
    v
}

/// Whether the text of `v` is exactly `lit`.
pub fn text_is(v: &Vec<char>, lit: &str) -> (r: bool)
    ensures
        r == (v@ == lit@),
{
    let l = chars_of(lit);
    if l.len() != v.len() {
        return false;
    }
    let mut i: usize = 0;
    while i < l.len()
        invariant
            i <= l@.len() == v@.len(),
            l@ == lit@,
            v@.take(i as int) == l@.take(i as int),
        decreases l@.len() - i,
    {
        if v[i] != l[i] {
            return false;
        }
        i = i + 1;
        assert(v@.take(i as int) =~= l@.take(i as int));
    }
    assert(v@ =~= v@.take(v@.len() as int));
    assert(l@ =~= l@.take(l@.len() as int));
    true
}

} // verus!
