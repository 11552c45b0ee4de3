//! Recognising HTTP messages in a TCP payload and summarising their first line.
use vstd::prelude::*;
use vstd::utf8::{valid_utf8, decode_utf8};
use crate::textfmt::{chars_of, push_char};

verus! {

/// The text of `bytes` decoded as UTF-8, each invalid sequence replaced by U+FFFD.
pub uninterp spec fn utf8_lossy(bytes: Seq<u8>) -> Seq<char>;

/// Decodes `bytes` as UTF-8, replacing invalid sequences.
///
/// Calls `String::from_utf8_lossy`; its documentation promises that valid
/// UTF-8 comes back as the text it encodes. What replaces invalid input is
/// left to the name `utf8_lossy`.
#[verifier::external_body]
pub(crate) fn lossy_text(bytes: &[u8]) -> (s: String)
    ensures
        s@ == utf8_lossy(bytes@),
        valid_utf8(bytes@) ==> s@ == decode_utf8(bytes@),
{
    String::from_utf8_lossy(bytes).into_owned()
}

/// Unicode `White_Space`, the set `char::is_whitespace` tests.
pub open spec fn is_whitespace_char(c: char) -> bool {
    let u = c as u32;
    ||| u == 0x20
    ||| 0x09 <= u <= 0x0D
    ||| u == 0x85
    ||| u == 0xA0
    ||| u == 0x1680
    ||| 0x2000 <= u <= 0x200A
    ||| u == 0x2028
    ||| u == 0x2029
    ||| u == 0x202F
    ||| u == 0x205F
    ||| u == 0x3000
}

/// Whether `c` is Unicode white space.
pub fn is_whitespace(c: char) -> (r: bool)
    ensures
        r == is_whitespace_char(c),
{
    let u = c as u32;
    u == 0x20 || (0x09 <= u && u <= 0x0D) || u == 0x85 || u == 0xA0 || u == 0x1680 || (0x2000 <= u
        && u <= 0x200A) || u == 0x2028 || u == 0x2029 || u == 0x202F || u == 0x205F || u == 0x3000
}

/// How many white-space characters `s` starts with.
pub open spec fn leading_ws(s: Seq<char>) -> nat
    decreases s.len(),
{
    if s.len() > 0 && is_whitespace_char(s[0]) {
        1 + leading_ws(s.drop_first())
    } else {
        0
    }
}

/// How many non-white-space characters `s` starts with.
pub open spec fn word_len(s: Seq<char>) -> nat
    decreases s.len(),
{
    if s.len() > 0 && !is_whitespace_char(s[0]) {
        1 + word_len(s.drop_first())
    } else {
        0
    }
}

/// `s` without its leading white space (`str::trim_start`).
pub open spec fn trim_start(s: Seq<char>) -> Seq<char> {
    s.skip(leading_ws(s) as int)
}

/// The position of the first space in `s`, or its length when there is none.
pub open spec fn space_index(s: Seq<char>) -> nat
    decreases s.len(),
{
    if s.len() == 0 || s[0] == ' ' {
        0
    } else {
        1 + space_index(s.drop_first())
    }
}

/// Whether `s` starts with `p`.
pub open spec fn has_text_prefix(s: Seq<char>, p: Seq<char>) -> bool {
    p.len() <= s.len() && s.take(p.len() as int) == p
}

/// Whether `t` opens with one of the request methods the analyzer knows.
pub open spec fn is_request_start(t: Seq<char>) -> bool {
    ||| has_text_prefix(t, "GET "@)
    ||| has_text_prefix(t, "POST "@)
    ||| has_text_prefix(t, "PUT "@)
    ||| has_text_prefix(t, "DELETE "@)
    ||| has_text_prefix(t, "PATCH "@)
    ||| has_text_prefix(t, "OPTIONS "@)
    ||| has_text_prefix(t, "HEAD "@)
}

/// The summary of a payload whose text, white space trimmed from its start, is
/// `t`: for a request, its first two words (method and target); for a
/// response, what follows its first space (status code and reason); nothing
/// for any other text.
pub open spec fn http_info(t: Seq<char>) -> Option<Seq<char>> {
    if is_request_start(t) {
        let w1 = word_len(t);
        let rest = trim_start(t.skip(w1 as int));
        if rest.len() > 0 {
            Some(t.take(w1 as int) + seq![' '] + rest.take(word_len(rest) as int))
        } else {
            Some("[HTTP Request]"@)
        }
    } else if has_text_prefix(t, "HTTP/"@) {
        let sp = space_index(t);
        if sp < t.len() {
            Some(t.skip(sp + 1int))
        } else {
            Some("[HTTP Response]"@)
        }
    } else {
        None
    }
}

/// The HTTP summary of a TCP payload, if it holds an HTTP message.
pub open spec fn payload_http_info(payload: Seq<u8>) -> Option<Seq<char>> {
    http_info(trim_start(utf8_lossy(payload)))
}

pub(crate) fn skip_whitespace(v: &Vec<char>, from: usize) -> (end: usize)
    requires
        from <= v@.len(),
    ensures
        end == from + leading_ws(v@.skip(from as int)),
        end <= v@.len(),
{
    let mut i = from;
    while i < v.len() && is_whitespace(v[i])
        invariant
            from <= i <= v@.len(),
            i + leading_ws(v@.skip(i as int)) == from + leading_ws(v@.skip(from as int)),
        decreases v@.len() - i,
    {
        assert(v@.skip(i as int).drop_first() =~= v@.skip(i + 1));
        i = i + 1;
    }
    i
}

fn skip_word(v: &Vec<char>, from: usize) -> (end: usize)
    requires
        from <= v@.len(),
    ensures
        end == from + word_len(v@.skip(from as int)),
        end <= v@.len(),
{
    let mut i = from;
    while i < v.len() && !is_whitespace(v[i])
        invariant
            from <= i <= v@.len(),
            i + word_len(v@.skip(i as int)) == from + word_len(v@.skip(from as int)),
        decreases v@.len() - i,
    {
        assert(v@.skip(i as int).drop_first() =~= v@.skip(i + 1));
        i = i + 1;
    }
    i
}

fn find_space(v: &Vec<char>, from: usize) -> (at: usize)
    requires
        from <= v@.len(),
    ensures
        at == from + space_index(v@.skip(from as int)),
        at <= v@.len(),
{
    let mut i = from;
    while i < v.len() && v[i] != ' '
        invariant
            from <= i <= v@.len(),
            i + space_index(v@.skip(i as int)) == from + space_index(v@.skip(from as int)),
        decreases v@.len() - i,
    {
        assert(v@.skip(i as int).drop_first() =~= v@.skip(i + 1));
        i = i + 1;
    }
    i
}

/// Whether the text of `v` from `from` on starts with `lit`.
pub(crate) fn starts_with_text(v: &Vec<char>, from: usize, lit: &str) -> (r: bool)
    requires
        from <= v@.len(),
    ensures
        r == has_text_prefix(v@.skip(from as int), lit@),
{
    let p = chars_of(lit);
    if p.len() > v.len() - from {
        return false;
    }
    let mut i: usize = 0;
    while i < p.len()
        invariant
            i <= p@.len(),
            p@ == lit@,
            from + p@.len() <= v.len(),
            v@.skip(from as int).take(i as int) == p@.take(i as int),
        decreases p@.len() - i,
    {
        if v[from + i] != p[i] {
            assert(v@.skip(from as int).take(p@.len() as int)[i as int] != p@[i as int]);
            return false;
        }
        i = i + 1;
        assert(v@.skip(from as int).take(i as int) =~= p@.take(i as int));
    }
    assert(p@.take(p@.len() as int) =~= p@);
    true
}

/// Appends `v[a..b]`.
pub(crate) fn push_range(out: &mut String, v: &Vec<char>, a: usize, b: usize)
    requires
        a <= b <= v@.len(),
    ensures
        final(out)@ == old(out)@ + v@.subrange(a as int, b as int),
{
    let ghost start = out@;
    let mut i = a;
    while i < b
        invariant
            a <= i <= b <= v@.len(),
            out@ == start + v@.subrange(a as int, i as int),
        decreases b - i,
    {
        push_char(out, v[i]);
        i = i + 1;
        assert(out@ =~= start + v@.subrange(a as int, i as int));
    }
}

/// The first line of an HTTP request or response carried by `payload`,
/// summarised as `http_info` describes.
pub fn http_summary(payload: &[u8]) -> (r: Option<String>)
    ensures
        match payload_http_info(payload@) {
            None => r is None,
            Some(info) => r matches Some(s) && s@ == info,
        },
{
    let text = lossy_text(payload);
    http_summary_of_text(text.as_str())
}

/// The HTTP summary of the decoded text of a payload: `http_info` of the text
/// with its leading white space trimmed.
pub fn http_summary_of_text(text: &str) -> (r: Option<String>)
    ensures
        match http_info(trim_start(text@)) {
            None => r is None,
            Some(info) => r matches Some(s) && s@ == info,
        },
{
    let v = chars_of(text);
    let start = skip_whitespace(&v, 0);
    let ghost t = trim_start(v@);
    assert(v@.skip(0) =~= v@);
    assert(t =~= v@.skip(start as int));
    let request = starts_with_text(&v, start, "GET ") || starts_with_text(&v, start, "POST ")
        || starts_with_text(&v, start, "PUT ") || starts_with_text(&v, start, "DELETE ")
        || starts_with_text(&v, start, "PATCH ") || starts_with_text(&v, start, "OPTIONS ")
        || starts_with_text(&v, start, "HEAD ");
    if request {
        let w1_end = skip_word(&v, start);
        let w2_start = skip_whitespace(&v, w1_end);
        proof {
            assert(t.skip(word_len(t) as int) =~= v@.skip(w1_end as int));
            assert(trim_start(t.skip(word_len(t) as int)) =~= v@.skip(w2_start as int));
        }
        if w2_start < v.len() {
            let w2_end = skip_word(&v, w2_start);
            let mut out = String::new();
            push_range(&mut out, &v, start, w1_end);
            push_char(&mut out, ' ');
            push_range(&mut out, &v, w2_start, w2_end);
            proof {
                let rest = v@.skip(w2_start as int);
                assert(rest.take(word_len(rest) as int) =~= v@.subrange(w2_start as int, w2_end as int));
                assert(t.take(word_len(t) as int) =~= v@.subrange(start as int, w1_end as int));
            }
            Some(out)
        } else {
            Some(String::from_str("[HTTP Request]"))
        }
    } else if starts_with_text(&v, start, "HTTP/") {
        let sp = find_space(&v, start);
        if sp < v.len() {
            let mut out = String::new();
            push_range(&mut out, &v, sp + 1, v.len());
            assert(t.skip(space_index(t) + 1int) =~= v@.subrange(sp + 1, v@.len() as int));
            Some(out)
        } else {
            Some(String::from_str("[HTTP Response]"))
        }
    } else {
        None
    }
}

} // verus!
