use vstd::prelude::*;
use vstd::string::StringSliceAdditionalSpecFns;
use vstd::utf8::{valid_utf8, decode_utf8};
use crate::error::ParseError;
use crate::wire::{be16, read_be16, utf8_text};

verus! {

/// TLS record content type of a handshake.
pub const CONTENT_TYPE_HANDSHAKE: u8 = 22;

/// Handshake message type of a ClientHello.
pub const HANDSHAKE_CLIENT_HELLO: u8 = 1;

/// Searches a ServerNameList between `off` and `end` for the first entry of
/// name type `host_name` (0): `Ok(Some((start, stop)))` locates its name
/// bytes, `Ok(None)` means there is none, and an entry that runs past `end`
/// is `BufferTooShort`.
pub open spec fn host_name_in(b: Seq<u8>, off: int, end: int) -> Result<Option<(int, int)>, ParseError>
    decreases end - off,
{
    if off + 3 > end {
        Ok(None)
    } else {
        let name_type = b[off];
        let name_len = be16(b[off + 1], b[off + 2]);
        let start = off + 3;
        if start + name_len > end {
            Err(ParseError::BufferTooShort)
        } else if name_type == 0 {
            Ok(Some((start, start + name_len)))
        } else {
            host_name_in(b, start + name_len, end)
        }
    }
}

/// Searches the extensions between `off` and `end` for a server_name
/// extension (type 0) that holds a host name, and locates that name.
pub open spec fn sni_in_extensions(b: Seq<u8>, off: int, end: int) -> Result<(int, int), ParseError>
    decreases end - off,
{
    if off + 4 > end {
        Err(ParseError::InvalidFormat)
    } else {
        let ext_type = be16(b[off], b[off + 1]);
        let ext_len = be16(b[off + 2], b[off + 3]);
        let body = off + 4;
        if body + ext_len > end {
            Err(ParseError::BufferTooShort)
        } else if ext_type == 0 {
            if ext_len < 2 {
                Err(ParseError::InvalidFormat)
            } else {
                match host_name_in(b, body + 2, body + ext_len) {
                    Err(e) => Err(e),
                    Ok(Some(span)) => Ok(span),
                    Ok(None) => sni_in_extensions(b, body + ext_len, end),
                }
            }
        } else {
            sni_in_extensions(b, body + ext_len, end)
        }
    }
}

/// Where the server name indication of the ClientHello record at the start
/// of `b` lies: the record header, the handshake header, version and random
/// are skipped, then the session id, cipher suites and compression methods,
/// and the extensions are searched.
pub open spec fn client_hello_sni_span(b: Seq<u8>) -> Result<(int, int), ParseError> {
    if b.len() < 5 {
        Err(ParseError::BufferTooShort)
    } else if b[0] != CONTENT_TYPE_HANDSHAKE {
        Err(ParseError::InvalidFormat)
    } else if b.len() < 5 + be16(b[3], b[4]) {
        Err(ParseError::BufferTooShort)
    } else if b[5] != HANDSHAKE_CLIENT_HELLO {
        Err(ParseError::InvalidFormat)
    } else if 43 >= b.len() {
        // record header (5), handshake header (4), version (2), random (32)
        Err(ParseError::BufferTooShort)
    } else {
        let suites_at = 44 + b[43];
        if suites_at + 2 > b.len() {
            Err(ParseError::BufferTooShort)
        } else {
            let methods_at = suites_at + 2 + be16(b[suites_at], b[suites_at + 1]);
            if methods_at + 1 > b.len() {
                Err(ParseError::BufferTooShort)
            } else {
                let extensions_len_at = methods_at + 1 + b[methods_at];
                if extensions_len_at + 2 > b.len() {
                    Err(ParseError::InvalidFormat)
                } else {
                    let ext_start = extensions_len_at + 2;
                    let ext_end = ext_start + be16(b[extensions_len_at], b[extensions_len_at + 1]);
                    if ext_end > b.len() {
                        Err(ParseError::BufferTooShort)
                    } else {
                        sni_in_extensions(b, ext_start, ext_end)
                    }
                }
            }
        }
    }
}

/// The host name that a TLS ClientHello record indicates (SNI).
pub open spec fn client_hello_sni(b: Seq<u8>) -> Result<Seq<char>, ParseError> {
    match client_hello_sni_span(b) {
        Err(e) => Err(e),
        Ok((start, stop)) => {
            let name = b.subrange(start, stop);
            if valid_utf8(name) {
                Ok(decode_utf8(name))
            } else {
                Err(ParseError::InvalidFormat)
            }
        },
    }
}

proof fn lemma_host_name_in_shift(b1: Seq<u8>, b2: Seq<u8>, lo: int, d: int, off: int, end: int)
    requires
        0 <= lo + d,
        lo <= off,
        end <= b1.len(),
        b2.len() == b1.len() + d,
        forall|i: int| lo <= i < b1.len() ==> #[trigger] b1[i] == b2[i + d],
    ensures
        host_name_in(b2, off + d, end + d) == match host_name_in(b1, off, end) {
            Ok(Some((s, e))) => Ok(Some((s + d, e + d))),
            r => r,
        },
        host_name_in(b1, off, end) matches Ok(Some((s, e))) ==> off <= s <= e <= end,
    decreases end - off,
{
    if off + 3 <= end {
        assert(b1[off] == b2[off + d]);
        assert(b1[off + 1] == b2[off + 1 + d]);
        assert(b1[off + 2] == b2[off + 2 + d]);
        let name_len = be16(b1[off + 1], b1[off + 2]);
        let start = off + 3;
        if start + name_len <= end && b1[off] != 0 {
            lemma_host_name_in_shift(b1, b2, lo, d, start + name_len, end);
            assert(start + name_len + d == off + d + 3 + be16(b2[off + d + 1], b2[off + d + 2]));
        }
    }
}

proof fn lemma_sni_in_extensions_shift(b1: Seq<u8>, b2: Seq<u8>, lo: int, d: int, off: int, end: int)
    requires
        0 <= lo + d,
        lo <= off,
        end <= b1.len(),
        b2.len() == b1.len() + d,
        forall|i: int| lo <= i < b1.len() ==> #[trigger] b1[i] == b2[i + d],
    ensures
        sni_in_extensions(b2, off + d, end + d) == match sni_in_extensions(b1, off, end) {
            Ok((s, e)) => Ok((s + d, e + d)),
            r => r,
        },
        sni_in_extensions(b1, off, end) matches Ok((s, e)) ==> off <= s <= e <= end,
    decreases end - off,
{
    if off + 4 <= end {
        assert(b1[off] == b2[off + d]);
        assert(b1[off + 1] == b2[off + 1 + d]);
        assert(b1[off + 2] == b2[off + 2 + d]);
        assert(b1[off + 3] == b2[off + 3 + d]);
        let ext_type = be16(b1[off], b1[off + 1]);
        let ext_len = be16(b1[off + 2], b1[off + 3]);
        let body = off + 4;
        if body + ext_len <= end {
            if ext_type == 0 {
                if ext_len >= 2 {
                    lemma_host_name_in_shift(b1, b2, lo, d, body + 2, body + ext_len);
                    assert(body + 2 + d == off + d + 4 + 2);
                    if host_name_in(b1, body + 2, body + ext_len) == Ok::<Option<(int, int)>, ParseError>(None) {
                        lemma_sni_in_extensions_shift(b1, b2, lo, d, body + ext_len, end);
                    }
                }
            } else {
                lemma_sni_in_extensions_shift(b1, b2, lo, d, body + ext_len, end);
            }
        }
    }
}

/// The session id is skipped by its length (the byte at offset 43), whatever
/// it holds: two complete ClientHello records that differ only in their
/// session id (its length and its bytes) indicate the same server name, or
/// fail alike.
pub proof fn lemma_session_id_is_skipped(b1: Seq<u8>, b2: Seq<u8>)
    requires
        b1.len() >= 44,
        b2.len() >= 44,
        forall|i: int| 0 <= i < 43 ==> b1[i] == b2[i],
        b2.len() - b2[43] == b1.len() - b1[43],
        forall|i: int| 44 + b1[43] <= i < b1.len() ==> #[trigger] b1[i] == b2[i + b2[43] - b1[43]],
        b1.len() >= 5 + be16(b1[3], b1[4]),
        b2.len() >= 5 + be16(b2[3], b2[4]),
    ensures
        client_hello_sni(b1) == client_hello_sni(b2),
{
    let lo = 44 + b1[43];
    let d = b2[43] - b1[43];
    assert(b1[0] == b2[0] && b1[3] == b2[3] && b1[4] == b2[4] && b1[5] == b2[5]);
    let suites1 = 44 + b1[43];
    if suites1 + 2 <= b1.len() {
        assert(b1[suites1] == b2[suites1 + d]);
        assert(b1[suites1 + 1] == b2[suites1 + 1 + d]);
        let methods1 = suites1 + 2 + be16(b1[suites1], b1[suites1 + 1]);
        if methods1 + 1 <= b1.len() {
            assert(b1[methods1] == b2[methods1 + d]);
            let ext_len_at1 = methods1 + 1 + b1[methods1];
            if ext_len_at1 + 2 <= b1.len() {
                assert(b1[ext_len_at1] == b2[ext_len_at1 + d]);
                assert(b1[ext_len_at1 + 1] == b2[ext_len_at1 + 1 + d]);
                let ext_start1 = ext_len_at1 + 2;
                let ext_end1 = ext_start1 + be16(b1[ext_len_at1], b1[ext_len_at1 + 1]);
                if ext_end1 <= b1.len() {
                    lemma_sni_in_extensions_shift(b1, b2, lo, d, ext_start1, ext_end1);
                    assert(client_hello_sni_span(b2) == match client_hello_sni_span(b1) {
                        Ok((s, e)) => Ok((s + d, e + d)),
                        r => r,
                    });
                    if let Ok((s, e)) = client_hello_sni_span(b1) {
                        assert(b2.subrange(s + d, e + d) =~= b1.subrange(s, e)) by {
                            assert forall|j: int| 0 <= j < e - s implies b2.subrange(s + d, e + d)[j] == b1.subrange(s, e)[j] by {
                                assert(b1[s + j] == b2[s + j + d]);
                            }
                        }
                    }
                }
            }
        }
    }
}

/// The inputs on which the record header is read past its end: a bare
/// five-byte handshake record header that announces an empty record.
pub open spec fn is_empty_handshake_record(b: Seq<u8>) -> bool {
    b.len() == 5 && b[0] == CONTENT_TYPE_HANDSHAKE && be16(b[3], b[4]) == 0
}

/// The server name indicated by a TLS ClientHello, borrowed from the record.
pub struct TlsClientHello<'a> {
    pub sni: &'a str,
}

impl<'a> TlsClientHello<'a> {
    /// Extracts the SNI host name from a TLS record holding a ClientHello.
    pub fn parse(buffer: &'a [u8]) -> (res: Result<Self, ParseError>)
        requires
            !is_empty_handshake_record(buffer@),
        ensures
            match client_hello_sni(buffer@) {
                Ok(name) => res matches Ok(hello) && hello.sni@ == name,
                Err(e) => res matches Err(e2) && e2 == e,
            },
            res matches Ok(hello) ==> client_hello_sni_span(buffer@) matches Ok((start, stop))
                && 0 <= start <= stop <= buffer@.len()
                && hello.sni.spec_bytes() == buffer@.subrange(start, stop),
    {
        let len = buffer.len();
        if len < 5 {
            return Err(ParseError::BufferTooShort);
        }
        if buffer[0] != CONTENT_TYPE_HANDSHAKE {
            return Err(ParseError::InvalidFormat);
        }
        let record_len = read_be16(buffer, 3) as usize;
        if len < 5 + record_len {
            return Err(ParseError::BufferTooShort);
        }
        if buffer[5] != HANDSHAKE_CLIENT_HELLO {
            return Err(ParseError::InvalidFormat);
        }
        // record header (5), handshake header (4), version (2), random (32)
        let mut offset: usize = 43;
        if offset >= len {
            return Err(ParseError::BufferTooShort);
        }
        let session_id_len = buffer[offset] as usize;
        offset = offset + 1 + session_id_len;
        if offset + 2 > len {
            return Err(ParseError::BufferTooShort);
        }
        let cipher_suites_len = read_be16(buffer, offset) as usize;
        if cipher_suites_len >= len - (offset + 2) {
            return Err(ParseError::BufferTooShort);
        }
        offset = offset + 2 + cipher_suites_len;
        let compression_methods_len = buffer[offset] as usize;
        if compression_methods_len + 3 > len - offset {
            // the extensions block is optional, but a hello without it carries no name
            return Err(ParseError::InvalidFormat);
        }
        offset = offset + 1 + compression_methods_len;
        let extensions_len = read_be16(buffer, offset) as usize;
        offset = offset + 2;
        if extensions_len > len - offset {
            return Err(ParseError::BufferTooShort);
        }
        let extensions_end = offset + extensions_len;
        let ghost ext_start = offset as int;
        while extensions_end - offset >= 4
            invariant
                ext_start <= offset <= extensions_end <= len,
                len == buffer@.len(),
                client_hello_sni_span(buffer@) == sni_in_extensions(buffer@, ext_start, extensions_end as int),
                sni_in_extensions(buffer@, ext_start, extensions_end as int)
                    == sni_in_extensions(buffer@, offset as int, extensions_end as int),
            decreases extensions_end - offset,
        {
            let ghost ext_at = offset as int;
            let ext_type = read_be16(buffer, offset);
            let ext_len = read_be16(buffer, offset + 2) as usize;
            offset = offset + 4;
            if ext_len > extensions_end - offset {
                return Err(ParseError::BufferTooShort);
            }
            if ext_type == 0 {
                if ext_len < 2 {
                    return Err(ParseError::InvalidFormat);
                }
                let sni_end = offset + ext_len;
                let mut sni_offset = offset + 2;
                let ghost list_start = sni_offset as int;
                assert(sni_in_extensions(buffer@, ext_at, extensions_end as int) == match host_name_in(buffer@, list_start, sni_end as int) {
                    Err(e) => Err(e),
                    Ok(Some(span)) => Ok(span),
                    Ok(None) => sni_in_extensions(buffer@, sni_end as int, extensions_end as int),
                });
                while sni_end - sni_offset >= 3
                    invariant
                        list_start <= sni_offset <= sni_end <= extensions_end <= len,
                        len == buffer@.len(),
                        host_name_in(buffer@, list_start, sni_end as int)
                            == host_name_in(buffer@, sni_offset as int, sni_end as int),
                        client_hello_sni_span(buffer@) == match host_name_in(buffer@, list_start, sni_end as int) {
                            Err(e) => Err(e),
                            Ok(Some(span)) => Ok(span),
                            Ok(None) => sni_in_extensions(buffer@, sni_end as int, extensions_end as int),
                        },
                    ensures
                        host_name_in(buffer@, list_start, sni_end as int) == Ok::<Option<(int, int)>, ParseError>(None),
                    decreases sni_end - sni_offset,
                {
                    let name_type = buffer[sni_offset];
                    let name_len = read_be16(buffer, sni_offset + 1) as usize;
                    sni_offset = sni_offset + 3;
                    if name_len > sni_end - sni_offset {
                        return Err(ParseError::BufferTooShort);
                    }
                    if name_type == 0 {
                        let hostname_bytes = &buffer[sni_offset..sni_offset + name_len];
                        match utf8_text(hostname_bytes) {
                            Some(hostname) => {
                                proof {
                                    vstd::utf8::decode_utf8_encode_utf8(hostname_bytes@);
                                }
                                return Ok(TlsClientHello { sni: hostname });
                            },
                            None => {
                                return Err(ParseError::InvalidFormat);
                            },
                        }
                    }
                    sni_offset = sni_offset + name_len;
                }
            }
            offset = offset + ext_len;
        }
        // no server name indication
        Err(ParseError::InvalidFormat)
    }
}

} // verus!
