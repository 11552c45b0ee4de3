use vstd::prelude::*;
use vstd::utf8::{valid_utf8, decode_utf8};
use crate::error::ParseError;
use crate::textfmt::push_char;
use crate::wire::{be16, read_be16, utf8_text};

verus! {

/// Length of the fixed DNS header.
pub const DNS_HEADER_LEN: usize = 12;

/// `name` with one more label appended, dot-separated.
pub open spec fn append_label(name: Seq<char>, label: Seq<char>) -> Seq<char> {
    if name.len() == 0 {
        label
    } else {
        name.push('.') + label
    }
}

/// Walks the labels of a QNAME that starts at `offset`, appending them to
/// `name`. The walk stops at the zero-length root label or at the end of the
/// buffer; a compression pointer (both high bits of the length set), a label
/// that reaches the last byte of the buffer or beyond, and a label that is not
/// UTF-8 are refused.
pub open spec fn qname_from(buf: Seq<u8>, offset: int, name: Seq<char>) -> Result<Seq<char>, ParseError>
    decreases buf.len() - offset,
{
    if offset < 0 || offset >= buf.len() {
        Ok(name)
    } else {
        let length = buf[offset] as int;
        if length == 0 {
            Ok(name)
        } else if length >= 0xC0 {
            Err(ParseError::InvalidFormat)
        } else if offset + 1 + length >= buf.len() {
            Err(ParseError::BufferTooShort)
        } else {
            let label = buf.subrange(offset + 1, offset + 1 + length);
            if !valid_utf8(label) {
                Err(ParseError::InvalidFormat)
            } else {
                qname_from(buf, offset + 1 + length, append_label(name, decode_utf8(label)))
            }
        }
    }
}

/// The domain name asked for by the first question of a DNS query message.
pub open spec fn dns_query_name(buf: Seq<u8>) -> Result<Seq<char>, ParseError> {
    if buf.len() < DNS_HEADER_LEN {
        Err(ParseError::BufferTooShort)
    } else if buf[2] >= 0x80 {
        // the QR bit marks a response
        Err(ParseError::InvalidFormat)
    } else if be16(buf[4], buf[5]) == 0 {
        // no question
        Err(ParseError::InvalidFormat)
    } else {
        match qname_from(buf, DNS_HEADER_LEN as int, Seq::empty()) {
            Err(e) => Err(e),
            Ok(name) => if name.len() == 0 {
                Err(ParseError::InvalidFormat)
            } else {
                Ok(name)
            },
        }
    }
}

proof fn lemma_qname_from_reads_from_offset(a: Seq<u8>, b: Seq<u8>, lo: int, offset: int, name: Seq<char>)
    requires
        a.len() == b.len(),
        0 <= lo <= offset,
        forall|i: int| lo <= i < a.len() ==> a[i] == b[i],
    ensures
        qname_from(a, offset, name) == qname_from(b, offset, name),
    decreases a.len() - offset,
{
    if 0 <= offset < a.len() {
        let length = a[offset] as int;
        if length != 0 && length < 0xC0 && offset + 1 + length < a.len() {
            assert(a.subrange(offset + 1, offset + 1 + length) =~= b.subrange(offset + 1, offset + 1 + length));
            let label = a.subrange(offset + 1, offset + 1 + length);
            if valid_utf8(label) {
                lemma_qname_from_reads_from_offset(a, b, lo, offset + 1 + length, append_label(name, decode_utf8(label)));
            }
        }
    }
}

/// Only the QR bit (the top bit of byte 2) tells a query from a response: two
/// messages that differ in nothing but the other flag bits of byte 2 (opcode,
/// AA, TC, RD) give the same result.
pub proof fn lemma_dns_only_qr_flag_matters(a: Seq<u8>, b: Seq<u8>)
    requires
        a.len() == b.len(),
        forall|i: int| 0 <= i < a.len() && i != 2 ==> a[i] == b[i],
        a.len() > 2 ==> a[2] / 128 == b[2] / 128,
    ensures
        dns_query_name(a) == dns_query_name(b),
{
    if a.len() >= DNS_HEADER_LEN {
        lemma_qname_from_reads_from_offset(a, b, 3, DNS_HEADER_LEN as int, Seq::empty());
    }
}

/// The name queried by a DNS query message.
pub struct DnsQuery {
    pub domain_name: String,
}

impl DnsQuery {
    /// Decodes the first question's name (labels joined with dots) of a DNS query.
    pub fn parse(buffer: &[u8]) -> (res: Result<DnsQuery, ParseError>)
        ensures
            match dns_query_name(buffer@) {
                Ok(name) => res matches Ok(q) && q.domain_name@ == name,
                Err(e) => res matches Err(e2) && e2 == e,
            },
    {
        if buffer.len() < DNS_HEADER_LEN {
            return Err(ParseError::BufferTooShort);
        }
        if buffer[2] >= 0x80 {
            return Err(ParseError::InvalidFormat);
        }
        let qdcount = read_be16(buffer, 4);
        if qdcount == 0 {
            return Err(ParseError::InvalidFormat);
        }
        let mut offset: usize = DNS_HEADER_LEN;
        let mut domain = String::new();
        while offset < buffer.len()
            invariant
                DNS_HEADER_LEN <= offset <= buffer@.len(),
                buffer@[2] < 0x80,
                be16(buffer@[4], buffer@[5]) != 0,
                qname_from(buffer@, DNS_HEADER_LEN as int, Seq::empty()) == qname_from(buffer@, offset as int, domain@),
            ensures
                qname_from(buffer@, DNS_HEADER_LEN as int, Seq::empty()) == Ok::<Seq<char>, ParseError>(domain@),
            decreases buffer@.len() - offset,
        {
            let ghost start = offset as int;
            let length = buffer[offset] as usize;
            if length == 0 {
                break;
            }
            if length >= 0xC0 {
                return Err(ParseError::InvalidFormat);
            }
            offset = offset + 1;
            if length >= buffer.len() - offset {
                return Err(ParseError::BufferTooShort);
            }
            let ghost before = domain@;
            if !domain.as_str().is_empty() {
                push_char(&mut domain, '.');
            }
            let label_bytes = &buffer[offset..offset + length];
            let label = match utf8_text(label_bytes) {
                Some(l) => l,
                None => {
                    return Err(ParseError::InvalidFormat);
                }
            };
            domain.append(label);
            proof {
                assert(buffer@.subrange(offset as int, offset + length) == label_bytes@);
                if before.len() == 0 {
                    assert(domain@ =~= append_label(before, label@));
                } else {
                    assert(domain@ =~= append_label(before, label@));
                }
            }
            offset = offset + length;
            assert(qname_from(buffer@, start, before) == qname_from(buffer@, offset as int, domain@));
        }
        if domain.as_str().is_empty() {
            return Err(ParseError::InvalidFormat);
        }
        Ok(DnsQuery { domain_name: domain })
    }
}

} // verus!
