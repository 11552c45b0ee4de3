//! SHA-1 (FIPS 180-4), as the WebSocket handshake needs it.
use vstd::prelude::*;
use vstd::wrapping::u32_specs::wrapping_add;

verus! {

/// The five chaining words.
pub type Sha1State = (u32, u32, u32, u32, u32);

/// The initial hash value.
pub open spec fn sha1_init() -> Sha1State {
    (0x67452301u32, 0xEFCDAB89u32, 0x98BADCFEu32, 0x10325476u32, 0xC3D2E1F0u32)
}

/// `n` as `k` bytes, most significant first.
pub open spec fn be_bytes(n: nat, k: nat) -> Seq<u8>
    decreases k,
{
    if k == 0 {
        Seq::empty()
    } else {
        be_bytes(n / 256, (k - 1) as nat).push((n % 256) as u8)
    }
}

/// How many zero bytes follow the `0x80` marker so that the length field ends a 64-byte block.
pub open spec fn zero_pad_len(n: nat) -> nat {
    ((119 - (n % 64)) % 64) as nat
}

/// The message, the `0x80` marker, zero bytes, and the length in bits as a 64-bit big-endian number.
pub open spec fn sha1_padded(data: Seq<u8>) -> Seq<u8> {
    data + seq![0x80u8] + Seq::new(zero_pad_len(data.len()), |i: int| 0u8) + be_bytes(data.len() * 8, 8)
}

/// The big-endian word at byte `at`.
pub open spec fn be_word(b: Seq<u8>, at: int) -> u32 {
    (b[at] * 0x100_0000 + b[at + 1] * 0x1_0000 + b[at + 2] * 0x100 + b[at + 3]) as u32
}

/// Left rotation of a word by `n` bits (`0 < n < 32`).
pub open spec fn rotl(x: u32, n: u32) -> u32 {
    (x << n) | (x >> ((32 - n) as u32))
}

/// Word `t` of the message schedule of a 64-byte block.
pub open spec fn schedule(block: Seq<u8>, t: int) -> u32
    decreases t,
{
    if t < 16 {
        be_word(block, 4 * t)
    } else {
        rotl(schedule(block, t - 3) ^ schedule(block, t - 8) ^ schedule(block, t - 14) ^ schedule(block, t - 16), 1)
    }
}

/// The round function and constant of round `t`.
pub open spec fn round_fk(t: int, b: u32, c: u32, d: u32) -> (u32, u32) {
    if t < 20 {
        ((b & c) | (!b & d), 0x5A827999u32)
    } else if t < 40 {
        (b ^ c ^ d, 0x6ED9EBA1u32)
    } else if t < 60 {
        ((b & c) | (b & d) | (c & d), 0x8F1BBCDCu32)
    } else {
        (b ^ c ^ d, 0xCA62C1D6u32)
    }
}

/// One round applied to the working variables with schedule word `w`.
pub open spec fn sha1_round(s: Sha1State, t: int, w: u32) -> Sha1State {
    let (f, k) = round_fk(t, s.1, s.2, s.3);
    let temp = wrapping_add(wrapping_add(wrapping_add(wrapping_add(rotl(s.0, 5), f), s.4), k), w);
    (temp, s.0, rotl(s.1, 30), s.2, s.3)
}

/// The working variables after the first `t` rounds on `block`.
pub open spec fn sha1_rounds(h: Sha1State, block: Seq<u8>, t: nat) -> Sha1State
    decreases t,
{
    if t == 0 {
        h
    } else {
        sha1_round(sha1_rounds(h, block, (t - 1) as nat), t - 1, schedule(block, t - 1))
    }
}

/// The chaining value after one 64-byte block.
pub open spec fn sha1_compress(h: Sha1State, block: Seq<u8>) -> Sha1State {
    let r = sha1_rounds(h, block, 80);
    (wrapping_add(h.0, r.0), wrapping_add(h.1, r.1), wrapping_add(h.2, r.2), wrapping_add(h.3, r.3), wrapping_add(h.4, r.4))
}

/// The chaining value after the first `n` blocks of `padded`.
pub open spec fn sha1_blocks(padded: Seq<u8>, n: nat) -> Sha1State
    decreases n,
{
    if n == 0 {
        sha1_init()
    } else {
        sha1_compress(sha1_blocks(padded, (n - 1) as nat), padded.subrange(64 * (n - 1), 64 * (n as int)))
    }
}

/// The SHA-1 digest of `data`.
pub open spec fn sha1_digest(data: Seq<u8>) -> Seq<u8> {
    let p = sha1_padded(data);
    let h = sha1_blocks(p, p.len() / 64);
    be_bytes(h.0 as nat, 4) + be_bytes(h.1 as nat, 4) + be_bytes(h.2 as nat, 4) + be_bytes(h.3 as nat, 4)
        + be_bytes(h.4 as nat, 4)
}

proof fn lemma_be_bytes_len(n: nat, k: nat)
    ensures
        be_bytes(n, k).len() == k,
    decreases k,
{
    if k > 0 {
        lemma_be_bytes_len(n / 256, (k - 1) as nat);
    }
}

proof fn lemma_padding_fills_blocks(n: nat)
    ensures
        (n + 9 + zero_pad_len(n)) % 64 == 0,
{
    let r = n % 64;
    let q = n / 64;
    assert(n == 64 * q + r);
    if r <= 55 {
        assert(zero_pad_len(n) == 55 - r);
        assert(n + 9 + zero_pad_len(n) == 64 * (q + 1));
    } else {
        assert(zero_pad_len(n) == 119 - r);
        assert(n + 9 + zero_pad_len(n) == 64 * (q + 2));
    }
}

/// Appends `n` as `k` big-endian bytes.
fn push_be(v: &mut Vec<u8>, n: u64, k: usize)
    requires
        k <= 8,
    ensures
        final(v)@ == old(v)@ + be_bytes(n as nat, k as nat),
    decreases k,
{
    if k > 0 {
        push_be(v, n / 256, k - 1);
        v.push((n % 256) as u8);
        assert(final(v)@ =~= old(v)@ + be_bytes(n as nat, k as nat));
    }
}

fn rotl_exec(x: u32, n: u32) -> (r: u32)
    requires
        0 < n < 32,
    ensures
        r == rotl(x, n),
{
    (x << n) | (x >> (32 - n))
}

/// The SHA-1 digest of `data`.
pub fn sha1(data: &[u8]) -> (out: [u8; 20])
    requires
        data@.len() * 8 <= u64::MAX,
    ensures
        out@ == sha1_digest(data@),
{
    let mut bytes: Vec<u8> = Vec::new();
    let mut i: usize = 0;
    while i < data.len()
        invariant
            i <= data@.len(),
            bytes@ == data@.take(i as int),
        decreases data@.len() - i,
    {
        bytes.push(data[i]);
        i = i + 1;
        assert(bytes@ =~= data@.take(i as int));
    }
    assert(data@.take(data@.len() as int) =~= data@);
    bytes.push(0x80);
    let zeros = (119 - data.len() % 64) % 64;
    let mut z: usize = 0;
    while z < zeros
        invariant
            z <= zeros,
            zeros == zero_pad_len(data@.len()),
            bytes@ == data@ + seq![0x80u8] + Seq::new(z as nat, |i: int| 0u8),
        decreases zeros - z,
    {
        bytes.push(0);
        z = z + 1;
        assert(bytes@ =~= data@ + seq![0x80u8] + Seq::new(z as nat, |i: int| 0u8));
    }
    let bit_len = (data.len() as u64) * 8;
    push_be(&mut bytes, bit_len, 8);
    let ghost padded = bytes@;
    proof {
        lemma_be_bytes_len(bit_len as nat, 8);
        lemma_padding_fills_blocks(data@.len());
    }
    assert(padded == sha1_padded(data@));
    assert(padded.len() % 64 == 0);

    let mut h0: u32 = 0x67452301;
    let mut h1: u32 = 0xEFCDAB89;
    let mut h2: u32 = 0x98BADCFE;
    let mut h3: u32 = 0x10325476;
    let mut h4: u32 = 0xC3D2E1F0;
    let mut start: usize = 0;
    while start < bytes.len()
        invariant
            bytes@ == padded,
            padded.len() % 64 == 0,
            start % 64 == 0,
            start <= padded.len(),
            (h0, h1, h2, h3, h4) == sha1_blocks(padded, (start / 64) as nat),
        decreases padded.len() - start,
    {
        let ghost block = padded.subrange(start as int, start + 64);
        let mut w: Vec<u32> = Vec::new();
        let mut t: usize = 0;
        while t < 80
            invariant
                t <= 80,
                start + 64 <= bytes.len(),
                bytes@ == padded,
                block == padded.subrange(start as int, start + 64),
                w@.len() == t,
                forall|j: int| 0 <= j < t ==> w@[j] == schedule(block, j),
            decreases 80 - t,
        {
            let word = if t < 16 {
                let at = start + 4 * t;
                (bytes[at] as u32) * 0x100_0000 + (bytes[at + 1] as u32) * 0x1_0000 + (bytes[at + 2] as u32) * 0x100
                    + (bytes[at + 3] as u32)
            } else {
                rotl_exec(w[t - 3] ^ w[t - 8] ^ w[t - 14] ^ w[t - 16], 1)
            };
            proof {
                if t < 16 {
                    assert(bytes@[start + 4 * t] == block[4 * t]);
                    assert(bytes@[start + 4 * t + 1] == block[4 * t + 1]);
                    assert(bytes@[start + 4 * t + 2] == block[4 * t + 2]);
                    assert(bytes@[start + 4 * t + 3] == block[4 * t + 3]);
                    assert(word == be_word(block, 4 * t));
                } else {
                    assert(w@[t - 3] == schedule(block, t - 3));
                    assert(w@[t - 8] == schedule(block, t - 8));
                    assert(w@[t - 14] == schedule(block, t - 14));
                    assert(w@[t - 16] == schedule(block, t - 16));
                }
            }
            assert(word == schedule(block, t as int));
            w.push(word);
            t = t + 1;
        }
        let mut a = h0;
        let mut b = h1;
        let mut c = h2;
        let mut d = h3;
        let mut e = h4;
        let mut r: usize = 0;
        while r < 80
            invariant
                r <= 80,
                w@.len() == 80,
                forall|j: int| 0 <= j < 80 ==> w@[j] == schedule(block, j),
                (a, b, c, d, e) == sha1_rounds((h0, h1, h2, h3, h4), block, r as nat),
            decreases 80 - r,
        {
            let (f, k) = if r < 20 {
                ((b & c) | (!b & d), 0x5A827999u32)
            } else if r < 40 {
                (b ^ c ^ d, 0x6ED9EBA1u32)
            } else if r < 60 {
                ((b & c) | (b & d) | (c & d), 0x8F1BBCDCu32)
            } else {
                (b ^ c ^ d, 0xCA62C1D6u32)
            };
            let temp = rotl_exec(a, 5).wrapping_add(f).wrapping_add(e).wrapping_add(k).wrapping_add(w[r]);
            e = d;
            d = c;
            c = rotl_exec(b, 30);
            b = a;
            a = temp;
            r = r + 1;
        }
        h0 = h0.wrapping_add(a);
        h1 = h1.wrapping_add(b);
        h2 = h2.wrapping_add(c);
        h3 = h3.wrapping_add(d);
        h4 = h4.wrapping_add(e);
        assert(((start + 64) / 64) as nat == (start / 64) as nat + 1);
        start = start + 64;
    }
    proof {
        lemma_be_bytes_len(h0 as nat, 4);
        lemma_be_bytes_len(h1 as nat, 4);
        lemma_be_bytes_len(h2 as nat, 4);
        lemma_be_bytes_len(h3 as nat, 4);
        lemma_be_bytes_len(h4 as nat, 4);
    }
    let mut digest: Vec<u8> = Vec::new();
    push_be(&mut digest, h0 as u64, 4);
    push_be(&mut digest, h1 as u64, 4);
    push_be(&mut digest, h2 as u64, 4);
    push_be(&mut digest, h3 as u64, 4);
    push_be(&mut digest, h4 as u64, 4);
    let out: [u8; 20] = [
        digest[0], digest[1], digest[2], digest[3], digest[4], digest[5], digest[6], digest[7], digest[8], digest[9],
        digest[10], digest[11], digest[12], digest[13], digest[14], digest[15], digest[16], digest[17], digest[18],
        digest[19],
    ];
    assert(out@ =~= digest@);
    out
}

} // verus!
