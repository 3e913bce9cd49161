// cllX-Math: lossless encoding layer.
// Converts bytes <-> u32 words (4 bytes -> 1 u32, little endian).
use vstd::prelude::*;

verus! {

/// The little-endian word made of four bytes.
pub open spec fn le_word(b0: u8, b1: u8, b2: u8, b3: u8) -> u32 {
    (b0 as u32) | ((b1 as u32) << 8u32) | ((b2 as u32) << 16u32) | ((b3 as u32) << 24u32)
}

/// Byte `j` (0 = least significant) of a word.
pub open spec fn word_byte(w: u32, j: int) -> u8 {
    if j == 0 {
        (w & 0xffu32) as u8
    } else if j == 1 {
        ((w >> 8u32) & 0xffu32) as u8
    } else if j == 2 {
        ((w >> 16u32) & 0xffu32) as u8
    } else {
        ((w >> 24u32) & 0xffu32) as u8
    }
}

/// Byte `i` of `s`, or zero past its end (the padding of the last word).
pub open spec fn byte_or_zero(s: Seq<u8>, i: int) -> u8 {
    if 0 <= i < s.len() {
        s[i]
    } else {
        0
    }
}

/// Number of words needed for `len` bytes.
pub open spec fn words_for(len: int) -> int {
    (len + 3) / 4
}

/// Bytes encoded as little-endian words; a short last group is padded with zeros.
pub open spec fn spec_encode(s: Seq<u8>) -> Seq<u32> {
    Seq::new(
        words_for(s.len() as int) as nat,
        |k: int|
            le_word(
                byte_or_zero(s, 4 * k),
                byte_or_zero(s, 4 * k + 1),
                byte_or_zero(s, 4 * k + 2),
                byte_or_zero(s, 4 * k + 3),
            ),
    )
}

/// Words written out as their four little-endian bytes each.
pub open spec fn spec_decode(p: Seq<u32>) -> Seq<u8> {
    Seq::new(4 * p.len(), |i: int| word_byte(p[i / 4], i % 4))
}

/// Number of zero bytes that pad `len` bytes up to whole words.
pub open spec fn pad_len(len: int) -> int {
    4 * words_for(len) - len
}

/// The padding of `len` bytes: at most 3 bytes, none for whole words, and rounding
/// `len` up to a multiple of 4.
pub proof fn lemma_pad_len(len: int)
    requires
        len >= 0,
    ensures
        0 <= pad_len(len) <= 3,
        (len + pad_len(len)) % 4 == 0,
        (len + pad_len(len) + 1) % 4 == 1,
        len % 4 == 0 <==> pad_len(len) == 0,
        len % 4 != 0 ==> pad_len(len) == 4 - len % 4,
{
}

/// Rounding up to whole words keeps the order of lengths.
pub proof fn lemma_pad_len_monotone(a: int, b: int)
    requires
        0 <= a <= b,
    ensures
        a + pad_len(a) <= b + pad_len(b),
{
}

proof fn lemma_bytes_of_word(b0: u8, b1: u8, b2: u8, b3: u8)
    ensures
        word_byte(le_word(b0, b1, b2, b3), 0) == b0,
        word_byte(le_word(b0, b1, b2, b3), 1) == b1,
        word_byte(le_word(b0, b1, b2, b3), 2) == b2,
        word_byte(le_word(b0, b1, b2, b3), 3) == b3,
{
    assert(((b0 as u32) | ((b1 as u32) << 8u32) | ((b2 as u32) << 16u32) | ((b3 as u32) << 24u32))
        & 0xffu32 == b0 as u32) by (bit_vector);
    assert((((b0 as u32) | ((b1 as u32) << 8u32) | ((b2 as u32) << 16u32) | ((b3 as u32) << 24u32))
        >> 8u32) & 0xffu32 == b1 as u32) by (bit_vector);
    assert((((b0 as u32) | ((b1 as u32) << 8u32) | ((b2 as u32) << 16u32) | ((b3 as u32) << 24u32))
        >> 16u32) & 0xffu32 == b2 as u32) by (bit_vector);
    assert((((b0 as u32) | ((b1 as u32) << 8u32) | ((b2 as u32) << 16u32) | ((b3 as u32) << 24u32))
        >> 24u32) & 0xffu32 == b3 as u32) by (bit_vector);
}

proof fn lemma_word_of_bytes(w: u32)
    ensures
        le_word(word_byte(w, 0), word_byte(w, 1), word_byte(w, 2), word_byte(w, 3)) == w,
{
    assert(((((w & 0xffu32) as u8) as u32) | (((((w >> 8u32) & 0xffu32) as u8) as u32) << 8u32)
        | (((((w >> 16u32) & 0xffu32) as u8) as u32) << 16u32) | (((((w >> 24u32) & 0xffu32) as u8)
        as u32) << 24u32)) == w) by (bit_vector);
}

/// Law: decoding the encoding of a byte string gives it back, followed by the zero
/// padding of its last word.
pub proof fn lemma_decode_encode(s: Seq<u8>)
    ensures
        spec_decode(spec_encode(s)) == s + Seq::new(pad_len(s.len() as int) as nat, |i: int| 0u8),
{
    let e = spec_encode(s);
    let d = spec_decode(e);
    let r = s + Seq::new(pad_len(s.len() as int) as nat, |i: int| 0u8);
    assert forall|i: int| 0 <= i < d.len() implies #[trigger] d[i] == r[i] by {
        let k = i / 4;
        let j = i % 4;
        assert(i == 4 * k + j);
        lemma_bytes_of_word(
            byte_or_zero(s, 4 * k),
            byte_or_zero(s, 4 * k + 1),
            byte_or_zero(s, 4 * k + 2),
            byte_or_zero(s, 4 * k + 3),
        );
    }
    assert(d =~= r);
}

/// Law: encoding the decoding of a word sequence gives it back.
pub proof fn lemma_encode_decode(p: Seq<u32>)
    ensures
        spec_encode(spec_decode(p)) == p,
{
    let d = spec_decode(p);
    let e = spec_encode(d);
    assert(words_for(d.len() as int) == p.len());
    assert forall|k: int| 0 <= k < p.len() implies #[trigger] e[k] == p[k] by {
        assert(d[4 * k] == word_byte(p[k], 0));
        assert(d[4 * k + 1] == word_byte(p[k], 1));
        assert(d[4 * k + 2] == word_byte(p[k], 2));
        assert(d[4 * k + 3] == word_byte(p[k], 3));
        lemma_word_of_bytes(p[k]);
    }
    assert(e =~= p);
}

/// Encode chunk bytes to u32 polynomial (4 bytes -> 1 u32).
pub fn encode_chunk(chunk: &[u8]) -> (poly: Vec<u32>)
    ensures
        poly@ == spec_encode(chunk@),
{
    let n = chunk.len();
    let words = n / 4 + if n % 4 == 0 { 0 } else { 1 };
    let mut poly: Vec<u32> = Vec::new();
    let mut k: usize = 0;
    while k < words
        invariant
            n == chunk@.len(),
            words == words_for(n as int),
            k <= words,
            poly@ == spec_encode(chunk@).take(k as int),
        decreases words - k,
    {
        let base = 4 * k;
        let rem = n - base;
        let b0 = chunk[base];
        let b1 = if rem > 1 { chunk[base + 1] } else { 0u8 };
        let b2 = if rem > 2 { chunk[base + 2] } else { 0u8 };
        let b3 = if rem > 3 { chunk[base + 3] } else { 0u8 };
        let w = (b0 as u32) | ((b1 as u32) << 8u32) | ((b2 as u32) << 16u32) | ((b3 as u32) << 24u32);
        poly.push(w);
        assert(poly@ =~= spec_encode(chunk@).take(k as int + 1));
        k = k + 1;
    }
    assert(poly@ =~= spec_encode(chunk@));
    poly
}

/// Decode u32 polynomial back to bytes.
pub fn decode_chunk(poly: &[u32]) -> (bytes: Vec<u8>)
    requires
        4 * poly@.len() <= usize::MAX,
    ensures
        bytes@ == spec_decode(poly@),
{
    let mut bytes: Vec<u8> = Vec::new();
    let mut k: usize = 0;
    while k < poly.len()
        invariant
            k <= poly@.len(),
            bytes@ == spec_decode(poly@).take(4 * k),
        decreases poly@.len() - k,
    {
        let w = poly[k];
        bytes.push((w & 0xffu32) as u8);
        bytes.push(((w >> 8u32) & 0xffu32) as u8);
        bytes.push(((w >> 16u32) & 0xffu32) as u8);
        bytes.push(((w >> 24u32) & 0xffu32) as u8);
        assert(bytes@ =~= spec_decode(poly@).take(4 * k + 4));
        k = k + 1;
    }
    assert(bytes@ =~= spec_decode(poly@));
    bytes
}

} // verus!
