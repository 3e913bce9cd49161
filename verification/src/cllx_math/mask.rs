// cllX-Math: ChaCha20-based mask generation and modular masking of words.
use vstd::prelude::*;
use super::encode::{encode_chunk, le_word, byte_or_zero};
use crate::base::bytes::u64_byte;
use chacha20::ChaCha20;
use chacha20::cipher::{KeyIvInit, StreamCipher};

verus! {

/// The ChaCha20 (IETF variant, 96-bit nonce, counter starting at zero) keystream of
/// `len` bytes for `key` and `nonce`.
pub uninterp spec fn chacha20_keystream(key: Seq<u8>, nonce: Seq<u8>, len: nat) -> Seq<u8>;

/// Largest keystream, in bytes, that ChaCha20 with a 32-bit block counter provides.
pub open spec fn max_keystream_len() -> int {
    0xFFFF_FFFFint * 64
}

/// Trusted: applies `chacha20::ChaCha20::new(key, nonce)`'s keystream to `len` zero
/// bytes, which yields the keystream itself. `apply_keystream` panics past the end of
/// the keystream, which the bound on `len` excludes. The bytes depend on `key`, `nonce`
/// and `len` only.
#[verifier::external_body]
fn chacha20_keystream_bytes(key: &[u8; 32], nonce: &[u8; 12], len: usize) -> (ks: Vec<u8>)
    requires
        len <= max_keystream_len(),
    ensures
        ks@ == chacha20_keystream(key@, nonce@, len as nat),
        ks@.len() == len,
{
    let mut buf = vec![0u8; len];
    let mut cipher = ChaCha20::new(key.into(), nonce.into());
    cipher.apply_keystream(&mut buf);
    buf
}

/// The per-chunk nonce: the first 8 bytes of the file nonce followed by the low 4 bytes
/// of the chunk id, little endian (the 12-byte ChaCha20 nonce has room for no more, so
/// ids that differ by a multiple of 2^32 share a nonce).
pub open spec fn mask_nonce(file_nonce: Seq<u8>, chunk_id: u64) -> Seq<u8> {
    file_nonce.subrange(0, 8) + seq![
        u64_byte(chunk_id, 0),
        u64_byte(chunk_id, 1),
        u64_byte(chunk_id, 2),
        u64_byte(chunk_id, 3),
    ]
}

/// The mask of `len` words for a chunk: the ChaCha20 keystream read as little-endian
/// words.
pub open spec fn spec_mask(k_mask: Seq<u8>, file_nonce: Seq<u8>, chunk_id: u64, len: nat) -> Seq<u32> {
    let ks = chacha20_keystream(k_mask, mask_nonce(file_nonce, chunk_id), 4 * len);
    Seq::new(len, |i: int| le_word(ks[4 * i], ks[4 * i + 1], ks[4 * i + 2], ks[4 * i + 3]))
}

/// Word addition modulo 2^32.
pub open spec fn add_word(p: u32, m: u32) -> u32 {
    ((p as int + m as int) % 0x1_0000_0000) as u32
}

/// Word subtraction modulo 2^32.
pub open spec fn sub_word(p: u32, m: u32) -> u32 {
    ((p as int - m as int) % 0x1_0000_0000) as u32
}

/// Shorter of two lengths (what zipping two sequences keeps).
pub open spec fn min_len(a: int, b: int) -> int {
    if a < b {
        a
    } else {
        b
    }
}

/// `poly` masked termwise (as far as both sequences go).
pub open spec fn spec_apply_mask(poly: Seq<u32>, mask: Seq<u32>) -> Seq<u32> {
    Seq::new(min_len(poly.len() as int, mask.len() as int) as nat, |i: int| add_word(poly[i], mask[i]))
}

/// `poly` unmasked termwise (as far as both sequences go).
pub open spec fn spec_remove_mask(poly: Seq<u32>, mask: Seq<u32>) -> Seq<u32> {
    Seq::new(min_len(poly.len() as int, mask.len() as int) as nat, |i: int| sub_word(poly[i], mask[i]))
}

/// Generate mask using ChaCha20.
/// Key: K_mask (32 bytes)
/// Nonce: file_nonce (8 bytes) || chunk_id (low 4 bytes); each chunk id below 2^32 has
/// a nonce of its own (`lemma_mask_nonce_injective`).
pub fn generate_mask(k_mask: &[u8; 32], file_nonce: &[u8; 12], chunk_id: u64, len: usize) -> (mask: Vec<u32>)
    requires
        4 * len <= max_keystream_len(),
        4 * len <= usize::MAX,
    ensures
        mask@ == spec_mask(k_mask@, file_nonce@, chunk_id, len as nat),
        mask@.len() == len,
{
    let nonce_bytes: [u8; 12] = [
        file_nonce[0],
        file_nonce[1],
        file_nonce[2],
        file_nonce[3],
        file_nonce[4],
        file_nonce[5],
        file_nonce[6],
        file_nonce[7],
        (chunk_id & 0xffu64) as u8,
        ((chunk_id >> 8u64) & 0xffu64) as u8,
        ((chunk_id >> 16u64) & 0xffu64) as u8,
        ((chunk_id >> 24u64) & 0xffu64) as u8,
    ];
    assert(nonce_bytes@ =~= mask_nonce(file_nonce@, chunk_id));
    let mask_bytes = chacha20_keystream_bytes(k_mask, &nonce_bytes, len * 4);
    assert(4 * len == len * 4);
    let mask = encode_chunk(mask_bytes.as_slice());
    proof {
        let ks = mask_bytes@;
        assert forall|i: int| 0 <= i < len implies #[trigger] mask@[i] == le_word(
            ks[4 * i],
            ks[4 * i + 1],
            ks[4 * i + 2],
            ks[4 * i + 3],
        ) by {
            assert(byte_or_zero(ks, 4 * i) == ks[4 * i]);
            assert(byte_or_zero(ks, 4 * i + 1) == ks[4 * i + 1]);
            assert(byte_or_zero(ks, 4 * i + 2) == ks[4 * i + 2]);
            assert(byte_or_zero(ks, 4 * i + 3) == ks[4 * i + 3]);
        }
        assert(mask@ =~= spec_mask(k_mask@, file_nonce@, chunk_id, len as nat));
    }
    mask
}

/// Apply mask: poly[i] = (poly[i] + mask[i]) mod 2^32
pub fn apply_mask(poly: &[u32], mask: &[u32]) -> (out: Vec<u32>)
    ensures
        out@ == spec_apply_mask(poly@, mask@),
{
    let n = if poly.len() < mask.len() { poly.len() } else { mask.len() };
    let mut out: Vec<u32> = Vec::new();
    let mut i: usize = 0;
    while i < n
        invariant
            n == min_len(poly@.len() as int, mask@.len() as int),
            i <= n,
            out@ == spec_apply_mask(poly@, mask@).take(i as int),
        decreases n - i,
    {
        out.push(poly[i].wrapping_add(mask[i]));
        assert(out@ =~= spec_apply_mask(poly@, mask@).take(i as int + 1));
        i = i + 1;
    }
    assert(out@ =~= spec_apply_mask(poly@, mask@));
    out
}

/// Remove mask: poly[i] = (poly[i] - mask[i]) mod 2^32
pub fn remove_mask(poly: &[u32], mask: &[u32]) -> (out: Vec<u32>)
    ensures
        out@ == spec_remove_mask(poly@, mask@),
{
    let n = if poly.len() < mask.len() { poly.len() } else { mask.len() };
    let mut out: Vec<u32> = Vec::new();
    let mut i: usize = 0;
    while i < n
        invariant
            n == min_len(poly@.len() as int, mask@.len() as int),
            i <= n,
            out@ == spec_remove_mask(poly@, mask@).take(i as int),
        decreases n - i,
    {
        out.push(poly[i].wrapping_sub(mask[i]));
        assert(out@ =~= spec_remove_mask(poly@, mask@).take(i as int + 1));
        i = i + 1;
    }
    assert(out@ =~= spec_remove_mask(poly@, mask@));
    out
}

/// Law: the per-chunk nonce is unique. Two chunk ids below 2^32 and two file nonces
/// give the same mask nonce only when the ids are equal and the file nonces agree on
/// their first 8 bytes.
pub proof fn lemma_mask_nonce_injective(n1: Seq<u8>, id1: u64, n2: Seq<u8>, id2: u64)
    requires
        n1.len() == 12,
        n2.len() == 12,
        id1 < 0x1_0000_0000,
        id2 < 0x1_0000_0000,
        mask_nonce(n1, id1) == mask_nonce(n2, id2),
    ensures
        id1 == id2,
        n1.subrange(0, 8) == n2.subrange(0, 8),
{
    let a = mask_nonce(n1, id1);
    let b = mask_nonce(n2, id2);
    assert(a[8] == b[8] && a[9] == b[9] && a[10] == b[10] && a[11] == b[11]);
    assert(n1.subrange(0, 8) =~= a.subrange(0, 8));
    assert(n2.subrange(0, 8) =~= b.subrange(0, 8));
    assert(a[8] == (id1 & 0xffu64) as u8);
    assert(a[9] == ((id1 >> 8u64) & 0xffu64) as u8);
    assert(a[10] == ((id1 >> 16u64) & 0xffu64) as u8);
    assert(a[11] == ((id1 >> 24u64) & 0xffu64) as u8);
    assert(b[8] == (id2 & 0xffu64) as u8);
    assert(b[9] == ((id2 >> 8u64) & 0xffu64) as u8);
    assert(b[10] == ((id2 >> 16u64) & 0xffu64) as u8);
    assert(b[11] == ((id2 >> 24u64) & 0xffu64) as u8);
    assert(id1 == id2) by (bit_vector)
        requires
            id1 < 0x1_0000_0000,
            id2 < 0x1_0000_0000,
            (id1 & 0xffu64) as u8 == (id2 & 0xffu64) as u8,
            ((id1 >> 8u64) & 0xffu64) as u8 == ((id2 >> 8u64) & 0xffu64) as u8,
            ((id1 >> 16u64) & 0xffu64) as u8 == ((id2 >> 16u64) & 0xffu64) as u8,
            ((id1 >> 24u64) & 0xffu64) as u8 == ((id2 >> 24u64) & 0xffu64) as u8,
    ;
}

/// Law: removing a mask undoes applying it, for every word sequence at most as long as
/// the mask.
pub proof fn lemma_remove_apply_mask(poly: Seq<u32>, mask: Seq<u32>)
    requires
        poly.len() <= mask.len(),
    ensures
        spec_remove_mask(spec_apply_mask(poly, mask), mask) == poly,
{
    let a = spec_apply_mask(poly, mask);
    let r = spec_remove_mask(a, mask);
    assert forall|i: int| 0 <= i < poly.len() implies #[trigger] r[i] == poly[i] by {
        let p = poly[i] as int;
        let m = mask[i] as int;
        if p + m >= 0x1_0000_0000 {
            vstd::arithmetic::div_mod::lemma_fundamental_div_mod_converse(p + m, 0x1_0000_0000, 1, p + m - 0x1_0000_0000);
            vstd::arithmetic::div_mod::lemma_fundamental_div_mod_converse(p - 0x1_0000_0000, 0x1_0000_0000, -1, p);
        } else {
            vstd::arithmetic::div_mod::lemma_fundamental_div_mod_converse(p + m, 0x1_0000_0000, 0, p + m);
            vstd::arithmetic::div_mod::lemma_fundamental_div_mod_converse(p, 0x1_0000_0000, 0, p);
        }
    }
    assert(r =~= poly);
}

} // verus!
