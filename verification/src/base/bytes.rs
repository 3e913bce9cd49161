// Little-endian byte encodings of integers and byte-buffer helpers.
use vstd::prelude::*;

verus! {

/// Byte `j` (0 = least significant) of a 64-bit value.
pub open spec fn u64_byte(x: u64, j: int) -> u8 {
    if j == 0 {
        (x & 0xffu64) as u8
    } else if j == 1 {
        ((x >> 8u64) & 0xffu64) as u8
    } else if j == 2 {
        ((x >> 16u64) & 0xffu64) as u8
    } else if j == 3 {
        ((x >> 24u64) & 0xffu64) as u8
    } else if j == 4 {
        ((x >> 32u64) & 0xffu64) as u8
    } else if j == 5 {
        ((x >> 40u64) & 0xffu64) as u8
    } else if j == 6 {
        ((x >> 48u64) & 0xffu64) as u8
    } else {
        ((x >> 56u64) & 0xffu64) as u8
    }
}

/// Byte `j` (0 = least significant) of a 32-bit value.
pub open spec fn u32_byte(x: u32, j: int) -> u8 {
    if j == 0 {
        (x & 0xffu32) as u8
    } else if j == 1 {
        ((x >> 8u32) & 0xffu32) as u8
    } else if j == 2 {
        ((x >> 16u32) & 0xffu32) as u8
    } else {
        ((x >> 24u32) & 0xffu32) as u8
    }
}

/// The 8 little-endian bytes of a 64-bit value.
pub open spec fn u64_le(x: u64) -> Seq<u8> {
    Seq::new(8, |j: int| u64_byte(x, j))
}

/// The 4 little-endian bytes of a 32-bit value.
pub open spec fn u32_le(x: u32) -> Seq<u8> {
    Seq::new(4, |j: int| u32_byte(x, j))
}

/// `x.to_le_bytes()` for a 64-bit value.
pub fn u64_to_le_bytes(x: u64) -> (b: [u8; 8])
    ensures
        b@ == u64_le(x),
{
    let b: [u8; 8] = [
        (x & 0xffu64) as u8,
        ((x >> 8u64) & 0xffu64) as u8,
        ((x >> 16u64) & 0xffu64) as u8,
        ((x >> 24u64) & 0xffu64) as u8,
        ((x >> 32u64) & 0xffu64) as u8,
        ((x >> 40u64) & 0xffu64) as u8,
        ((x >> 48u64) & 0xffu64) as u8,
        ((x >> 56u64) & 0xffu64) as u8,
    ];
    assert(b@ =~= u64_le(x));
    b
}

/// `x.to_le_bytes()` for a 32-bit value.
pub fn u32_to_le_bytes(x: u32) -> (b: [u8; 4])
    ensures
        b@ == u32_le(x),
{
    let b: [u8; 4] = [
        (x & 0xffu32) as u8,
        ((x >> 8u32) & 0xffu32) as u8,
        ((x >> 16u32) & 0xffu32) as u8,
        ((x >> 24u32) & 0xffu32) as u8,
    ];
    assert(b@ =~= u32_le(x));
    b
}

/// Appends the bytes of `s` to `out`.
pub fn append_bytes(out: &mut Vec<u8>, s: &[u8])
    ensures
        final(out)@ == old(out)@ + s@,
{
    let mut i: usize = 0;
    while i < s.len()
        invariant
            i <= s@.len(),
            out@ == old(out)@ + s@.take(i as int),
        decreases s@.len() - i,
    {
        out.push(s[i]);
        assert(s@.take(i as int + 1) == s@.take(i as int).push(s@[i as int]));
        i = i + 1;
    }
    assert(s@.take(s@.len() as int) == s@);
}

/// A copy of a byte string.
pub fn bytes_to_vec(s: &[u8]) -> (v: Vec<u8>)
    ensures
        v@ == s@,
{
    let mut v: Vec<u8> = Vec::new();
    append_bytes(&mut v, s);
    v
}

/// The first 32 bytes of `s` as an array.
pub fn first_32(s: &[u8]) -> (a: [u8; 32])
    requires
        s@.len() >= 32,
    ensures
        a@ == s@.subrange(0, 32),
{
    let mut a = [0u8; 32];
    let mut i: usize = 0;
    while i < 32
        invariant
            s@.len() >= 32,
            i <= 32,
            a@.len() == 32,
            forall|k: int| 0 <= k < i ==> a@[k] == s@[k],
        decreases 32 - i,
    {
        a[i] = s[i];
        i = i + 1;
    }
    assert(a@ =~= s@.subrange(0, 32));
    a
}

/// Bytes `start .. start + 16` of `s` as an array.
pub fn bytes_16_at(s: &[u8], start: usize) -> (a: [u8; 16])
    requires
        start + 16 <= s@.len(),
    ensures
        a@ == s@.subrange(start as int, start + 16),
{
    let mut a = [0u8; 16];
    let n = s.len();
    let mut i: usize = 0;
    while i < 16
        invariant
            start + 16 <= s@.len(),
            n == s@.len(),
            i <= 16,
            a@.len() == 16,
            forall|k: int| 0 <= k < i ==> a@[k] == s@[start + k],
        decreases 16 - i,
    {
        a[i] = s[start + i];
        i = i + 1;
    }
    assert(a@ =~= s@.subrange(start as int, start + 16));
    a
}

/// The value of 4 little-endian bytes.
pub open spec fn le_u32_value(s: Seq<u8>) -> int {
    s[0] + s[1] * 0x100 + s[2] * 0x1_0000 + s[3] * 0x100_0000
}

/// `u32::from_le_bytes` of the 4 bytes of `s`.
pub fn u32_from_le(s: &[u8]) -> (x: u32)
    requires
        s@.len() == 4,
    ensures
        x == le_u32_value(s@),
{
    s[0] as u32 + s[1] as u32 * 0x100 + s[2] as u32 * 0x1_0000 + s[3] as u32 * 0x100_0000
}

/// Reading back the little-endian bytes of a 32-bit value gives the value.
pub proof fn lemma_u32_le_value(x: u32)
    ensures
        le_u32_value(u32_le(x)) == x,
{
    let b0 = (x & 0xffu32) as u8;
    let b1 = ((x >> 8u32) & 0xffu32) as u8;
    let b2 = ((x >> 16u32) & 0xffu32) as u8;
    let b3 = ((x >> 24u32) & 0xffu32) as u8;
    assert(x == b0 as u32 + b1 as u32 * 0x100 + b2 as u32 * 0x1_0000 + b3 as u32 * 0x100_0000) by (bit_vector)
        requires
            b0 == (x & 0xffu32) as u8,
            b1 == ((x >> 8u32) & 0xffu32) as u8,
            b2 == ((x >> 16u32) & 0xffu32) as u8,
            b3 == ((x >> 24u32) & 0xffu32) as u8,
    ;
    assert(u32_le(x)[0] == b0);
    assert(u32_le(x)[1] == b1);
    assert(u32_le(x)[2] == b2);
    assert(u32_le(x)[3] == b3);
}

} // verus!
