//! Splitting data into chunks and encrypting each chunk with its own key and nonce.
pub mod engine;

use vstd::prelude::*;
use crate::base::error::Error;
use crate::base::crypto::{AeadCipher, CipherType, encrypt_result};
use crate::base::keys::{KeyDerivation, hkdf_sha3_256_okm32, chunk_label};
use crate::base::bytes::{u64_le, u32_le, u64_to_le_bytes, u32_to_le_bytes, append_bytes};

pub use engine::{ChunkEngineV2, ChunkAAD};

verus! {

/// The pieces of `data` cut every `size` bytes (the last one possibly shorter).
pub open spec fn spec_split(data: Seq<u8>, size: int) -> Seq<Seq<u8>> {
    Seq::new(
        ((data.len() + size - 1) / size) as nat,
        |k: int|
            data.subrange(
                k * size,
                if (k + 1) * size <= data.len() {
                    (k + 1) * size
                } else {
                    data.len() as int
                },
            ),
    )
}

/// The key of chunk `i`, derived from the tree root key.
pub open spec fn chunk_key(tree_root_key: Seq<u8>, i: int) -> Seq<u8> {
    hkdf_sha3_256_okm32(tree_root_key, chunk_label(i as u64))
}

/// The nonce of chunk `i`: the file nonce with its last four bytes replaced by the
/// chunk index (truncated to 32 bits, little endian).
pub open spec fn chunk_nonce(file_nonce: Seq<u8>, i: int) -> Seq<u8> {
    file_nonce.subrange(0, 8) + u32_le(i as u32)
}

/// Associated data of a chunk: its index and its size, both as 64-bit little endian.
pub open spec fn chunk_aad(i: int, size: int) -> Seq<u8> {
    u64_le(i as u64) + u64_le(size as u64)
}

/// Builds the nonce of chunk `i`.
pub fn make_chunk_nonce(file_nonce: &[u8; 12], i: usize) -> (n: [u8; 12])
    ensures
        n@ == chunk_nonce(file_nonce@, i as int),
{
    let b = u32_to_le_bytes(i as u32);
    let n: [u8; 12] = [
        file_nonce[0],
        file_nonce[1],
        file_nonce[2],
        file_nonce[3],
        file_nonce[4],
        file_nonce[5],
        file_nonce[6],
        file_nonce[7],
        b[0],
        b[1],
        b[2],
        b[3],
    ];
    assert(n@ =~= chunk_nonce(file_nonce@, i as int));
    n
}

/// Splits `data` into pieces of `chunk_size` bytes.
pub fn split_data<'a>(data: &'a [u8], chunk_size: usize) -> (pieces: Vec<&'a [u8]>)
    requires
        chunk_size > 0,
    ensures
        pieces@.len() == spec_split(data@, chunk_size as int).len(),
        forall|k: int| 0 <= k < pieces@.len() ==> #[trigger] pieces@[k]@ == spec_split(data@, chunk_size as int)[k],
{
    let n = data.len();
    let ghost sp = spec_split(data@, chunk_size as int);
    let mut pieces: Vec<&'a [u8]> = Vec::new();
    let mut off: usize = 0;
    let ghost mut k: int = 0;
    proof {
        if n > 0 {
            assert(0 < sp.len()) by (nonlinear_arith)
                requires
                    n > 0,
                    chunk_size > 0,
                    sp.len() == (n + chunk_size - 1) / (chunk_size as int),
            ;
        } else {
            assert(sp.len() == 0) by (nonlinear_arith)
                requires
                    n == 0,
                    chunk_size > 0,
                    sp.len() == (n + chunk_size - 1) / (chunk_size as int),
            ;
        }
    }
    while off < n
        invariant
            chunk_size > 0,
            n == data@.len(),
            sp == spec_split(data@, chunk_size as int),
            off <= n,
            off < n ==> off == k * chunk_size,
            0 <= k,
            pieces@.len() == k,
            forall|q: int| 0 <= q < k ==> #[trigger] pieces@[q]@ == sp[q],
            off < n ==> k < sp.len(),
            off >= n ==> k == sp.len(),
        decreases n - off,
    {
        let end = if n - off <= chunk_size { n } else { off + chunk_size };
        proof {
            assert((k + 1) * chunk_size == off + chunk_size) by (nonlinear_arith)
                requires
                    off == k * chunk_size,
            ;
        }
        pieces.push(&data[off..end]);
        proof {
            assert(pieces@[k]@ == sp[k]);
            k = k + 1;
            if end < n {
                assert(k * chunk_size < n);
                assert(k < sp.len()) by (nonlinear_arith)
                    requires
                        k * chunk_size < n,
                        chunk_size > 0,
                        sp.len() == (n + chunk_size - 1) / (chunk_size as int),
                ;
            } else {
                assert(k == sp.len()) by (nonlinear_arith)
                    requires
                        (k - 1) * chunk_size < n,
                        n <= k * chunk_size,
                        chunk_size > 0,
                        sp.len() == (n + chunk_size - 1) / (chunk_size as int),
                ;
            }
        }
        off = end;
    }
    pieces
}

pub struct ChunkEngine {
    chunk_size: usize,
    cipher: AeadCipher,
}

/// What `encrypt_chunks` promises of one chunk's ciphertext.
pub open spec fn chunk_sealed(
    t: CipherType,
    tree_root_key: Seq<u8>,
    file_nonce: Seq<u8>,
    i: int,
    chunk: Seq<u8>,
    ct: Vec<u8>,
) -> bool {
    encrypt_result(
        t,
        chunk_key(tree_root_key, i),
        chunk_nonce(file_nonce, i),
        chunk,
        chunk_aad(i, chunk.len() as int),
        Ok(ct),
    )
}

/// Opening of ciphertext `i` with its key, nonce and associated data (the size taken
/// from `sizes`, zero when missing).
pub open spec fn chunk_open_at(
    t: CipherType,
    tree_root_key: Seq<u8>,
    file_nonce: Seq<u8>,
    cts: Seq<Vec<u8>>,
    sizes: Seq<usize>,
    i: int,
) -> Option<Seq<u8>> {
    crate::base::crypto::aead_open(
        t,
        chunk_key(tree_root_key, i),
        chunk_nonce(file_nonce, i),
        cts[i]@,
        chunk_aad(i, if i < sizes.len() { sizes[i] as int } else { 0 }),
    )
}

/// What `decrypt_chunks` promises: each chunk opened with its key, nonce and associated
/// data (the size taken from `sizes`, zero when missing); `AuthFailed` when one does not
/// open.
pub open spec fn chunks_opened(
    t: CipherType,
    tree_root_key: Seq<u8>,
    file_nonce: Seq<u8>,
    cts: Seq<Vec<u8>>,
    sizes: Seq<usize>,
    r: Result<Vec<Vec<u8>>, Error>,
) -> bool {
    match r {
        Ok(pts) => pts@.len() == cts.len() && forall|i: int|
            0 <= i < cts.len() ==> #[trigger] chunk_open_at(t, tree_root_key, file_nonce, cts, sizes, i)
                == Some(pts@[i]@),
        Err(e) => e is AuthFailed && exists|i: int|
            0 <= i < cts.len() && #[trigger] chunk_open_at(t, tree_root_key, file_nonce, cts, sizes, i) is None,
    }
}

impl ChunkEngine {
    pub fn new(chunk_size: usize, cipher_type: CipherType) -> (e: Self)
        ensures
            e.chunk_size() == chunk_size,
            e.cipher_type() == cipher_type,
    {
        Self { chunk_size, cipher: AeadCipher::new(cipher_type) }
    }

    /// The size of the pieces data is split into.
    pub closed spec fn chunk_size(&self) -> usize {
        self.chunk_size
    }

    /// The cipher chunks are encrypted with.
    pub closed spec fn cipher_type(&self) -> CipherType {
        self.cipher.kind()
    }

    /// Split data into chunks.
    pub fn split<'a>(&self, data: &'a [u8]) -> (pieces: Vec<&'a [u8]>)
        requires
            self.chunk_size() > 0,
        ensures
            pieces@.len() == spec_split(data@, self.chunk_size() as int).len(),
            forall|k: int| 0 <= k < pieces@.len() ==> #[trigger] pieces@[k]@ == spec_split(data@, self.chunk_size() as int)[k],
    {
        split_data(data, self.chunk_size)
    }

    /// Encrypt all chunks: chunk `i` under its own derived key, its own nonce and its
    /// index and size as associated data.
    pub fn encrypt_chunks(&self, chunks: &[Vec<u8>], tree_root_key: &[u8; 32], file_nonce: &[u8; 12]) -> (r: Result<Vec<Vec<u8>>, Error>)
        requires
            forall|i: int| 0 <= i < chunks@.len() ==> #[trigger] chunks@[i]@.len() + 16 <= usize::MAX,
        ensures
            match r {
                Ok(cts) => cts@.len() == chunks@.len() && forall|i: int|
                    0 <= i < chunks@.len() ==> #[trigger] chunk_sealed(
                        self.cipher_type(),
                        tree_root_key@,
                        file_nonce@,
                        i,
                        chunks@[i]@,
                        cts@[i],
                    ),
                Err(e) => e is Crypto && exists|i: int|
                    0 <= i < chunks@.len() && !crate::base::crypto::seal_accepts(
                        self.cipher_type(),
                        #[trigger] chunks@[i]@.len() as int,
                        16,
                    ),
            },
    {
        let mut out: Vec<Vec<u8>> = Vec::new();
        let mut i: usize = 0;
        while i < chunks.len()
            invariant
                i <= chunks@.len(),
                out@.len() == i,
                forall|j: int| 0 <= j < chunks@.len() ==> #[trigger] chunks@[j]@.len() + 16 <= usize::MAX,
                forall|j: int|
                    0 <= j < i ==> #[trigger] chunk_sealed(
                        self.cipher_type(),
                        tree_root_key@,
                        file_nonce@,
                        j,
                        chunks@[j]@,
                        out@[j],
                    ),
            decreases chunks@.len() - i,
        {
            let chunk_key = KeyDerivation::derive_chunk_key(tree_root_key, i as u64)?;
            let nonce = make_chunk_nonce(file_nonce, i);
            let aad = Self::build_aad(i as u64, chunks[i].len());
            let ct = match self.cipher.encrypt(&chunk_key, &nonce, chunks[i].as_slice(), aad.as_slice()) {
                Ok(c) => c,
                Err(e) => {
                    assert(!crate::base::crypto::seal_accepts(self.cipher_type(), chunks@[i as int]@.len() as int, 16));
                    return Err(e);
                },
            };
            out.push(ct);
            i = i + 1;
        }
        Ok(out)
    }

    /// Decrypt all chunks.
    pub fn decrypt_chunks(
        &self,
        ciphertexts: &[Vec<u8>],
        tree_root_key: &[u8; 32],
        file_nonce: &[u8; 12],
        original_sizes: &[usize],
    ) -> (r: Result<Vec<Vec<u8>>, Error>)
        ensures
            chunks_opened(self.cipher_type(), tree_root_key@, file_nonce@, ciphertexts@, original_sizes@, r),
    {
        let ghost t = self.cipher_type();
        let mut out: Vec<Vec<u8>> = Vec::new();
        let mut i: usize = 0;
        while i < ciphertexts.len()
            invariant
                i <= ciphertexts@.len(),
                out@.len() == i,
                t == self.cipher_type(),
                forall|j: int|
                    0 <= j < i ==> #[trigger] chunk_open_at(t, tree_root_key@, file_nonce@, ciphertexts@, original_sizes@, j)
                        == Some(out@[j]@),
            decreases ciphertexts@.len() - i,
        {
            let chunk_key = KeyDerivation::derive_chunk_key(tree_root_key, i as u64)?;
            let nonce = make_chunk_nonce(file_nonce, i);
            let original_size = if i < original_sizes.len() { original_sizes[i] } else { 0 };
            let aad = Self::build_aad(i as u64, original_size);
            let r = self.cipher.decrypt(&chunk_key, &nonce, ciphertexts[i].as_slice(), aad.as_slice());
            let pt = match r {
                Ok(p) => p,
                Err(e) => {
                    assert(chunk_open_at(t, tree_root_key@, file_nonce@, ciphertexts@, original_sizes@, i as int) is None);
                    return Err(e);
                },
            };
            out.push(pt);
            i = i + 1;
        }
        Ok(out)
    }

    fn build_aad(chunk_id: u64, size: usize) -> (aad: Vec<u8>)
        ensures
            aad@ == chunk_aad(chunk_id as int, size as int),
    {
        let mut aad: Vec<u8> = Vec::new();
        let a = u64_to_le_bytes(chunk_id);
        let b = u64_to_le_bytes(size as u64);
        append_bytes(&mut aad, &a);
        append_bytes(&mut aad, &b);
        aad
    }
}

/// Law: decrypting what `encrypt_chunks` produced, with the same keys and the original
/// chunk sizes, gives back every chunk.
pub proof fn lemma_chunks_roundtrip(
    t: CipherType,
    tree_root_key: Seq<u8>,
    file_nonce: Seq<u8>,
    chunks: Seq<Vec<u8>>,
    cts: Seq<Vec<u8>>,
    sizes: Seq<usize>,
    r: Result<Vec<Vec<u8>>, Error>,
)
    requires
        cts.len() == chunks.len(),
        forall|i: int| 0 <= i < chunks.len() ==> #[trigger] chunk_sealed(t, tree_root_key, file_nonce, i, chunks[i]@, cts[i]),
        sizes.len() == chunks.len(),
        forall|i: int| 0 <= i < chunks.len() ==> #[trigger] sizes[i] == chunks[i]@.len(),
        chunks_opened(t, tree_root_key, file_nonce, cts, sizes, r),
    ensures
        r matches Ok(pts) && pts@.len() == chunks.len() && forall|i: int| 0 <= i < chunks.len() ==> #[trigger] pts@[i]@ == chunks[i]@,
{
    assert forall|i: int| 0 <= i < cts.len() implies #[trigger] chunk_open_at(t, tree_root_key, file_nonce, cts, sizes, i)
        == Some(chunks[i]@) by {
        assert(chunk_sealed(t, tree_root_key, file_nonce, i, chunks[i]@, cts[i]));
    }
    match r {
        Ok(pts) => {
            assert forall|i: int| 0 <= i < chunks.len() implies #[trigger] pts@[i]@ == chunks[i]@ by {
                assert(chunk_open_at(t, tree_root_key, file_nonce, cts, sizes, i) == Some(chunks[i]@));
            }
        },
        Err(e) => {
            let i = choose|i: int| 0 <= i < cts.len() && #[trigger] chunk_open_at(t, tree_root_key, file_nonce, cts, sizes, i) is None;
            assert(chunk_open_at(t, tree_root_key, file_nonce, cts, sizes, i) == Some(chunks[i]@));
        },
    }
}

/// All pieces one after the other.
pub open spec fn flatten(s: Seq<Seq<u8>>) -> Seq<u8>
    decreases s.len(),
{
    if s.len() == 0 {
        Seq::empty()
    } else {
        flatten(s.drop_last()) + s.last()
    }
}

/// Every piece of a split is at most `size` bytes long.
pub proof fn lemma_split_piece_len(data: Seq<u8>, size: int, k: int)
    requires
        size > 0,
        0 <= k < spec_split(data, size).len(),
    ensures
        spec_split(data, size)[k].len() <= size,
        spec_split(data, size)[k].len() <= data.len(),
        spec_split(data, size)[k] == data.subrange(
            k * size,
            if (k + 1) * size <= data.len() { (k + 1) * size } else { data.len() as int },
        ),
{
    let n = spec_split(data, size).len() as int;
    assert(k * size < data.len()) by (nonlinear_arith)
        requires
            size > 0,
            0 <= k < n,
            n == (data.len() + size - 1) / size,
    ;
    assert((k + 1) * size == k * size + size) by (nonlinear_arith);
    assert(0 <= k * size) by (nonlinear_arith)
        requires
            size > 0,
            k >= 0,
    ;
}

/// The first `k` pieces of a split, put together, are the first `k * size` bytes.
proof fn lemma_flatten_split_prefix(data: Seq<u8>, size: int, k: int)
    requires
        size > 0,
        0 <= k <= spec_split(data, size).len(),
    ensures
        k * size <= data.len() || k == spec_split(data, size).len(),
        flatten(spec_split(data, size).take(k)) == data.subrange(
            0,
            if k * size <= data.len() { k * size } else { data.len() as int },
        ),
    decreases k,
{
    let sp = spec_split(data, size);
    let n = sp.len() as int;
    if k == 0 {
        assert(sp.take(0) =~= Seq::<Seq<u8>>::empty());
        assert(data.subrange(0, 0) =~= Seq::<u8>::empty());
    } else {
        let j = k - 1;
        lemma_flatten_split_prefix(data, size, j);
        lemma_split_piece_len(data, size, j);
        assert(j * size < data.len()) by (nonlinear_arith)
            requires
                size > 0,
                0 <= j < n,
                n == (data.len() + size - 1) / size,
        ;
        assert(k * size == j * size + size) by (nonlinear_arith)
            requires
                k == j + 1,
        ;
        assert(sp.take(k).drop_last() =~= sp.take(j));
        assert(sp.take(k).last() == sp[j]);
        let end = if k * size <= data.len() { k * size } else { data.len() as int };
        assert(data.subrange(0, j * size) + data.subrange(j * size, end) =~= data.subrange(0, end));
        if k * size > data.len() && k < n {
            assert(k * size < data.len()) by (nonlinear_arith)
                requires
                    size > 0,
                    0 <= k < n,
                    n == (data.len() + size - 1) / size,
            ;
        }
    }
}

/// Law: putting the pieces of a split back together gives the data.
pub proof fn lemma_flatten_split(data: Seq<u8>, size: int)
    requires
        size > 0,
    ensures
        flatten(spec_split(data, size)) == data,
{
    let sp = spec_split(data, size);
    let n = sp.len() as int;
    lemma_flatten_split_prefix(data, size, n);
    assert(n * size >= data.len()) by (nonlinear_arith)
        requires
            size > 0,
            n == (data.len() + size - 1) / size,
    ;
    assert(sp.take(n) =~= sp);
    assert(data.subrange(0, data.len() as int) =~= data);
}

} // verus!
