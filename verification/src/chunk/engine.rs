use vstd::prelude::*;
use crate::base::error::Error;
use crate::base::crypto::{AeadCipher, CipherType, aead_open, seal_accepts, encrypt_result};
use crate::base::keys::KeyDerivation;
use crate::base::bytes::{u64_le, u32_le, u64_to_le_bytes, u32_to_le_bytes, append_bytes, bytes_16_at, bytes_to_vec};
use crate::base::digest::{blake3_hash, blake3_digest, shake256, shake256_xof, bytes32_eq};
use crate::cllx_math::transform::{
    CllxTransform, spec_pre_encrypt, spec_post_decrypt, transformable_len, zero_pad,
    lemma_transform_roundtrip, lemma_transform_lens, matrix_size,
};
use crate::cllx_math::encode::{pad_len, lemma_pad_len, lemma_pad_len_monotone};
use vstd::slice::slice_subrange;
use crate::cllx_math::matrix::{is_unit_upper, is_back_sub_inverse, spec_forward};
use crate::cllx_math::transform::{matrix_label, cllx_mask_label};
use crate::base::keys::hkdf_sha3_256_okm32;
use crate::container::format::ChunkRecord;
use super::{chunk_key, chunk_nonce, make_chunk_nonce};

verus! {

/// Additional Authenticated Data for chunk encryption.
#[derive(Debug, Clone)]
pub struct ChunkAAD {
    pub chunk_id: u64,
    pub container_version: u32,
    pub file_id: [u8; 32],
    pub total_chunks: u64,
}

/// The encoding of associated data: chunk id, container version, file id and total
/// number of chunks, integers little endian.
pub open spec fn spec_aad(chunk_id: u64, container_version: u32, file_id: Seq<u8>, total_chunks: u64) -> Seq<u8> {
    u64_le(chunk_id) + u32_le(container_version) + file_id + u64_le(total_chunks)
}

/// The associated data of chunk `i`: the template with its chunk id replaced by `i`.
pub open spec fn aad_for(template: ChunkAAD, i: int) -> Seq<u8> {
    spec_aad(i as u64, template.container_version, template.file_id@, template.total_chunks)
}

impl ChunkAAD {
    pub fn encode(&self) -> (aad: Vec<u8>)
        ensures
            aad@ == spec_aad(self.chunk_id, self.container_version, self.file_id@, self.total_chunks),
    {
        let mut aad: Vec<u8> = Vec::new();
        append_bytes(&mut aad, &u64_to_le_bytes(self.chunk_id));
        append_bytes(&mut aad, &u32_to_le_bytes(self.container_version));
        append_bytes(&mut aad, &self.file_id);
        append_bytes(&mut aad, &u64_to_le_bytes(self.total_chunks));
        aad
    }
}

/// Termwise XOR of two byte strings, as far as both go.
pub open spec fn spec_xor(data: Seq<u8>, mask: Seq<u8>) -> Seq<u8> {
    Seq::new(
        (if data.len() < mask.len() {
            data.len()
        } else {
            mask.len()
        }),
        |i: int| data[i] ^ mask[i],
    )
}

/// The XOR mask of a chunk whose plaintext hash is `hash`: the first `chunk_size` bytes
/// of SHAKE256 of the mask key followed by the hash.
pub open spec fn chunk_xor_mask(mask_key: Seq<u8>, hash: Seq<u8>, chunk_size: nat) -> Seq<u8> {
    Seq::new(chunk_size, |k: int| shake256_xof(mask_key + hash, chunk_size)[k])
}

/// Enhanced chunk engine with AAD and masking.
pub struct ChunkEngineV2 {
    chunk_size: usize,
    cipher: AeadCipher,
    enable_masking: bool,
    cllx_transform: Option<CllxTransform>,
}

/// The framing of a transformed chunk of `len` bytes whose transform is `out`: when the
/// chunk was padded to whole words, one byte holding the number of padding bytes
/// follows, so that the chunk's own length can be restored.
pub open spec fn framed(out: Seq<u8>, len: int) -> Seq<u8> {
    if len % 4 == 0 {
        out
    } else {
        out.push(pad_len(len) as u8)
    }
}

/// The smaller of two lengths.
pub open spec fn min_int(a: int, b: int) -> int {
    if a < b {
        a
    } else {
        b
    }
}

/// Undoing the framing and the transform of an opened chunk: data one byte past whole
/// words ends with the padding count, and that many bytes (at most all of them) are
/// dropped from the end of what the rest transforms back to; other data is transformed
/// back as it is.
pub open spec fn unframed(t: CllxTransform, opened: Seq<u8>, file_nonce: Seq<u8>, i: int) -> Seq<u8> {
    if opened.len() % 4 == 1 {
        let post = spec_post_decrypt(t.inverse(), t.mask_key(), opened.drop_last(), file_nonce, i as u64);
        post.subrange(0, post.len() - min_int(opened.last() as int, post.len() as int))
    } else {
        spec_post_decrypt(t.inverse(), t.mask_key(), opened, file_nonce, i as u64)
    }
}

/// The data that is sealed for chunk `i`: the chunk, XOR-masked when masking is on, then
/// transformed and framed when a transform is present.
pub open spec fn v2_sealed_input(
    chunk_size: nat,
    masking: bool,
    transform: Option<CllxTransform>,
    mask_key: Seq<u8>,
    file_nonce: Seq<u8>,
    i: int,
    chunk: Seq<u8>,
) -> Seq<u8> {
    let masked = if masking {
        spec_xor(chunk, chunk_xor_mask(mask_key, blake3_digest(chunk), chunk_size))
    } else {
        chunk
    };
    match transform {
        Some(t) => framed(spec_pre_encrypt(t.forward(), t.mask_key(), masked, file_nonce, i as u64), masked.len() as int),
        None => masked,
    }
}

/// The plaintext recovered from an opened chunk: unframed and transformed back when a
/// transform is present, then XOR-unmasked with the mask of the recorded hash when
/// masking is on.
pub open spec fn v2_recovered(
    chunk_size: nat,
    masking: bool,
    transform: Option<CllxTransform>,
    mask_key: Seq<u8>,
    file_nonce: Seq<u8>,
    i: int,
    opened: Seq<u8>,
    hash: Seq<u8>,
) -> Seq<u8> {
    let untransformed = match transform {
        Some(t) => unframed(t, opened, file_nonce, i),
        None => opened,
    };
    if masking {
        spec_xor(untransformed, chunk_xor_mask(mask_key, hash, chunk_size))
    } else {
        untransformed
    }
}

/// An engine with the given settings whose transform is the one derived from `master_key`.
pub open spec fn engine_with_transform(
    e: ChunkEngineV2,
    chunk_size: usize,
    cipher_type: CipherType,
    enable_masking: bool,
    master_key: Seq<u8>,
) -> bool {
    &&& e.chunk_size() == chunk_size
    &&& e.cipher_type() == cipher_type
    &&& e.masking() == enable_masking
    &&& e.transform() matches Some(t)
    &&& t.forward() == spec_forward(hkdf_sha3_256_okm32(master_key, matrix_label()), matrix_size())
    &&& t.mask_key() == hkdf_sha3_256_okm32(master_key, cllx_mask_label())
    &&& is_unit_upper(t.forward(), matrix_size())
    &&& is_back_sub_inverse(t.forward(), t.inverse(), matrix_size())
}

/// A chunk that the engine can process: the buffers fit, and a transformed chunk fits
/// the mask stream.
pub open spec fn v2_len_ok(has_transform: bool, len: int) -> bool {
    &&& len + 32 <= usize::MAX
    &&& has_transform ==> transformable_len(len)
}

impl ChunkEngineV2 {
    pub fn new(chunk_size: usize, cipher_type: CipherType, enable_masking: bool) -> (e: Self)
        ensures
            e.chunk_size() == chunk_size,
            e.cipher_type() == cipher_type,
            e.masking() == enable_masking,
            e.transform() is None,
    {
        Self { chunk_size, cipher: AeadCipher::new(cipher_type), enable_masking, cllx_transform: None }
    }

    /// Create engine with cllX-Math transform enabled.
    pub fn with_cllx_transform(
        chunk_size: usize,
        cipher_type: CipherType,
        enable_masking: bool,
        master_key: &[u8; 32],
    ) -> (r: Result<Self, Error>)
        ensures
            r matches Ok(e) && engine_with_transform(e, chunk_size, cipher_type, enable_masking, master_key@),
    {
        let cllx_transform = CllxTransform::new(master_key)?;
        Ok(Self {
            chunk_size,
            cipher: AeadCipher::new(cipher_type),
            enable_masking,
            cllx_transform: Some(cllx_transform),
        })
    }

    pub closed spec fn chunk_size(&self) -> usize {
        self.chunk_size
    }

    pub closed spec fn cipher_type(&self) -> CipherType {
        self.cipher.kind()
    }

    pub closed spec fn masking(&self) -> bool {
        self.enable_masking
    }

    pub closed spec fn transform(&self) -> Option<CllxTransform> {
        self.cllx_transform
    }

    /// Split data into chunks.
    pub fn split<'a>(&self, data: &'a [u8]) -> (pieces: Vec<&'a [u8]>)
        requires
            self.chunk_size() > 0,
        ensures
            pieces@.len() == super::spec_split(data@, self.chunk_size() as int).len(),
            forall|k: int| 0 <= k < pieces@.len() ==> #[trigger] pieces@[k]@ == super::spec_split(data@, self.chunk_size() as int)[k],
    {
        super::split_data(data, self.chunk_size)
    }

    /// Encrypt chunks with full AAD and optional masking.
    pub fn encrypt_chunks_v2(
        &self,
        chunks: &[Vec<u8>],
        tree_root_key: &[u8; 32],
        mask_key: &[u8; 32],
        file_nonce: &[u8; 12],
        aad_template: &ChunkAAD,
    ) -> (r: Result<Vec<(Vec<u8>, ChunkRecord)>, Error>)
        requires
            forall|i: int| 0 <= i < chunks@.len() ==> v2_len_ok(self.transform() is Some, #[trigger] chunks@[i]@.len() as int),
        ensures
            match r {
                Ok(out) => v2_chunks_sealed(self, tree_root_key@, mask_key@, file_nonce@, *aad_template, chunks@, out@),
                Err(e) => e is Crypto && exists|i: int|
                    0 <= i < chunks@.len() && !seal_accepts(
                        self.cipher_type(),
                        v2_sealed_input(
                            self.chunk_size() as nat,
                            self.masking(),
                            self.transform(),
                            mask_key@,
                            file_nonce@,
                            i,
                            #[trigger] chunks@[i]@,
                        ).len() as int,
                        52,
                    ),
            },
    {
        let mut out: Vec<(Vec<u8>, ChunkRecord)> = Vec::new();
        let mut i: usize = 0;
        while i < chunks.len()
            invariant
                i <= chunks@.len(),
                out@.len() == i,
                forall|j: int| 0 <= j < chunks@.len() ==> v2_len_ok(self.transform() is Some, #[trigger] chunks@[j]@.len() as int),
                forall|j: int|
                    0 <= j < i ==> #[trigger] v2_chunk_sealed(self, tree_root_key@, mask_key@, file_nonce@, *aad_template, j, chunks@[j]@, out@[j]),
            decreases chunks@.len() - i,
        {
            let chunk = &chunks[i];
            // Derive chunk-specific key
            let chunk_key = KeyDerivation::derive_chunk_key(tree_root_key, i as u64)?;
            // Calculate pre-encryption hash
            let chunk_hash = blake3_hash(chunk.as_slice());
            // Apply masking if enabled
            let mut data_to_encrypt = if self.enable_masking {
                let mask = self.generate_mask(mask_key, &chunk_hash);
                self.xor_mask(chunk.as_slice(), mask.as_slice())
            } else {
                bytes_to_vec(chunk.as_slice())
            };
            // Apply cllX-Math transform if enabled
            match &self.cllx_transform {
                Some(transform) => {
                    let len = data_to_encrypt.len();
                    proof {
                        lemma_pad_len(len as int);
                        lemma_pad_len_monotone(len as int, chunk@.len() as int);
                    }
                    let mut out = transform.pre_encrypt(data_to_encrypt.as_slice(), file_nonce, i as u64)?;
                    proof {
                        lemma_transform_lens(
                            transform.forward(),
                            transform.inverse(),
                            transform.mask_key(),
                            data_to_encrypt@,
                            file_nonce@,
                            i as u64,
                        );
                    }
                    if len % 4 != 0 {
                        // The number of bytes that padded the last word.
                        let pad: u8 = (4 - len % 4) as u8;
                        out.push(pad);
                    }
                    data_to_encrypt = out;
                },
                None => {},
            }
            let nonce = make_chunk_nonce(file_nonce, i);
            let aad = ChunkAAD {
                chunk_id: i as u64,
                container_version: aad_template.container_version,
                file_id: aad_template.file_id,
                total_chunks: aad_template.total_chunks,
            };
            let aad_bytes = aad.encode();
            let ciphertext = match self.cipher.encrypt(&chunk_key, &nonce, data_to_encrypt.as_slice(), aad_bytes.as_slice()) {
                Ok(c) => c,
                Err(e) => {
                    return Err(e);
                },
            };
            // Extract tag (last 16 bytes)
            let tag_start = ciphertext.len() - 16;
            let tag = bytes_16_at(ciphertext.as_slice(), tag_start);
            let length = ciphertext.len() as u32;
            let record = ChunkRecord { chunk_id: i as u64, offset: 0, length, tag, hash: chunk_hash };
            out.push((ciphertext, record));
            i = i + 1;
        }
        Ok(out)
    }

    /// Decrypt chunks with AAD verification.
    pub fn decrypt_chunks_v2(
        &self,
        ciphertexts: &[(Vec<u8>, ChunkRecord)],
        tree_root_key: &[u8; 32],
        mask_key: &[u8; 32],
        file_nonce: &[u8; 12],
        aad_template: &ChunkAAD,
    ) -> (r: Result<Vec<Vec<u8>>, Error>)
        requires
            forall|i: int| 0 <= i < ciphertexts@.len() ==> v2_len_ok(self.transform() is Some, #[trigger] ciphertexts@[i].0@.len() as int),
        ensures
            v2_chunks_opened(self, tree_root_key@, mask_key@, file_nonce@, *aad_template, ciphertexts@, r),
    {
        let mut out: Vec<Vec<u8>> = Vec::new();
        let mut i: usize = 0;
        while i < ciphertexts.len()
            invariant
                i <= ciphertexts@.len(),
                out@.len() == i,
                forall|j: int| 0 <= j < ciphertexts@.len() ==> v2_len_ok(self.transform() is Some, #[trigger] ciphertexts@[j].0@.len() as int),
                forall|j: int|
                    0 <= j < i ==> #[trigger] v2_chunk_opened(self, tree_root_key@, mask_key@, file_nonce@, *aad_template, j, ciphertexts@[j])
                        == Ok::<Seq<u8>, Error>(out@[j]@),
            decreases ciphertexts@.len() - i,
        {
            let ct = &ciphertexts[i].0;
            let record = &ciphertexts[i].1;
            let ghost opened = v2_chunk_opened(self, tree_root_key@, mask_key@, file_nonce@, *aad_template, i as int, ciphertexts@[i as int]);
            // Derive chunk-specific key
            let chunk_key = KeyDerivation::derive_chunk_key(tree_root_key, i as u64)?;
            let nonce = make_chunk_nonce(file_nonce, i);
            let aad = ChunkAAD {
                chunk_id: i as u64,
                container_version: aad_template.container_version,
                file_id: aad_template.file_id,
                total_chunks: aad_template.total_chunks,
            };
            let aad_bytes = aad.encode();
            // Decrypt
            let mut plaintext = match self.cipher.decrypt(&chunk_key, &nonce, ct.as_slice(), aad_bytes.as_slice()) {
                Ok(p) => p,
                Err(e) => {
                    assert(opened == Err::<Seq<u8>, Error>(e));
                    return Err(e);
                },
            };
            // Apply cllX-Math inverse transform if enabled
            match &self.cllx_transform {
                Some(transform) => {
                    let n = plaintext.len();
                    if n % 4 == 1 {
                        // The last byte tells how many padding bytes to drop.
                        let k = plaintext[n - 1];
                        proof {
                            lemma_pad_len_monotone((n - 1) as int, ct@.len() as int);
                        }
                        let body = slice_subrange(plaintext.as_slice(), 0, n - 1);
                        let post = transform.post_decrypt(body, file_nonce, i as u64)?;
                        let drop = if (k as usize) < post.len() {
                            k as usize
                        } else {
                            post.len()
                        };
                        assert(plaintext@.drop_last() =~= body@);
                        plaintext = bytes_to_vec(slice_subrange(post.as_slice(), 0, post.len() - drop));
                    } else {
                        proof {
                            lemma_pad_len_monotone(n as int, ct@.len() as int);
                        }
                        plaintext = transform.post_decrypt(plaintext.as_slice(), file_nonce, i as u64)?;
                    }
                },
                None => {},
            }
            // Remove masking if enabled
            let final_data = if self.enable_masking {
                let mask = self.generate_mask(mask_key, &record.hash);
                self.xor_mask(plaintext.as_slice(), mask.as_slice())
            } else {
                plaintext
            };
            // Verify hash
            let computed_hash = blake3_hash(final_data.as_slice());
            if !bytes32_eq(&computed_hash, &record.hash) {
                assert(opened == Err::<Seq<u8>, Error>(Error::IntegrityFailed));
                return Err(Error::IntegrityFailed);
            }
            out.push(final_data);
            i = i + 1;
        }
        Ok(out)
    }

    /// Generate XOR mask using SHAKE256.
    fn generate_mask(&self, mask_key: &[u8; 32], chunk_hash: &[u8; 32]) -> (mask: Vec<u8>)
        ensures
            mask@ == chunk_xor_mask(mask_key@, chunk_hash@, self.chunk_size() as nat),
    {
        let mut input: Vec<u8> = Vec::new();
        append_bytes(&mut input, mask_key);
        append_bytes(&mut input, chunk_hash);
        let mask = shake256(input.as_slice(), self.chunk_size);
        assert(mask@ =~= chunk_xor_mask(mask_key@, chunk_hash@, self.chunk_size() as nat));
        mask
    }

    /// XOR data with mask.
    fn xor_mask(&self, data: &[u8], mask: &[u8]) -> (out: Vec<u8>)
        ensures
            out@ == spec_xor(data@, mask@),
    {
        let n = if data.len() < mask.len() { data.len() } else { mask.len() };
        let mut out: Vec<u8> = Vec::new();
        let mut i: usize = 0;
        while i < n
            invariant
                n == (if data@.len() < mask@.len() { data@.len() } else { mask@.len() }),
                i <= n,
                out@ == spec_xor(data@, mask@).take(i as int),
            decreases n - i,
        {
            out.push(data[i] ^ mask[i]);
            assert(out@ =~= spec_xor(data@, mask@).take(i as int + 1));
            i = i + 1;
        }
        assert(out@ =~= spec_xor(data@, mask@));
        out
    }
}

/// What `encrypt_chunks_v2` promises of chunk `i`: the sealed input under the chunk's
/// key, nonce and associated data, and its record (index, zero offset, ciphertext length
/// truncated to 32 bits, the tag that ends the ciphertext, the plaintext hash).
pub open spec fn v2_chunk_sealed(
    e: &ChunkEngineV2,
    tree_root_key: Seq<u8>,
    mask_key: Seq<u8>,
    file_nonce: Seq<u8>,
    template: ChunkAAD,
    i: int,
    chunk: Seq<u8>,
    out: (Vec<u8>, ChunkRecord),
) -> bool {
    let input = v2_sealed_input(e.chunk_size() as nat, e.masking(), e.transform(), mask_key, file_nonce, i, chunk);
    let ct = out.0@;
    &&& encrypt_result(
        e.cipher_type(),
        chunk_key(tree_root_key, i),
        chunk_nonce(file_nonce, i),
        input,
        aad_for(template, i),
        Ok(out.0),
    )
    &&& out.1.chunk_id == i as u64
    &&& out.1.offset == 0
    &&& out.1.length == ct.len() as u32
    &&& out.1.tag@ == ct.subrange(ct.len() - 16, ct.len() as int)
    &&& out.1.hash@ == blake3_digest(chunk)
}

/// What `decrypt_chunks_v2` computes for chunk `i`: `AuthFailed` when it does not open,
/// `IntegrityFailed` when the recovered plaintext does not hash to the recorded hash,
/// otherwise the recovered plaintext.
pub open spec fn v2_chunk_opened(
    e: &ChunkEngineV2,
    tree_root_key: Seq<u8>,
    mask_key: Seq<u8>,
    file_nonce: Seq<u8>,
    template: ChunkAAD,
    i: int,
    item: (Vec<u8>, ChunkRecord),
) -> Result<Seq<u8>, Error> {
    match aead_open(e.cipher_type(), chunk_key(tree_root_key, i), chunk_nonce(file_nonce, i), item.0@, aad_for(template, i)) {
        None => Err(Error::AuthFailed),
        Some(p) => {
            let rec = v2_recovered(e.chunk_size() as nat, e.masking(), e.transform(), mask_key, file_nonce, i, p, item.1.hash@);
            if blake3_digest(rec) == item.1.hash@ {
                Ok(rec)
            } else {
                Err(Error::IntegrityFailed)
            }
        },
    }
}

/// What `encrypt_chunks_v2` promises of its output: one sealed item per chunk.
pub open spec fn v2_chunks_sealed(
    e: &ChunkEngineV2,
    tree_root_key: Seq<u8>,
    mask_key: Seq<u8>,
    file_nonce: Seq<u8>,
    template: ChunkAAD,
    chunks: Seq<Vec<u8>>,
    out: Seq<(Vec<u8>, ChunkRecord)>,
) -> bool {
    &&& out.len() == chunks.len()
    &&& forall|i: int|
        0 <= i < chunks.len() ==> #[trigger] v2_chunk_sealed(e, tree_root_key, mask_key, file_nonce, template, i, chunks[i]@, out[i])
}

/// What `decrypt_chunks_v2` returns: every chunk's recovered plaintext, or the error of
/// the first chunk that fails.
pub open spec fn v2_chunks_opened(
    e: &ChunkEngineV2,
    tree_root_key: Seq<u8>,
    mask_key: Seq<u8>,
    file_nonce: Seq<u8>,
    template: ChunkAAD,
    cts: Seq<(Vec<u8>, ChunkRecord)>,
    r: Result<Vec<Vec<u8>>, Error>,
) -> bool {
    match r {
        Ok(out) => out@.len() == cts.len() && forall|i: int|
            0 <= i < cts.len() ==> #[trigger] v2_chunk_opened(e, tree_root_key, mask_key, file_nonce, template, i, cts[i])
                == Ok::<Seq<u8>, Error>(out@[i]@),
        Err(err) => exists|i: int|
            0 <= i < cts.len() && #[trigger] v2_chunk_opened(e, tree_root_key, mask_key, file_nonce, template, i, cts[i])
                == Err::<Seq<u8>, Error>(err) && forall|j: int|
                0 <= j < i ==> #[trigger] v2_chunk_opened(e, tree_root_key, mask_key, file_nonce, template, j, cts[j]) is Ok,
    }
}

/// XOR with the same mask twice gives back the data (as far as the mask goes).
proof fn lemma_xor_twice(data: Seq<u8>, mask: Seq<u8>)
    requires
        data.len() <= mask.len(),
    ensures
        spec_xor(spec_xor(data, mask), mask) == data,
{
    let once = spec_xor(data, mask);
    let twice = spec_xor(once, mask);
    assert forall|i: int| 0 <= i < data.len() implies #[trigger] twice[i] == data[i] by {
        let a = data[i];
        let b = mask[i];
        assert((a ^ b) ^ b == a) by (bit_vector);
    }
    assert(twice =~= data);
}

/// Law: what `decrypt_chunks_v2` recovers from a chunk that `encrypt_chunks_v2` sealed, with
/// the same engine, keys, nonce and associated data template, is the chunk itself, provided
/// that a masked chunk is no longer than the mask (the chunk size).
pub proof fn lemma_v2_roundtrip(
    e: &ChunkEngineV2,
    tree_root_key: Seq<u8>,
    mask_key: Seq<u8>,
    file_nonce: Seq<u8>,
    template: ChunkAAD,
    i: int,
    chunk: Seq<u8>,
    out: (Vec<u8>, ChunkRecord),
)
    requires
        v2_chunk_sealed(e, tree_root_key, mask_key, file_nonce, template, i, chunk, out),
        e.transform() matches Some(t) ==> is_unit_upper(t.forward(), matrix_size()) && is_back_sub_inverse(
            t.forward(),
            t.inverse(),
            matrix_size(),
        ),
        e.masking() ==> chunk.len() <= e.chunk_size(),
    ensures
        v2_chunk_opened(e, tree_root_key, mask_key, file_nonce, template, i, out) == Ok::<Seq<u8>, Error>(chunk),
{
    let cs = e.chunk_size() as nat;
    let h = blake3_digest(chunk);
    let mask = chunk_xor_mask(mask_key, h, cs);
    let masked = if e.masking() {
        spec_xor(chunk, mask)
    } else {
        chunk
    };
    assert(masked.len() == chunk.len());
    let input = v2_sealed_input(cs, e.masking(), e.transform(), mask_key, file_nonce, i, chunk);
    assert(out.1.hash@ == h);
    match e.transform() {
        Some(t) => {
            let len = masked.len() as int;
            let pre = spec_pre_encrypt(t.forward(), t.mask_key(), masked, file_nonce, i as u64);
            lemma_transform_roundtrip(t.forward(), t.inverse(), t.mask_key(), masked, file_nonce, i as u64);
            lemma_transform_lens(t.forward(), t.inverse(), t.mask_key(), masked, file_nonce, i as u64);
            lemma_pad_len(len);
            let back = spec_post_decrypt(t.inverse(), t.mask_key(), pre, file_nonce, i as u64);
            assert(back == masked + zero_pad(len));
            if len % 4 == 0 {
                assert(zero_pad(len) =~= Seq::<u8>::empty());
                assert(masked + zero_pad(len) =~= masked);
                assert(unframed(t, input, file_nonce, i) == masked);
            } else {
                assert(input == pre.push(pad_len(len) as u8));
                assert(input.len() % 4 == 1);
                assert(input.drop_last() =~= pre);
                assert(input.last() as int == pad_len(len));
                assert(back.subrange(0, back.len() - pad_len(len)) =~= masked);
                assert(unframed(t, input, file_nonce, i) == masked);
            }
        },
        None => {},
    }
    if e.masking() {
        lemma_xor_twice(chunk, mask);
    }
}

/// Law: decrypting what `encrypt_chunks_v2` produced, with the same engine, keys, nonce
/// and associated data template, gives back every chunk, provided that masked chunks are
/// no longer than the mask (the chunk size).
pub proof fn lemma_v2_roundtrip_all(
    e: &ChunkEngineV2,
    tree_root_key: Seq<u8>,
    mask_key: Seq<u8>,
    file_nonce: Seq<u8>,
    template: ChunkAAD,
    chunks: Seq<Vec<u8>>,
    out: Seq<(Vec<u8>, ChunkRecord)>,
    r: Result<Vec<Vec<u8>>, Error>,
)
    requires
        v2_chunks_sealed(e, tree_root_key, mask_key, file_nonce, template, chunks, out),
        e.transform() matches Some(t) ==> is_unit_upper(t.forward(), matrix_size()) && is_back_sub_inverse(
            t.forward(),
            t.inverse(),
            matrix_size(),
        ),
        e.masking() ==> forall|i: int| 0 <= i < chunks.len() ==> (#[trigger] chunks[i])@.len() <= e.chunk_size(),
        v2_chunks_opened(e, tree_root_key, mask_key, file_nonce, template, out, r),
    ensures
        r matches Ok(v) && v@.len() == chunks.len() && forall|i: int| 0 <= i < chunks.len() ==> #[trigger] v@[i]@ == chunks[i]@,
{
    assert forall|i: int| 0 <= i < chunks.len() implies #[trigger] v2_chunk_opened(
        e,
        tree_root_key,
        mask_key,
        file_nonce,
        template,
        i,
        out[i],
    ) == Ok::<Seq<u8>, Error>(chunks[i]@) by {
        assert(v2_chunk_sealed(e, tree_root_key, mask_key, file_nonce, template, i, chunks[i]@, out[i]));
        lemma_v2_roundtrip(e, tree_root_key, mask_key, file_nonce, template, i, chunks[i]@, out[i]);
    }
    match r {
        Ok(v) => {
            assert forall|i: int| 0 <= i < chunks.len() implies #[trigger] v@[i]@ == chunks[i]@ by {
                assert(v2_chunk_opened(e, tree_root_key, mask_key, file_nonce, template, i, out[i]) == Ok::<
                    Seq<u8>,
                    Error,
                >(v@[i]@));
            }
        },
        Err(err) => {
            let i = choose|i: int|
                0 <= i < out.len() && #[trigger] v2_chunk_opened(e, tree_root_key, mask_key, file_nonce, template, i, out[i])
                    == Err::<Seq<u8>, Error>(err) && forall|j: int|
                    0 <= j < i ==> #[trigger] v2_chunk_opened(e, tree_root_key, mask_key, file_nonce, template, j, out[j])
                    is Ok;
            assert(v2_chunk_opened(e, tree_root_key, mask_key, file_nonce, template, i, out[i]) == Ok::<Seq<u8>, Error>(
                chunks[i]@,
            ));
        },
    }
}

} // verus!
