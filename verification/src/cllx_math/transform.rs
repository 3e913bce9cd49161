// cllX-Math: main transform interface.
// Combines encoding, diffusion and masking.
use vstd::prelude::*;
use vstd::string::StringSliceAdditionalSpecFns;
use crate::base::error::Error;
use crate::base::keys::{hkdf_sha3_256, hkdf_sha3_256_okm32};
use super::encode::{
    encode_chunk, decode_chunk, spec_encode, spec_decode, pad_len, lemma_decode_encode,
    lemma_encode_decode,
};
use super::matrix::{
    DiffusionMatrix, rows_view, spec_forward, spec_diffuse, is_unit_upper, is_back_sub_inverse,
    lemma_diffuse_roundtrip, lemma_forward_unit_upper,
};
use super::mask::{
    generate_mask, apply_mask, remove_mask, spec_mask, spec_apply_mask, spec_remove_mask,
    max_keystream_len, lemma_remove_apply_mask,
};

verus! {

/// Size of the diffusion matrix used by the transform.
pub open spec fn matrix_size() -> int {
    16
}

/// Label from which the matrix seed is derived.
pub open spec fn matrix_label() -> Seq<u8> {
    "cllx_matrix".spec_bytes()
}

/// Label from which the mask key is derived.
pub open spec fn cllx_mask_label() -> Seq<u8> {
    "cllx_mask".spec_bytes()
}

/// Chunks of this length can be transformed: the length rounded up to whole words must
/// fit the mask stream and the word buffers.
pub open spec fn transformable_len(len: int) -> bool {
    &&& len + pad_len(len) <= max_keystream_len()
    &&& len + pad_len(len) <= usize::MAX
}

/// chunk -> encode -> diffuse with `f` -> mask -> decode.
pub open spec fn spec_pre_encrypt(
    f: Seq<Seq<u32>>,
    k_mask: Seq<u8>,
    chunk: Seq<u8>,
    file_nonce: Seq<u8>,
    chunk_id: u64,
) -> Seq<u8> {
    let poly1 = spec_diffuse(f, matrix_size(), spec_encode(chunk));
    spec_decode(spec_apply_mask(poly1, spec_mask(k_mask, file_nonce, chunk_id, poly1.len())))
}

/// data -> encode -> unmask -> diffuse with `g` -> decode.
pub open spec fn spec_post_decrypt(
    g: Seq<Seq<u32>>,
    k_mask: Seq<u8>,
    data: Seq<u8>,
    file_nonce: Seq<u8>,
    chunk_id: u64,
) -> Seq<u8> {
    let poly2 = spec_encode(data);
    spec_decode(
        spec_diffuse(
            g,
            matrix_size(),
            spec_remove_mask(poly2, spec_mask(k_mask, file_nonce, chunk_id, poly2.len())),
        ),
    )
}

/// Zero bytes that pad a chunk of `len` bytes up to whole words.
pub open spec fn zero_pad(len: int) -> Seq<u8> {
    Seq::new(pad_len(len) as nat, |i: int| 0u8)
}

/// cllX-Math Transform.
pub struct CllxTransform {
    matrix: DiffusionMatrix,
    k_mask: [u8; 32],
}

impl CllxTransform {
    #[verifier::type_invariant]
    spec fn well_formed(self) -> bool {
        &&& self.matrix.n == matrix_size()
        &&& is_unit_upper(rows_view(self.matrix.forward@), matrix_size())
        &&& is_back_sub_inverse(
            rows_view(self.matrix.forward@),
            rows_view(self.matrix.inverse@),
            matrix_size(),
        )
    }

    /// The forward diffusion matrix.
    pub closed spec fn forward(&self) -> Seq<Seq<u32>> {
        rows_view(self.matrix.forward@)
    }

    /// The inverse diffusion matrix.
    pub closed spec fn inverse(&self) -> Seq<Seq<u32>> {
        rows_view(self.matrix.inverse@)
    }

    /// The key of the mask stream.
    pub closed spec fn mask_key(&self) -> Seq<u8> {
        self.k_mask@
    }

    /// Create new transform from master key: the matrix seed and the mask key are
    /// derived from it with HKDF.
    pub fn new(master_key: &[u8; 32]) -> (r: Result<Self, Error>)
        ensures
            r matches Ok(t) && t.forward() == spec_forward(
                hkdf_sha3_256_okm32(master_key@, matrix_label()),
                matrix_size(),
            ) && t.mask_key() == hkdf_sha3_256_okm32(master_key@, cllx_mask_label())
                && is_unit_upper(t.forward(), matrix_size()) && is_back_sub_inverse(
                t.forward(),
                t.inverse(),
                matrix_size(),
            ),
    {
        let matrix_seed = Self::derive_matrix_seed(master_key);
        let k_mask = Self::derive_mask_key(master_key);
        let matrix = DiffusionMatrix::generate(&matrix_seed, 16)?;
        proof {
            lemma_forward_unit_upper(matrix_seed@, 16);
        }
        Ok(Self { matrix, k_mask })
    }

    /// Pre-encrypt transform: chunk -> cllX-Math -> ready for AEAD.
    pub fn pre_encrypt(&self, chunk: &[u8], file_nonce: &[u8; 12], chunk_id: u64) -> (r: Result<Vec<u8>, Error>)
        requires
            transformable_len(chunk@.len() as int),
        ensures
            r matches Ok(out) && out@ == spec_pre_encrypt(
                self.forward(),
                self.mask_key(),
                chunk@,
                file_nonce@,
                chunk_id,
            ),
    {
        proof {
            use_type_invariant(self);
        }
        // 1. Encode to polynomial
        let poly = encode_chunk(chunk);
        // 2. Apply diffusion
        let poly1 = self.matrix.diffuse(poly.as_slice());
        // 3. Generate and apply mask
        let mask = generate_mask(&self.k_mask, file_nonce, chunk_id, poly1.len());
        let poly2 = apply_mask(poly1.as_slice(), mask.as_slice());
        // 4. Decode back to bytes
        Ok(decode_chunk(poly2.as_slice()))
    }

    /// Post-decrypt transform: AEAD output -> cllX-Math inverse -> original chunk.
    pub fn post_decrypt(&self, data: &[u8], file_nonce: &[u8; 12], chunk_id: u64) -> (r: Result<Vec<u8>, Error>)
        requires
            transformable_len(data@.len() as int),
        ensures
            r matches Ok(out) && out@ == spec_post_decrypt(
                self.inverse(),
                self.mask_key(),
                data@,
                file_nonce@,
                chunk_id,
            ),
    {
        proof {
            use_type_invariant(self);
        }
        // 1. Encode to polynomial
        let poly2 = encode_chunk(data);
        // 2. Generate and remove mask
        let mask = generate_mask(&self.k_mask, file_nonce, chunk_id, poly2.len());
        let poly1 = remove_mask(poly2.as_slice(), mask.as_slice());
        // 3. Apply inverse diffusion
        let poly = self.matrix.diffuse_inv(poly1.as_slice());
        // 4. Decode back to bytes
        Ok(decode_chunk(poly.as_slice()))
    }

    /// Derive matrix seed using HKDF.
    fn derive_matrix_seed(master_key: &[u8; 32]) -> (seed: [u8; 32])
        ensures
            seed@ == hkdf_sha3_256_okm32(master_key@, matrix_label()),
    {
        hkdf_sha3_256(master_key, "cllx_matrix".as_bytes())
    }

    /// Derive mask key using HKDF.
    fn derive_mask_key(master_key: &[u8; 32]) -> (key: [u8; 32])
        ensures
            key@ == hkdf_sha3_256_okm32(master_key@, cllx_mask_label()),
    {
        hkdf_sha3_256(master_key, "cllx_mask".as_bytes())
    }
}

/// The pre-encrypt transform of a chunk is the chunk's length rounded up to whole words
/// long, and the post-decrypt transform of data is the data's length rounded up.
pub proof fn lemma_transform_lens(
    f: Seq<Seq<u32>>,
    g: Seq<Seq<u32>>,
    k_mask: Seq<u8>,
    chunk: Seq<u8>,
    file_nonce: Seq<u8>,
    chunk_id: u64,
)
    ensures
        spec_pre_encrypt(f, k_mask, chunk, file_nonce, chunk_id).len() == chunk.len() + pad_len(chunk.len() as int),
        spec_post_decrypt(g, k_mask, chunk, file_nonce, chunk_id).len() == chunk.len() + pad_len(chunk.len() as int),
{
}

/// Law: the post-decrypt transform undoes the pre-encrypt transform. Given a unit upper
/// triangular matrix `f`, its back-substitution inverse `g` and the same mask key, nonce
/// and chunk id, every chunk comes back exactly, followed by the zero bytes that padded
/// its last word.
pub proof fn lemma_transform_roundtrip(
    f: Seq<Seq<u32>>,
    g: Seq<Seq<u32>>,
    k_mask: Seq<u8>,
    chunk: Seq<u8>,
    file_nonce: Seq<u8>,
    chunk_id: u64,
)
    requires
        is_unit_upper(f, matrix_size()),
        is_back_sub_inverse(f, g, matrix_size()),
    ensures
        spec_post_decrypt(g, k_mask, spec_pre_encrypt(f, k_mask, chunk, file_nonce, chunk_id), file_nonce, chunk_id)
            == chunk + zero_pad(chunk.len() as int),
{
    let e = spec_encode(chunk);
    let poly1 = spec_diffuse(f, matrix_size(), e);
    let mask = spec_mask(k_mask, file_nonce, chunk_id, poly1.len());
    let poly2 = spec_apply_mask(poly1, mask);
    assert(poly2.len() == poly1.len());
    lemma_encode_decode(poly2);
    lemma_remove_apply_mask(poly1, mask);
    lemma_diffuse_roundtrip(f, g, matrix_size(), e);
    lemma_decode_encode(chunk);
}

} // verus!
