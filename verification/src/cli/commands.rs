// The commands of the tool: what sealing a file and opening it back compute.
use vstd::prelude::*;
use crate::base::error::Error;
use crate::base::keys::{MasterKey, KeyDerivation, hkdf_sha3_256_okm32, tree_root_label, mask_label};
use crate::base::crypto::{CipherType, aead_open, seal_accepts};
use crate::capsule::kem::{ek_ok, dk_ok, mlkem768_shared_secret, mlkem768_encaps_det, kem_recovers, is_valid_secret_key};
use crate::capsule::mlkem::{
    MlKemKeyPair, CapsuleV2, capsule_for, sealed_for, decapsulate_result, lemma_capsule_roundtrip,
};
use crate::chunk::{
    ChunkEngine, spec_split, split_data, chunk_sealed, chunks_opened, chunk_open_at, flatten,
    lemma_flatten_split, lemma_split_piece_len,
};
use crate::container::header::random_nonce;
use crate::container::simple_format::{
    concat_chunks, split_by_sizes, pieces, views, lens, size_prefix, lemma_pieces_flatten,
};
use super::keys::{key_file_for, password_key, zero_nonce, protected_key_aad, password_bytes, protect_secret_key};

verus! {

pub struct EncryptCommand {
    pub input_path: String,
    pub output_path: String,
    pub recipients: Vec<String>,
    pub chunk_size: usize,
    /// Password sealing the secret key (optional).
    pub password: Option<String>,
}

/// What sealing a file produces: the key file, the capsule for the new key pair, the
/// file nonce, and the encrypted chunks one after the other with the size of each.
pub struct SealedFile {
    pub key_data: Vec<u8>,
    pub capsule: CapsuleV2,
    pub file_nonce: [u8; 12],
    pub chunk_sizes: Vec<u32>,
    pub encrypted_data: Vec<u8>,
    pub total_chunks: usize,
}

/// The bytes of an optional password held as a `String`.
pub open spec fn string_password(password: Option<String>) -> Option<Seq<u8>> {
    match password {
        Some(p) => Some(vstd::utf8::encode_utf8(p@)),
        None => None,
    }
}

/// `f` seals `data` cut into chunks of `chunk_size` bytes, for the key pair (`sk`, `pk`)
/// and the master key `mk`: the key file holds `sk` (sealed under the password when
/// there is one: 2424 bytes, else 2400), the capsule seals `mk` and its mask key for `pk`, and chunk `i` is
/// sealed with ChaCha20-Poly1305 under the tree root key of `mk` as `cts[i]`.
pub open spec fn file_sealed(
    data: Seq<u8>,
    chunk_size: usize,
    password: Option<Seq<u8>>,
    f: SealedFile,
    sk: Seq<u8>,
    pk: Seq<u8>,
    mk: Seq<u8>,
    cts: Seq<Vec<u8>>,
) -> bool {
    let chunks = spec_split(data, chunk_size as int);
    let tk = hkdf_sha3_256_okm32(mk, tree_root_label());
    &&& ek_ok(pk)
    &&& dk_ok(sk)
    &&& sk.subrange(1152, 2336) == pk
    &&& mk.len() == 32
    &&& f.key_data@ == key_file_for(password, sk)
    &&& f.key_data@.len() == (if password is Some { 2424int } else { 2400int })
    &&& (password matches Some(pw) ==> aead_open(
        CipherType::ChaCha20Poly1305,
        password_key(pw),
        zero_nonce(),
        f.key_data@.subrange(8, f.key_data@.len() as int),
        protected_key_aad(),
    ) == Some(sk))
    &&& sealed_for(f.capsule, pk, mk, hkdf_sha3_256_okm32(mk, mask_label()))
    &&& hkdf_sha3_256_okm32(mk, mask_label()).len() == 32
    &&& f.total_chunks == chunks.len()
    &&& cts.len() == chunks.len()
    &&& forall|i: int|
        0 <= i < chunks.len() ==> #[trigger] chunk_sealed(
            CipherType::ChaCha20Poly1305,
            tk,
            f.file_nonce@,
            i,
            chunks[i],
            cts[i],
        )
    &&& f.encrypted_data@ == flatten(views(cts))
    &&& f.chunk_sizes@ == lens(views(cts))
}

/// `f` seals `data` for some fresh key pair and master key.
pub open spec fn sealed_file_of(data: Seq<u8>, chunk_size: usize, password: Option<Seq<u8>>, f: SealedFile) -> bool {
    exists|sk: Seq<u8>, pk: Seq<u8>, mk: Seq<u8>, cts: Seq<Vec<u8>>|
        #[trigger] file_sealed(data, chunk_size, password, f, sk, pk, mk, cts)
}

/// Some chunk of `data` is too long for ChaCha20-Poly1305.
pub open spec fn some_chunk_refused(data: Seq<u8>, chunk_size: usize) -> bool {
    exists|i: int|
        0 <= i < spec_split(data, chunk_size as int).len() && !seal_accepts(
            CipherType::ChaCha20Poly1305,
            #[trigger] spec_split(data, chunk_size as int)[i].len() as int,
            16,
        )
}

impl EncryptCommand {
    /// Seal `data` (the content of the input file): a new master key and key pair, the
    /// key file, the capsule, and the chunks encrypted with ChaCha20-Poly1305.
    pub fn seal(&self, data: &[u8]) -> (r: Result<SealedFile, Error>)
        requires
            self.chunk_size > 0,
            data@.len() + 16 <= usize::MAX,
        ensures
            r matches Ok(f) ==> sealed_file_of(data@, self.chunk_size, string_password(self.password), f),
            r is Err <==> some_chunk_refused(data@, self.chunk_size),
            r matches Err(e) ==> e is Crypto,
    {
        // Master key and key pair
        let master_key = MasterKey::generate();
        let keypair = match MlKemKeyPair::generate() {
            Ok(k) => k,
            Err(e) => {
                return Err(e);
            },
        };
        // Key file content
        assert(seal_accepts(CipherType::ChaCha20Poly1305, 2400, 23));
        let key_data = match &self.password {
            Some(p) => {
                let ps = p.as_str();
                assert(password_bytes(Some(ps)) == string_password(self.password));
                protect_secret_key(Some(ps), keypair.secret_key_bytes())
            },
            None => protect_secret_key(None, keypair.secret_key_bytes()),
        };
        let key_data = match key_data {
            Ok(k) => k,
            Err(e) => {
                return Err(e);
            },
        };
        // Capsule
        let mask_seed = match KeyDerivation::derive_mask_key(&master_key) {
            Ok(k) => k,
            Err(e) => {
                return Err(e);
            },
        };
        let capsule = match CapsuleV2::encapsulate(keypair.public_key_bytes(), &master_key, &mask_seed) {
            Ok(c) => c,
            Err(e) => {
                return Err(e);
            },
        };
        // Chunks
        let engine = ChunkEngine::new(self.chunk_size, CipherType::ChaCha20Poly1305);
        let parts = split_data(data, self.chunk_size);
        let ghost sp = spec_split(data@, self.chunk_size as int);
        let mut chunks: Vec<Vec<u8>> = Vec::new();
        let mut k: usize = 0;
        while k < parts.len()
            invariant
                k <= parts@.len(),
                parts@.len() == sp.len(),
                forall|j: int| 0 <= j < parts@.len() ==> #[trigger] parts@[j]@ == sp[j],
                chunks@.len() == k,
                forall|j: int| 0 <= j < k ==> #[trigger] chunks@[j]@ == sp[j],
            decreases parts@.len() - k,
        {
            let mut c: Vec<u8> = Vec::new();
            crate::base::bytes::append_bytes(&mut c, parts[k]);
            chunks.push(c);
            k = k + 1;
        }
        proof {
            assert forall|i: int| 0 <= i < chunks@.len() implies #[trigger] chunks@[i]@.len() + 16 <= usize::MAX by {
                lemma_split_piece_len(data@, self.chunk_size as int, i);
            }
        }
        let tree_root_key = match KeyDerivation::derive_tree_root(&master_key) {
            Ok(k) => k,
            Err(e) => {
                return Err(e);
            },
        };
        let file_nonce = random_nonce();
        let encrypted_chunks = match engine.encrypt_chunks(chunks.as_slice(), &tree_root_key, &file_nonce) {
            Ok(c) => c,
            Err(e) => {
                proof {
                    let i = choose|i: int|
                        0 <= i < chunks@.len() && !seal_accepts(
                            CipherType::ChaCha20Poly1305,
                            #[trigger] chunks@[i]@.len() as int,
                            16,
                        );
                    assert(chunks@[i]@ == sp[i]);
                }
                return Err(e);
            },
        };
        let (encrypted_data, chunk_sizes) = concat_chunks(encrypted_chunks.as_slice());
        let f = SealedFile {
            key_data,
            capsule,
            file_nonce,
            chunk_sizes,
            encrypted_data,
            total_chunks: chunks.len(),
        };
        proof {
            let sk = keypair.secret_key@;
            let pk = keypair.public_key@;
            let mk = master_key@;
            let cts = encrypted_chunks@;
            assert forall|i: int| 0 <= i < sp.len() implies #[trigger] chunk_sealed(
                CipherType::ChaCha20Poly1305,
                hkdf_sha3_256_okm32(mk, tree_root_label()),
                file_nonce@,
                i,
                sp[i],
                cts[i],
            ) by {
                assert(chunks@[i]@ == sp[i]);
            }
            assert(file_sealed(data@, self.chunk_size, string_password(self.password), f, sk, pk, mk, cts));
            assert forall|i: int|
                0 <= i < sp.len() implies seal_accepts(CipherType::ChaCha20Poly1305, #[trigger] sp[i].len() as int, 16) by {
                assert(chunk_sealed(
                    CipherType::ChaCha20Poly1305,
                    hkdf_sha3_256_okm32(mk, tree_root_label()),
                    file_nonce@,
                    i,
                    sp[i],
                    cts[i],
                ));
            }
        }
        Ok(f)
    }
}

pub struct DecryptCommand {
    pub input_path: String,
    pub output_path: String,
    pub secret_key_path: Option<String>,
}

/// The plaintext sizes of chunks of the given encrypted sizes: 16 bytes less (the tag),
/// never below zero.
pub open spec fn original_sizes(sizes: Seq<u32>) -> Seq<usize> {
    sizes.map_values(|s: u32| (if s >= 16 { s - 16 } else { 0 }) as usize)
}

/// Opening through the decapsulation result `d`, the encrypted chunks `cts` and the
/// chunk decryption result `pr`: a failed decapsulation is the result; otherwise the
/// data is cut by the sizes, each chunk opened under the tree root key of the master
/// key, and the plaintexts put back together.
pub open spec fn opened_via(
    capsule: CapsuleV2,
    sk: Seq<u8>,
    nonce: Seq<u8>,
    sizes: Seq<u32>,
    data: Seq<u8>,
    r: Result<Vec<u8>, Error>,
    d: Result<(MasterKey, [u8; 32]), Error>,
    cts: Seq<Vec<u8>>,
    pr: Result<Vec<Vec<u8>>, Error>,
) -> bool {
    &&& decapsulate_result(capsule, sk, d)
    &&& match d {
        Err(e) => r == Err::<Vec<u8>, Error>(e),
        Ok((mk, _)) => {
            &&& views(cts) == pieces(data, sizes)
            &&& chunks_opened(
                CipherType::ChaCha20Poly1305,
                hkdf_sha3_256_okm32(mk@, tree_root_label()),
                nonce,
                cts,
                original_sizes(sizes),
                pr,
            )
            &&& match pr {
                Ok(pts) => r matches Ok(v) && v@ == flatten(views(pts@)),
                Err(e) => r == Err::<Vec<u8>, Error>(e),
            }
        },
    }
}

/// What `open_file` returns.
pub open spec fn opened_file(
    capsule: CapsuleV2,
    sk: Seq<u8>,
    nonce: Seq<u8>,
    sizes: Seq<u32>,
    data: Seq<u8>,
    r: Result<Vec<u8>, Error>,
) -> bool {
    exists|d: Result<(MasterKey, [u8; 32]), Error>, cts: Seq<Vec<u8>>, pr: Result<Vec<Vec<u8>>, Error>|
        #[trigger] opened_via(capsule, sk, nonce, sizes, data, r, d, cts, pr)
}

/// The inputs `open_file` accepts: a secret key ML-KEM accepts, a ciphertext of the
/// right size in the capsule, and chunk sizes that stay within the data.
pub open spec fn can_open(capsule: CapsuleV2, sk: Seq<u8>, sizes: Seq<u32>, data: Seq<u8>) -> bool {
    &&& dk_ok(sk)
    &&& capsule.capsule.public_ring@.len() == 1088
    &&& size_prefix(sizes, sizes.len() as int) <= data.len()
}

impl DecryptCommand {
    /// The key file: the one given, or the input path with `.key` appended.
    pub fn key_path(&self) -> (p: String)
        ensures
            p@ == match self.secret_key_path {
                Some(s) => s@,
                None => self.input_path@ + ".key"@,
            },
    {
        match &self.secret_key_path {
            Some(s) => s.clone(),
            None => {
                let mut p = self.input_path.clone();
                p.append(".key");
                p
            },
        }
    }

    /// Open a sealed file: recover the master key from the capsule, then decrypt every
    /// chunk with ChaCha20-Poly1305 and put them back together.
    pub fn open_file(
        capsule: &CapsuleV2,
        secret_key: &[u8],
        chunk_size: u32,
        file_nonce: &[u8; 12],
        chunk_sizes: &[u32],
        encrypted_data: &[u8],
    ) -> (r: Result<Vec<u8>, Error>)
        requires
            can_open(*capsule, secret_key@, chunk_sizes@, encrypted_data@),
        ensures
            opened_file(*capsule, secret_key@, file_nonce@, chunk_sizes@, encrypted_data@, r),
    {
        let d = capsule.decapsulate(secret_key);
        let ghost dg = d;
        let (master_key, _mask_seed) = match d {
            Ok(x) => x,
            Err(e) => {
                let r = Err(e);
                assert(opened_via(
                    *capsule,
                    secret_key@,
                    file_nonce@,
                    chunk_sizes@,
                    encrypted_data@,
                    r,
                    dg,
                    Seq::empty(),
                    Err(Error::AuthFailed),
                ));
                return r;
            },
        };
        let tree_root_key = match KeyDerivation::derive_tree_root(&master_key) {
            Ok(k) => k,
            Err(e) => {
                return Err(e);
            },
        };
        let engine = ChunkEngine::new(chunk_size as usize, CipherType::ChaCha20Poly1305);
        let encrypted_chunks = split_by_sizes(encrypted_data, chunk_sizes);
        let mut sizes: Vec<usize> = Vec::new();
        let mut i: usize = 0;
        while i < chunk_sizes.len()
            invariant
                i <= chunk_sizes@.len(),
                sizes@ == original_sizes(chunk_sizes@).take(i as int),
            decreases chunk_sizes@.len() - i,
        {
            sizes.push((chunk_sizes[i] as usize).saturating_sub(16));
            assert(sizes@ =~= original_sizes(chunk_sizes@).take(i as int + 1));
            i = i + 1;
        }
        assert(sizes@ =~= original_sizes(chunk_sizes@));
        let pr = engine.decrypt_chunks(encrypted_chunks.as_slice(), &tree_root_key, file_nonce, sizes.as_slice());
        let ghost prg = pr;
        match pr {
            Ok(pts) => {
                let (out, _) = concat_chunks(pts.as_slice());
                let r = Ok(out);
                assert(opened_via(
                    *capsule,
                    secret_key@,
                    file_nonce@,
                    chunk_sizes@,
                    encrypted_data@,
                    r,
                    dg,
                    encrypted_chunks@,
                    prg,
                ));
                r
            },
            Err(e) => {
                let r = Err(e);
                assert(opened_via(
                    *capsule,
                    secret_key@,
                    file_nonce@,
                    chunk_sizes@,
                    encrypted_data@,
                    r,
                    dg,
                    encrypted_chunks@,
                    prg,
                ));
                r
            },
        }
    }

    /// Open a sealed file when the inputs are acceptable; `None` when the secret key is
    /// not one ML-KEM accepts, the capsule's ciphertext has the wrong size, or the chunk
    /// sizes run past the data.
    pub fn open_file_checked(
        capsule: &CapsuleV2,
        secret_key: &[u8],
        chunk_size: u32,
        file_nonce: &[u8; 12],
        chunk_sizes: &[u32],
        encrypted_data: &[u8],
    ) -> (r: Option<Result<Vec<u8>, Error>>)
        ensures
            r is None <==> !can_open(*capsule, secret_key@, chunk_sizes@, encrypted_data@),
            r matches Some(res) ==> opened_file(*capsule, secret_key@, file_nonce@, chunk_sizes@, encrypted_data@, res),
    {
        if !check_can_open(capsule, secret_key, chunk_sizes, encrypted_data) {
            return None;
        }
        Some(Self::open_file(capsule, secret_key, chunk_size, file_nonce, chunk_sizes, encrypted_data))
    }
}

/// Whether `open_file` accepts these inputs (see `can_open`).
pub fn check_can_open(capsule: &CapsuleV2, secret_key: &[u8], chunk_sizes: &[u32], encrypted_data: &[u8]) -> (b: bool)
    ensures
        b == can_open(*capsule, secret_key@, chunk_sizes@, encrypted_data@),
{
    if !is_valid_secret_key(secret_key) {
        return false;
    }
    if capsule.capsule.public_ring.len() != 1088 {
        return false;
    }
    let n = encrypted_data.len();
    let mut total: usize = 0;
    let mut i: usize = 0;
    while i < chunk_sizes.len()
        invariant
            i <= chunk_sizes@.len(),
            n == encrypted_data@.len(),
            total == size_prefix(chunk_sizes@, i as int),
            total <= n,
        decreases chunk_sizes@.len() - i,
    {
        let s = chunk_sizes[i] as usize;
        if s > n - total {
            proof {
                lemma_prefix_exceeds(chunk_sizes@, i as int + 1, chunk_sizes@.len() as int);
            }
            return false;
        }
        total = total + s;
        i = i + 1;
    }
    true
}

proof fn lemma_prefix_exceeds(sizes: Seq<u32>, a: int, b: int)
    requires
        0 <= a <= b <= sizes.len(),
    ensures
        size_prefix(sizes, a) <= size_prefix(sizes, b),
    decreases b - a,
{
    if a < b {
        lemma_prefix_exceeds(sizes, a, b - 1);
    }
}

/// Law: opening what `seal` produced, with the key pair's secret key, gives back the
/// data, provided ML-KEM decapsulation with that key recovers the shared secret of an
/// encapsulation to its public key and every encrypted chunk's size fits in 32 bits.
pub proof fn lemma_file_roundtrip(
    data: Seq<u8>,
    chunk_size: usize,
    password: Option<Seq<u8>>,
    f: SealedFile,
    sk: Seq<u8>,
    pk: Seq<u8>,
    mk: Seq<u8>,
    cts: Seq<Vec<u8>>,
    r: Result<Vec<u8>, Error>,
)
    requires
        chunk_size > 0,
        chunk_size + 16 <= u32::MAX,
        file_sealed(data, chunk_size, password, f, sk, pk, mk, cts),
        kem_recovers(sk, pk),
        opened_file(f.capsule, sk, f.file_nonce@, f.chunk_sizes@, f.encrypted_data@, r),
    ensures
        r matches Ok(v) && v@ == data,
{
    let chunks = spec_split(data, chunk_size as int);
    let tk = hkdf_sha3_256_okm32(mk, tree_root_label());
    let nonce = f.file_nonce@;
    let (d, cts2, pr) = choose|d: Result<(MasterKey, [u8; 32]), Error>, cts2: Seq<Vec<u8>>, pr: Result<Vec<Vec<u8>>, Error>|
        #[trigger] opened_via(f.capsule, sk, nonce, f.chunk_sizes@, f.encrypted_data@, r, d, cts2, pr);
    let m = choose|m: [u8; 32]|
        #[trigger] mlkem768_encaps_det(pk, m).1 == f.capsule.capsule.public_ring@ && capsule_for(
            f.capsule,
            pk,
            mk,
            hkdf_sha3_256_okm32(mk, mask_label()),
            mlkem768_encaps_det(pk, m).0,
        );
    let ss = mlkem768_encaps_det(pk, m).0;
    lemma_capsule_roundtrip(f.capsule, pk, sk, mk, hkdf_sha3_256_okm32(mk, mask_label()), ss, d);
    let mk2 = d->Ok_0.0;
    assert(mk2@ == mk);
    // The encrypted chunks are cut back out of the data.
    assert forall|i: int| 0 <= i < views(cts).len() implies #[trigger] views(cts)[i].len() <= u32::MAX by {
        lemma_split_piece_len(data, chunk_size as int, i);
        assert(chunk_sealed(CipherType::ChaCha20Poly1305, tk, nonce, i, chunks[i], cts[i]));
    }
    lemma_pieces_flatten(views(cts));
    assert(views(cts2) == views(cts));
    let sizes = original_sizes(f.chunk_sizes@);
    assert forall|i: int| 0 <= i < cts2.len() implies #[trigger] chunk_open_at(
        CipherType::ChaCha20Poly1305,
        tk,
        nonce,
        cts2,
        sizes,
        i,
    ) == Some(chunks[i]) by {
        lemma_split_piece_len(data, chunk_size as int, i);
        assert(chunk_sealed(CipherType::ChaCha20Poly1305, tk, nonce, i, chunks[i], cts[i]));
        assert(views(cts2)[i] == views(cts)[i]);
        assert(cts2[i]@ == cts[i]@);
        assert(f.chunk_sizes@[i] == cts[i]@.len() as u32);
        assert(sizes[i] == chunks[i].len());
    }
    match pr {
        Ok(pts) => {
            assert(views(pts@) =~= chunks) by {
                assert forall|i: int| 0 <= i < chunks.len() implies #[trigger] views(pts@)[i] == chunks[i] by {
                    assert(chunk_open_at(CipherType::ChaCha20Poly1305, tk, nonce, cts2, sizes, i) == Some(chunks[i]));
                }
            }
            lemma_flatten_split(data, chunk_size as int);
        },
        Err(e) => {
            let i = choose|i: int|
                0 <= i < cts2.len() && #[trigger] chunk_open_at(CipherType::ChaCha20Poly1305, tk, nonce, cts2, sizes, i)
                    is None;
            assert(chunk_open_at(CipherType::ChaCha20Poly1305, tk, nonce, cts2, sizes, i) == Some(chunks[i]));
        },
    }
}

pub struct InfoCommand {
    pub input_path: String,
}

impl InfoCommand {
    /// Showing information is not implemented: it succeeds without doing anything.
    pub fn execute(&self) -> (r: Result<(), Error>)
        ensures
            r is Ok,
    {
        Ok(())
    }
}

pub struct VerifyCommand {
    pub input_path: String,
}

impl VerifyCommand {
    /// Verifying is not implemented: it succeeds without doing anything.
    pub fn execute(&self) -> (r: Result<(), Error>)
        ensures
            r is Ok,
    {
        Ok(())
    }
}

/// Language of the graphical interface.
#[derive(PartialEq, Eq, Clone, Copy, Debug)]
pub enum Language {
    English,
    Chinese,
}

impl Language {
    /// The other language.
    pub fn toggle(&self) -> (l: Self)
        ensures
            *self == Language::English ==> l == Language::Chinese,
            *self == Language::Chinese ==> l == Language::English,
    {
        match self {
            Language::English => Language::Chinese,
            Language::Chinese => Language::English,
        }
    }

    /// Label of the button that switches to the other language.
    pub fn button_text(&self) -> (s: &str)
        ensures
            *self == Language::English ==> s@ == "中"@,
            *self == Language::Chinese ==> s@ == "Eng"@,
    {
        match self {
            Language::English => "中",
            Language::Chinese => "Eng",
        }
    }
}

} // verus!
