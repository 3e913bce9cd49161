// Sealing and opening as the desktop app does it: chunk by chunk, each chunk sealed on
// its own (as chunk 0), with the key file optionally embedded in the container.
use vstd::prelude::*;
use crate::base::error::Error;
use crate::base::keys::{MasterKey, KeyDerivation, hkdf_sha3_256_okm32, tree_root_label, mask_label};
use crate::base::crypto::{CipherType, aead_open, seal_accepts};
use crate::base::bytes::{append_bytes, bytes_to_vec};
use crate::capsule::kem::{ek_ok, dk_ok, mlkem768_encaps_det, kem_recovers};
use crate::capsule::mlkem::{MlKemKeyPair, CapsuleV2, capsule_for, sealed_for, decapsulate_result, lemma_capsule_roundtrip};
use crate::chunk::{
    ChunkEngine, spec_split, split_data, chunk_sealed, chunk_key, chunk_nonce, chunk_aad, flatten,
    lemma_flatten_split, lemma_split_piece_len,
};
use crate::container::header::random_nonce;
use crate::container::simple_format::{concat_chunks, split_by_sizes, pieces, views, lens, lemma_pieces_flatten};
use super::keys::{
    key_file_for, password_key, zero_nonce, protected_key_aad, password_bytes, protect_secret_key,
    spec_is_protected, is_password_protected, unlock_secret_key, raw_secret_key, lemma_key_file_roundtrip,
};
use super::commands::{string_password, some_chunk_refused, original_sizes, can_open, check_can_open};

verus! {

/// What the desktop app's sealing produces: the key file content, the same content
/// embedded in the container when that was asked for, the capsule, the file nonce, and
/// the encrypted chunks one after the other with the size of each.
pub struct GuiSealedFile {
    pub key_data: Vec<u8>,
    pub embedded_key: Option<Vec<u8>>,
    pub capsule: CapsuleV2,
    pub chunk_size: u32,
    pub file_nonce: [u8; 12],
    pub chunk_sizes: Vec<u32>,
    pub encrypted_data: Vec<u8>,
    pub total_chunks: usize,
}

/// `f` seals `data` cut into chunks of `chunk_size` bytes, for the key pair (`sk`, `pk`)
/// and the master key `mk`: the key file holds `sk` (sealed under the password when
/// there is one: 2424 bytes, else 2400) and is embedded exactly when `embed` is set, the
/// capsule seals `mk` and its mask key for `pk`, and every chunk is sealed on its own,
/// as chunk 0, with ChaCha20-Poly1305 under the tree root key of `mk`, as `cts[i]`.
pub open spec fn gui_file_sealed(
    data: Seq<u8>,
    chunk_size: usize,
    password: Option<Seq<u8>>,
    embed: bool,
    f: GuiSealedFile,
    sk: Seq<u8>,
    pk: Seq<u8>,
    mk: Seq<u8>,
    cts: Seq<Vec<u8>>,
) -> bool {
    let chunks = spec_split(data, chunk_size as int);
    let tk = hkdf_sha3_256_okm32(mk, tree_root_label());
    &&& ek_ok(pk)
    &&& dk_ok(sk)
    &&& sk.subrange(1152, 2336) == pk
    &&& mk.len() == 32
    &&& f.key_data@ == key_file_for(password, sk)
    &&& f.key_data@.len() == (if password is Some { 2424int } else { 2400int })
    &&& (password matches Some(pw) ==> aead_open(
        CipherType::ChaCha20Poly1305,
        password_key(pw),
        zero_nonce(),
        f.key_data@.subrange(8, f.key_data@.len() as int),
        protected_key_aad(),
    ) == Some(sk))
    &&& (if embed {
        f.embedded_key matches Some(k) && k@ == f.key_data@
    } else {
        f.embedded_key is None
    })
    &&& sealed_for(f.capsule, pk, mk, hkdf_sha3_256_okm32(mk, mask_label()))
    &&& hkdf_sha3_256_okm32(mk, mask_label()).len() == 32
    &&& f.chunk_size == chunk_size as u32
    &&& f.total_chunks == chunks.len()
    &&& cts.len() == chunks.len()
    &&& forall|i: int|
        0 <= i < chunks.len() ==> #[trigger] chunk_sealed(CipherType::ChaCha20Poly1305, tk, f.file_nonce@, 0, chunks[i], cts[i])
    &&& f.encrypted_data@ == flatten(views(cts))
    &&& f.chunk_sizes@ == lens(views(cts))
}

/// `f` seals `data` for some fresh key pair and master key.
pub open spec fn gui_sealed_file_of(data: Seq<u8>, chunk_size: usize, password: Option<Seq<u8>>, embed: bool, f: GuiSealedFile) -> bool {
    exists|sk: Seq<u8>, pk: Seq<u8>, mk: Seq<u8>, cts: Seq<Vec<u8>>|
        #[trigger] gui_file_sealed(data, chunk_size, password, embed, f, sk, pk, mk, cts)
}

/// Seal `data` (the content of the input file) as the desktop app does: a new master key
/// and key pair, the key file (embedded in the result when `embed_key` is set), the
/// capsule, and each chunk encrypted on its own with ChaCha20-Poly1305.
pub fn seal_embedded(data: &[u8], chunk_size: usize, password: Option<String>, embed_key: bool) -> (r: Result<
    GuiSealedFile,
    Error,
>)
    requires
        chunk_size > 0,
        data@.len() + 16 <= usize::MAX,
    ensures
        r matches Ok(f) ==> gui_sealed_file_of(data@, chunk_size, string_password(password), embed_key, f),
        r is Err <==> some_chunk_refused(data@, chunk_size),
        r matches Err(e) ==> e is Crypto,
{
    // Master key and key pair
    let master_key = MasterKey::generate();
    let keypair = match MlKemKeyPair::generate() {
        Ok(k) => k,
        Err(e) => {
            return Err(e);
        },
    };
    // Key file content
    assert(seal_accepts(CipherType::ChaCha20Poly1305, 2400, 23));
    let key_data = match &password {
        Some(p) => {
            let ps = p.as_str();
            assert(password_bytes(Some(ps)) == string_password(password));
            protect_secret_key(Some(ps), keypair.secret_key_bytes())
        },
        None => protect_secret_key(None, keypair.secret_key_bytes()),
    };
    let key_data = match key_data {
        Ok(k) => k,
        Err(e) => {
            return Err(e);
        },
    };
    let embedded_key = if embed_key {
        Some(bytes_to_vec(key_data.as_slice()))
    } else {
        None
    };
    // Capsule
    let mask_seed = match KeyDerivation::derive_mask_key(&master_key) {
        Ok(k) => k,
        Err(e) => {
            return Err(e);
        },
    };
    let capsule = match CapsuleV2::encapsulate(keypair.public_key_bytes(), &master_key, &mask_seed) {
        Ok(c) => c,
        Err(e) => {
            return Err(e);
        },
    };
    // Chunks, one at a time
    let engine = ChunkEngine::new(chunk_size, CipherType::ChaCha20Poly1305);
    let tree_root_key = match KeyDerivation::derive_tree_root(&master_key) {
        Ok(k) => k,
        Err(e) => {
            return Err(e);
        },
    };
    let file_nonce = random_nonce();
    let parts = split_data(data, chunk_size);
    let ghost sp = spec_split(data@, chunk_size as int);
    let ghost tk = hkdf_sha3_256_okm32(master_key@, tree_root_label());
    let mut cts: Vec<Vec<u8>> = Vec::new();
    let mut k: usize = 0;
    while k < parts.len()
        invariant
            k <= parts@.len(),
            parts@.len() == sp.len(),
            sp == spec_split(data@, chunk_size as int),
            chunk_size > 0,
            data@.len() + 16 <= usize::MAX,
            forall|j: int| 0 <= j < parts@.len() ==> #[trigger] parts@[j]@ == sp[j],
            engine.cipher_type() == CipherType::ChaCha20Poly1305,
            tree_root_key@ == tk,
            cts@.len() == k,
            forall|j: int|
                0 <= j < k ==> #[trigger] chunk_sealed(CipherType::ChaCha20Poly1305, tk, file_nonce@, 0, sp[j], cts@[j]),
        decreases parts@.len() - k,
    {
        let mut c: Vec<u8> = Vec::new();
        append_bytes(&mut c, parts[k]);
        proof {
            lemma_split_piece_len(data@, chunk_size as int, k as int);
        }
        let single: Vec<Vec<u8>> = vec![c];
        assert(single@[0]@ == sp[k as int]);
        let sealed = match engine.encrypt_chunks(single.as_slice(), &tree_root_key, &file_nonce) {
            Ok(s) => s,
            Err(e) => {
                assert(!seal_accepts(CipherType::ChaCha20Poly1305, sp[k as int].len() as int, 16));
                return Err(e);
            },
        };
        let ghost ct0 = sealed@[0];
        assert(chunk_sealed(CipherType::ChaCha20Poly1305, tk, file_nonce@, 0, single@[0]@, sealed@[0]));
        let mut sealed = sealed;
        let ct = sealed.remove(0);
        assert(ct == ct0);
        cts.push(ct);
        k = k + 1;
    }
    let (encrypted_data, chunk_sizes) = concat_chunks(cts.as_slice());
    let f = GuiSealedFile {
        key_data,
        embedded_key,
        capsule,
        chunk_size: chunk_size as u32,
        file_nonce,
        chunk_sizes,
        encrypted_data,
        total_chunks: parts.len(),
    };
    proof {
        let sk = keypair.secret_key@;
        let pk = keypair.public_key@;
        let mk = master_key@;
        assert(gui_file_sealed(data@, chunk_size, string_password(password), embed_key, f, sk, pk, mk, cts@));
        assert forall|i: int|
            0 <= i < sp.len() implies seal_accepts(CipherType::ChaCha20Poly1305, #[trigger] sp[i].len() as int, 16) by {
            assert(chunk_sealed(CipherType::ChaCha20Poly1305, tk, file_nonce@, 0, sp[i], cts@[i]));
        }
    }
    Ok(f)
}

/// The bytes of an optional byte vector.
pub open spec fn opt_bytes(o: Option<Vec<u8>>) -> Option<Seq<u8>> {
    match o {
        Some(v) => Some(v@),
        None => None,
    }
}

/// The secret key a file is opened with: the key embedded in the container when there is
/// one, else the key file; a password-protected key unlocked with the password, a raw
/// key of 2400 bytes taken as it is. `None` when there is no key, a protected key comes
/// without a password or does not open with it, or a raw key has another size.
pub open spec fn spec_resolved_key(embedded: Option<Seq<u8>>, key_file: Option<Seq<u8>>, password: Option<Seq<u8>>) -> Option<
    Seq<u8>,
> {
    let source = if embedded is Some {
        embedded
    } else {
        key_file
    };
    match source {
        None => None,
        Some(kd) => if spec_is_protected(kd) {
            match password {
                None => None,
                Some(pw) => aead_open(
                    CipherType::ChaCha20Poly1305,
                    password_key(pw),
                    zero_nonce(),
                    kd.subrange(8, kd.len() as int),
                    protected_key_aad(),
                ),
            }
        } else if kd.len() == 2400 {
            Some(kd)
        } else {
            None
        },
    }
}

/// Whether the key a file is opened with (the embedded key, else the key file) is
/// password protected.
pub open spec fn key_source_protected(embedded: Option<Seq<u8>>, key_file: Option<Seq<u8>>) -> bool {
    match (if embedded is Some { embedded } else { key_file }) {
        Some(kd) => spec_is_protected(kd),
        None => false,
    }
}

/// The secret key to open a file with (see `spec_resolved_key`); every failure is
/// `InvalidInput`, and a protected key without a password says that a password is
/// needed.
pub fn resolve_secret_key(embedded_key: &Option<Vec<u8>>, key_file: Option<Vec<u8>>, password: &Option<String>) -> (r:
    Result<Vec<u8>, Error>)
    ensures
        match spec_resolved_key(opt_bytes(*embedded_key), opt_bytes(key_file), string_password(*password)) {
            Some(k) => r matches Ok(v) && v@ == k,
            None => r matches Err(Error::InvalidInput(_)),
        },
        key_source_protected(opt_bytes(*embedded_key), opt_bytes(key_file)) && password is None ==> (r matches Err(
            Error::InvalidInput(m),
        ) && m@ == "This file requires a password to decrypt"@),
{
    let key_data: Vec<u8> = match embedded_key {
        Some(k) => bytes_to_vec(k.as_slice()),
        None => match key_file {
            Some(k) => k,
            None => {
                return Err(Error::InvalidInput("Cannot find key file".to_owned()));
            },
        },
    };
    if is_password_protected(key_data.as_slice()) {
        match password {
            None => Err(Error::InvalidInput("This file requires a password to decrypt".to_owned())),
            Some(p) => {
                let ps = p.as_str();
                assert(password_bytes(Some(ps)) == string_password(*password));
                unlock_secret_key(key_data.as_slice(), ps)
            },
        }
    } else {
        raw_secret_key(key_data)
    }
}

/// Chunk `ct` opened on its own (as chunk 0) with the given plaintext size.
pub open spec fn open_single(tree_root_key: Seq<u8>, file_nonce: Seq<u8>, ct: Seq<u8>, size: usize) -> Option<Seq<u8>> {
    aead_open(
        CipherType::ChaCha20Poly1305,
        chunk_key(tree_root_key, 0),
        chunk_nonce(file_nonce, 0),
        ct,
        chunk_aad(0, size as int),
    )
}

/// The plaintexts of the first `n` chunks, each opened on its own.
pub open spec fn opened_singly(tree_root_key: Seq<u8>, file_nonce: Seq<u8>, cts: Seq<Seq<u8>>, sizes: Seq<usize>, n: int) -> Seq<
    Seq<u8>,
> {
    Seq::new(n as nat, |j: int| open_single(tree_root_key, file_nonce, cts[j], sizes[j])->0)
}

/// Opening through the decapsulation result `d`: a failed decapsulation is the result;
/// otherwise the data is cut by the sizes and every chunk opened on its own under the
/// tree root key of the master key, with its size less the tag; the plaintexts put
/// together when all open, `AuthFailed` when one does not.
pub open spec fn gui_opened_via(
    capsule: CapsuleV2,
    sk: Seq<u8>,
    nonce: Seq<u8>,
    sizes: Seq<u32>,
    data: Seq<u8>,
    r: Result<Vec<u8>, Error>,
    d: Result<(MasterKey, [u8; 32]), Error>,
) -> bool {
    &&& decapsulate_result(capsule, sk, d)
    &&& match d {
        Err(e) => r == Err::<Vec<u8>, Error>(e),
        Ok((mk, _)) => {
            let tk = hkdf_sha3_256_okm32(mk@, tree_root_label());
            let cs = pieces(data, sizes);
            let os = original_sizes(sizes);
            if forall|j: int| 0 <= j < cs.len() ==> #[trigger] open_single(tk, nonce, cs[j], os[j]) is Some {
                r matches Ok(v) && v@ == flatten(opened_singly(tk, nonce, cs, os, cs.len() as int))
            } else {
                r matches Err(Error::AuthFailed)
            }
        },
    }
}

/// What opening a file chunk by chunk gives.
pub open spec fn gui_opened(capsule: CapsuleV2, sk: Seq<u8>, nonce: Seq<u8>, sizes: Seq<u32>, data: Seq<u8>, r: Result<Vec<u8>, Error>) -> bool {
    exists|d: Result<(MasterKey, [u8; 32]), Error>| #[trigger] gui_opened_via(capsule, sk, nonce, sizes, data, r, d)
}

/// What opening `f` with the given key file and password gives: `InvalidInput` when no
/// secret key can be had, otherwise the file opened chunk by chunk with that key.
pub open spec fn gui_open_result(f: GuiSealedFile, key_file: Option<Seq<u8>>, password: Option<Seq<u8>>, r: Result<Vec<u8>, Error>) -> bool {
    match spec_resolved_key(opt_bytes(f.embedded_key), key_file, password) {
        None => r matches Err(Error::InvalidInput(_)),
        Some(k) => gui_opened(f.capsule, k, f.file_nonce@, f.chunk_sizes@, f.encrypted_data@, r),
    }
}

/// Open a sealed file with a secret key, chunk by chunk: recover the master key from
/// the capsule, then decrypt every chunk on its own and put them back together.
pub fn open_singly(capsule: &CapsuleV2, secret_key: &[u8], file_nonce: &[u8; 12], chunk_sizes: &[u32], encrypted_data: &[u8]) -> (r: Result<Vec<u8>, Error>)
    requires
        can_open(*capsule, secret_key@, chunk_sizes@, encrypted_data@),
    ensures
        gui_opened(*capsule, secret_key@, file_nonce@, chunk_sizes@, encrypted_data@, r),
{
    let d = capsule.decapsulate(secret_key);
    let ghost dg = d;
    let (master_key, _mask_seed) = match d {
        Ok(x) => x,
        Err(e) => {
            let r = Err(e);
            assert(gui_opened_via(*capsule, secret_key@, file_nonce@, chunk_sizes@, encrypted_data@, r, dg));
            return r;
        },
    };
    let tree_root_key = match KeyDerivation::derive_tree_root(&master_key) {
        Ok(k) => k,
        Err(e) => {
            return Err(e);
        },
    };
    let ghost tk = tree_root_key@;
    let ghost cs = pieces(encrypted_data@, chunk_sizes@);
    let ghost os = original_sizes(chunk_sizes@);
    let engine = ChunkEngine::new(0, CipherType::ChaCha20Poly1305);
    let encrypted_chunks = split_by_sizes(encrypted_data, chunk_sizes);
    let mut out: Vec<u8> = Vec::new();
    let mut i: usize = 0;
    while i < chunk_sizes.len()
        invariant
            i <= chunk_sizes@.len(),
            views(encrypted_chunks@) == cs,
            cs == pieces(encrypted_data@, chunk_sizes@),
            cs.len() == chunk_sizes@.len(),
            os == original_sizes(chunk_sizes@),
            tree_root_key@ == tk,
            engine.cipher_type() == CipherType::ChaCha20Poly1305,
            decapsulate_result(*capsule, secret_key@, dg),
            dg matches Ok((mk, _)) && hkdf_sha3_256_okm32(mk@, tree_root_label()) == tk,
            forall|j: int| 0 <= j < i ==> #[trigger] open_single(tk, file_nonce@, cs[j], os[j]) is Some,
            out@ == flatten(opened_singly(tk, file_nonce@, cs, os, i as int)),
        decreases chunk_sizes@.len() - i,
    {
        let size = (chunk_sizes[i] as usize).saturating_sub(16);
        assert(size == os[i as int]);
        assert(encrypted_chunks@[i as int]@ == cs[i as int]);
        let one: Vec<Vec<u8>> = vec![bytes_to_vec(encrypted_chunks[i].as_slice())];
        let one_size: Vec<usize> = vec![size];
        let pr = engine.decrypt_chunks(one.as_slice(), &tree_root_key, file_nonce, one_size.as_slice());
        match pr {
            Ok(pts) => {
                assert(crate::chunk::chunk_open_at(CipherType::ChaCha20Poly1305, tk, file_nonce@, one@, one_size@, 0) == Some(pts@[0]@));
                let ghost before = out@;
                append_bytes(&mut out, pts[0].as_slice());
                proof {
                    let n = i as int + 1;
                    assert(opened_singly(tk, file_nonce@, cs, os, n).drop_last() =~= opened_singly(tk, file_nonce@, cs, os, i as int));
                    assert(out@ =~= flatten(opened_singly(tk, file_nonce@, cs, os, n)));
                }
            },
            Err(e) => {
                let r = Err(e);
                proof {
                    assert(crate::chunk::chunk_open_at(CipherType::ChaCha20Poly1305, tk, file_nonce@, one@, one_size@, 0) is None);
                    assert(open_single(tk, file_nonce@, cs[i as int], os[i as int]) is None);
                    assert(e is AuthFailed);
                    assert(!(forall|j: int| 0 <= j < cs.len() ==> #[trigger] open_single(tk, file_nonce@, cs[j], os[j]) is Some));
                    assert(gui_opened_via(*capsule, secret_key@, file_nonce@, chunk_sizes@, encrypted_data@, r, dg));
                }
                return r;
            },
        }
        i = i + 1;
    }
    let r = Ok(out);
    assert(gui_opened_via(*capsule, secret_key@, file_nonce@, chunk_sizes@, encrypted_data@, r, dg));
    r
}

/// Open a file sealed by `seal_embedded`: the secret key comes from the embedded key, or
/// else from the key file, unlocked with the password when it is protected; then the file
/// is opened chunk by chunk.
pub fn open_embedded(f: &GuiSealedFile, key_file: Option<Vec<u8>>, password: Option<String>) -> (r: Result<Vec<u8>, Error>)
    requires
        spec_resolved_key(opt_bytes(f.embedded_key), opt_bytes(key_file), string_password(password)) matches Some(k)
            ==> can_open(f.capsule, k, f.chunk_sizes@, f.encrypted_data@),
    ensures
        gui_open_result(*f, opt_bytes(key_file), string_password(password), r),
{
    let ghost kf = opt_bytes(key_file);
    let secret_key = match resolve_secret_key(&f.embedded_key, key_file, &password) {
        Ok(k) => k,
        Err(e) => {
            return Err(e);
        },
    };
    open_singly(&f.capsule, secret_key.as_slice(), &f.file_nonce, f.chunk_sizes.as_slice(), f.encrypted_data.as_slice())
}

/// Open a file sealed by `seal_embedded` when the secret key found is one ML-KEM accepts,
/// the capsule's ciphertext has the right size and the chunk sizes stay within the data;
/// `None` otherwise.
pub fn open_embedded_checked(f: &GuiSealedFile, key_file: Option<Vec<u8>>, password: Option<String>) -> (r: Option<
    Result<Vec<u8>, Error>,
>)
    ensures
        r is None <==> (spec_resolved_key(opt_bytes(f.embedded_key), opt_bytes(key_file), string_password(password)) matches Some(k)
            && !can_open(f.capsule, k, f.chunk_sizes@, f.encrypted_data@)),
        r matches Some(res) ==> gui_open_result(*f, opt_bytes(key_file), string_password(password), res),
{
    let secret_key = match resolve_secret_key(&f.embedded_key, key_file, &password) {
        Ok(k) => k,
        Err(e) => {
            return Some(Err(e));
        },
    };
    if !check_can_open(&f.capsule, secret_key.as_slice(), f.chunk_sizes.as_slice(), f.encrypted_data.as_slice()) {
        return None;
    }
    Some(open_singly(&f.capsule, secret_key.as_slice(), &f.file_nonce, f.chunk_sizes.as_slice(), f.encrypted_data.as_slice()))
}

/// Law: opening what `seal_embedded` produced gives back the data, with the embedded key
/// when it was embedded (else with the key file it produced) and the same password.
/// Provided ML-KEM decapsulation with the secret key recovers the shared secret of an
/// encapsulation to its public key, every encrypted chunk's size fits in 32 bits, and,
/// without a password, the raw secret key does not begin with the protection marker.
pub proof fn lemma_gui_roundtrip(
    data: Seq<u8>,
    chunk_size: usize,
    password: Option<Seq<u8>>,
    embed: bool,
    f: GuiSealedFile,
    sk: Seq<u8>,
    pk: Seq<u8>,
    mk: Seq<u8>,
    cts: Seq<Vec<u8>>,
    key_file: Option<Seq<u8>>,
    r: Result<Vec<u8>, Error>,
)
    requires
        chunk_size > 0,
        chunk_size + 16 <= u32::MAX,
        gui_file_sealed(data, chunk_size, password, embed, f, sk, pk, mk, cts),
        kem_recovers(sk, pk),
        embed || key_file == Some(f.key_data@),
        password is None ==> !spec_is_protected(sk),
        gui_open_result(f, key_file, password, r),
    ensures
        r matches Ok(v) && v@ == data,
{
    let chunks = spec_split(data, chunk_size as int);
    let tk = hkdf_sha3_256_okm32(mk, tree_root_label());
    let nonce = f.file_nonce@;
    let kd = f.key_data@;
    // The secret key is found again.
    match password {
        Some(pw) => {
            lemma_key_file_roundtrip(pw, sk, kd);
        },
        None => {},
    }
    assert(spec_resolved_key(opt_bytes(f.embedded_key), key_file, password) == Some(sk));
    // The capsule gives back the master key.
    let d = choose|d: Result<(MasterKey, [u8; 32]), Error>|
        #[trigger] gui_opened_via(f.capsule, sk, nonce, f.chunk_sizes@, f.encrypted_data@, r, d);
    let m = choose|m: [u8; 32]|
        #[trigger] mlkem768_encaps_det(pk, m).1 == f.capsule.capsule.public_ring@ && capsule_for(
            f.capsule,
            pk,
            mk,
            hkdf_sha3_256_okm32(mk, mask_label()),
            mlkem768_encaps_det(pk, m).0,
        );
    let ss = mlkem768_encaps_det(pk, m).0;
    lemma_capsule_roundtrip(f.capsule, pk, sk, mk, hkdf_sha3_256_okm32(mk, mask_label()), ss, d);
    let mk2 = d->Ok_0.0;
    assert(mk2@ == mk);
    // The encrypted chunks are cut back out of the data.
    assert forall|i: int| 0 <= i < views(cts).len() implies #[trigger] views(cts)[i].len() <= u32::MAX by {
        lemma_split_piece_len(data, chunk_size as int, i);
        assert(chunk_sealed(CipherType::ChaCha20Poly1305, tk, nonce, 0, chunks[i], cts[i]));
    }
    lemma_pieces_flatten(views(cts));
    let cs = pieces(f.encrypted_data@, f.chunk_sizes@);
    let os = original_sizes(f.chunk_sizes@);
    assert(cs == views(cts));
    assert forall|i: int| 0 <= i < cs.len() implies #[trigger] open_single(tk, nonce, cs[i], os[i]) == Some(chunks[i]) by {
        lemma_split_piece_len(data, chunk_size as int, i);
        assert(chunk_sealed(CipherType::ChaCha20Poly1305, tk, nonce, 0, chunks[i], cts[i]));
        assert(cs[i] == cts[i]@);
        assert(f.chunk_sizes@[i] == cts[i]@.len() as u32);
        assert(os[i] == chunks[i].len());
    }
    assert(opened_singly(tk, nonce, cs, os, cs.len() as int) =~= chunks) by {
        assert forall|i: int| 0 <= i < chunks.len() implies #[trigger] opened_singly(tk, nonce, cs, os, cs.len() as int)[i] == chunks[i] by {
            assert(open_single(tk, nonce, cs[i], os[i]) == Some(chunks[i]));
        }
    }
    lemma_flatten_split(data, chunk_size as int);
}

} // verus!
