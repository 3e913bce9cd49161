// Simple single-file container: header, capsule, chunk sizes and encrypted chunks.
use vstd::prelude::*;
use crate::base::error::Error;
use crate::base::bytes::append_bytes;
use crate::chunk::flatten;

verus! {

/// The magic bytes `CLLXFS01`.
pub open spec fn simple_magic() -> Seq<u8> {
    seq![67u8, 76, 76, 88, 70, 83, 48, 49]
}

/// Simple container format: [Header][Capsule][Chunk Sizes][Encrypted Chunks]. The
/// capsule is held serialized.
#[derive(Debug, Clone)]
pub struct SimpleContainer {
    /// `CLLXFS01`.
    pub magic: [u8; 8],
    pub version: u32,
    /// Chunk size in bytes.
    pub chunk_size: u32,
    pub total_chunks: u32,
    /// File nonce for encryption.
    pub file_nonce: [u8; 12],
    /// Size of the serialized capsule.
    pub capsule_size: u32,
    pub capsule_data: Vec<u8>,
    /// Size of each encrypted chunk (including its AEAD tag).
    pub chunk_sizes: Vec<u32>,
    /// All encrypted chunks concatenated.
    pub encrypted_data: Vec<u8>,
    /// Original file name with extension.
    pub original_filename: Option<String>,
    /// Optional embedded secret key (convenience mode).
    pub embedded_key: Option<Vec<u8>>,
}

impl SimpleContainer {
    pub const MAGIC: [u8; 8] = [67u8, 76, 76, 88, 70, 83, 48, 49];

    /// A version-1 container around a serialized capsule.
    pub fn new(
        chunk_size: u32,
        total_chunks: u32,
        file_nonce: [u8; 12],
        capsule_data: Vec<u8>,
        chunk_sizes: Vec<u32>,
        encrypted_data: Vec<u8>,
        original_filename: Option<String>,
        embedded_key: Option<Vec<u8>>,
    ) -> (r: Result<Self, Error>)
        ensures
            r matches Ok(c) && c.magic@ == simple_magic() && c.version == 1 && c.chunk_size == chunk_size
                && c.total_chunks == total_chunks && c.file_nonce == file_nonce && c.capsule_size
                == capsule_data@.len() as u32 && c.capsule_data@ == capsule_data@ && c.chunk_sizes@ == chunk_sizes@
                && c.encrypted_data@ == encrypted_data@ && c.original_filename == original_filename
                && c.embedded_key == embedded_key,
    {
        let magic: [u8; 8] = [67u8, 76, 76, 88, 70, 83, 48, 49];
        assert(magic@ =~= simple_magic());
        let capsule_size = capsule_data.len() as u32;
        Ok(Self {
            magic,
            version: 1,
            chunk_size,
            total_chunks,
            file_nonce,
            capsule_size,
            capsule_data,
            chunk_sizes,
            encrypted_data,
            original_filename,
            embedded_key,
        })
    }

    /// A container read back from its serialized form is accepted only with the right
    /// magic.
    pub fn validate(self) -> (r: Result<Self, Error>)
        ensures
            self.magic@ == simple_magic() ==> r == Ok::<Self, Error>(self),
            self.magic@ != simple_magic() ==> r matches Err(Error::InvalidFormat),
    {
        let mut i: usize = 0;
        while i < 8
            invariant
                i <= 8,
                forall|k: int| 0 <= k < i ==> self.magic@[k] == simple_magic()[k],
            decreases 8 - i,
        {
            let expected: [u8; 8] = [67u8, 76, 76, 88, 70, 83, 48, 49];
            assert(expected@ =~= simple_magic());
            if self.magic[i] != expected[i] {
                return Err(Error::InvalidFormat);
            }
            i = i + 1;
        }
        assert(self.magic@ =~= simple_magic());
        Ok(self)
    }
}

/// The views of a list of byte vectors.
pub open spec fn views(v: Seq<Vec<u8>>) -> Seq<Seq<u8>> {
    v.map_values(|c: Vec<u8>| c@)
}

/// The lengths of a list of byte strings, truncated to 32 bits.
pub open spec fn lens(v: Seq<Seq<u8>>) -> Seq<u32> {
    v.map_values(|c: Seq<u8>| c.len() as u32)
}

/// Sum of the first `n` sizes.
pub open spec fn size_prefix(sizes: Seq<u32>, n: int) -> int
    decreases n,
{
    if n <= 0 {
        0
    } else {
        size_prefix(sizes, n - 1) + sizes[n - 1]
    }
}

/// The pieces of `data` of the given sizes, one after the other from the start.
pub open spec fn pieces(data: Seq<u8>, sizes: Seq<u32>) -> Seq<Seq<u8>> {
    Seq::new(sizes.len(), |i: int| data.subrange(size_prefix(sizes, i), size_prefix(sizes, i) + sizes[i]))
}

/// All chunks one after the other, with the size of each.
pub fn concat_chunks(chunks: &[Vec<u8>]) -> (r: (Vec<u8>, Vec<u32>))
    ensures
        r.0@ == flatten(views(chunks@)),
        r.1@ == lens(views(chunks@)),
{
    let mut data: Vec<u8> = Vec::new();
    let mut sizes: Vec<u32> = Vec::new();
    let mut i: usize = 0;
    while i < chunks.len()
        invariant
            i <= chunks@.len(),
            data@ == flatten(views(chunks@).take(i as int)),
            sizes@ == lens(views(chunks@).take(i as int)),
        decreases chunks@.len() - i,
    {
        assert(views(chunks@).take(i as int + 1).drop_last() =~= views(chunks@).take(i as int));
        sizes.push(chunks[i].len() as u32);
        append_bytes(&mut data, chunks[i].as_slice());
        assert(sizes@ =~= lens(views(chunks@).take(i as int + 1)));
        i = i + 1;
    }
    assert(views(chunks@).take(chunks@.len() as int) =~= views(chunks@));
    (data, sizes)
}

proof fn lemma_size_prefix_mono(sizes: Seq<u32>, a: int, b: int)
    requires
        0 <= a <= b <= sizes.len(),
    ensures
        0 <= size_prefix(sizes, a) <= size_prefix(sizes, b),
    decreases b,
{
    if b > a {
        lemma_size_prefix_mono(sizes, a, b - 1);
    } else if b > 0 {
        lemma_size_prefix_mono(sizes, a - 1, b - 1);
    }
}

/// Cut `data` into pieces of the given sizes.
pub fn split_by_sizes(data: &[u8], sizes: &[u32]) -> (r: Vec<Vec<u8>>)
    requires
        size_prefix(sizes@, sizes@.len() as int) <= data@.len(),
    ensures
        views(r@) == pieces(data@, sizes@),
{
    let mut out: Vec<Vec<u8>> = Vec::new();
    let mut offset: usize = 0;
    let mut i: usize = 0;
    let n = data.len();
    while i < sizes.len()
        invariant
            n == data@.len(),
            i <= sizes@.len(),
            size_prefix(sizes@, sizes@.len() as int) <= data@.len(),
            offset == size_prefix(sizes@, i as int),
            views(out@) == pieces(data@, sizes@).take(i as int),
        decreases sizes@.len() - i,
    {
        proof {
            lemma_size_prefix_mono(sizes@, i as int + 1, sizes@.len() as int);
            lemma_size_prefix_mono(sizes@, 0, i as int);
        }
        assert(size_prefix(sizes@, i as int + 1) == offset + sizes@[i as int]);
        let end = offset + sizes[i] as usize;
        let piece = vstd::slice::slice_subrange(data, offset, end);
        let mut v: Vec<u8> = Vec::new();
        append_bytes(&mut v, piece);
        let ghost before = out@;
        out.push(v);
        assert(views(out@) =~= views(before).push(v@));
        assert(pieces(data@, sizes@).take(i as int + 1) =~= pieces(data@, sizes@).take(i as int).push(pieces(data@, sizes@)[i as int]));
        assert(views(out@) =~= pieces(data@, sizes@).take(i as int + 1));
        offset = end;
        i = i + 1;
    }
    assert(pieces(data@, sizes@).take(sizes@.len() as int) =~= pieces(data@, sizes@));
    out
}

proof fn lemma_flatten_take(cts: Seq<Seq<u8>>, k: int)
    requires
        0 <= k < cts.len(),
    ensures
        flatten(cts.take(k + 1)) == flatten(cts.take(k)) + cts[k],
{
    assert(cts.take(k + 1).drop_last() =~= cts.take(k));
}

proof fn lemma_flatten_prefix(cts: Seq<Seq<u8>>, k: int)
    requires
        0 <= k <= cts.len(),
    ensures
        flatten(cts.take(k)).len() <= flatten(cts).len(),
        flatten(cts).subrange(0, flatten(cts.take(k)).len() as int) == flatten(cts.take(k)),
    decreases cts.len() - k,
{
    if k == cts.len() {
        assert(cts.take(k) =~= cts);
        assert(flatten(cts).subrange(0, flatten(cts).len() as int) =~= flatten(cts));
    } else {
        lemma_flatten_prefix(cts, k + 1);
        lemma_flatten_take(cts, k);
        let a = flatten(cts.take(k));
        let b = flatten(cts.take(k + 1));
        assert(b.subrange(0, a.len() as int) =~= a);
        assert(flatten(cts).subrange(0, a.len() as int) =~= b.subrange(0, a.len() as int));
    }
}

proof fn lemma_prefix_is_flatten_len(cts: Seq<Seq<u8>>, k: int)
    requires
        0 <= k <= cts.len(),
        forall|i: int| 0 <= i < cts.len() ==> #[trigger] cts[i].len() <= u32::MAX,
    ensures
        size_prefix(lens(cts), k) == flatten(cts.take(k)).len(),
    decreases k,
{
    if k == 0 {
        assert(cts.take(0) =~= Seq::<Seq<u8>>::empty());
    } else {
        lemma_prefix_is_flatten_len(cts, k - 1);
        lemma_flatten_take(cts, k - 1);
        assert(lens(cts)[k - 1] == cts[k - 1].len());
    }
}

/// Law: cutting the concatenation of chunks by their sizes gives the chunks back, when
/// every chunk's size fits in 32 bits.
pub proof fn lemma_pieces_flatten(cts: Seq<Seq<u8>>)
    requires
        forall|i: int| 0 <= i < cts.len() ==> #[trigger] cts[i].len() <= u32::MAX,
    ensures
        size_prefix(lens(cts), cts.len() as int) == flatten(cts).len(),
        pieces(flatten(cts), lens(cts)) == cts,
{
    lemma_prefix_is_flatten_len(cts, cts.len() as int);
    assert(cts.take(cts.len() as int) =~= cts);
    assert forall|i: int| 0 <= i < cts.len() implies #[trigger] pieces(flatten(cts), lens(cts))[i] == cts[i] by {
        lemma_prefix_is_flatten_len(cts, i);
        lemma_flatten_take(cts, i);
        lemma_flatten_prefix(cts, i + 1);
        let a = flatten(cts.take(i));
        let b = flatten(cts.take(i + 1));
        assert(lens(cts)[i] == cts[i].len());
        assert(b.subrange(a.len() as int, b.len() as int) =~= cts[i]);
        assert(flatten(cts).subrange(a.len() as int, b.len() as int) =~= b.subrange(a.len() as int, b.len() as int));
    }
    assert(pieces(flatten(cts), lens(cts)) =~= cts);
}

} // verus!
