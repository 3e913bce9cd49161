// Lazy loading of large files: the chunk offset table and a bounded chunk cache.
use vstd::prelude::*;
use std::collections::HashMap;
use vstd::std_specs::iter::IteratorSpec;
use crate::base::error::Error;

verus! {

broadcast use vstd::std_specs::hash::group_hash_axioms;

/// Number of chunks of `chunk_size` bytes that cover `file_size` bytes.
pub open spec fn chunk_count(file_size: int, chunk_size: int) -> int {
    (file_size + chunk_size - 1) / chunk_size
}

/// Where each chunk of a file starts: chunk `i` at `i * chunk_size`.
pub struct ChunkTable {
    chunk_size: usize,
    total_chunks: u64,
    chunk_offsets: Vec<u64>,
}

impl ChunkTable {
    /// One offset per chunk.
    pub closed spec fn wf(&self) -> bool {
        &&& self.chunk_offsets@.len() == self.total_chunks
        &&& forall|i: int|
            0 <= i < self.total_chunks ==> #[trigger] self.chunk_offsets@[i] == i * self.chunk_size
    }

    pub closed spec fn spec_chunk_size(&self) -> usize {
        self.chunk_size
    }

    pub closed spec fn spec_total_chunks(&self) -> u64 {
        self.total_chunks
    }

    /// Build the offset table of a file of `file_size` bytes.
    pub fn new(file_size: u64, chunk_size: usize) -> (t: Self)
        requires
            chunk_size > 0,
            file_size + chunk_size <= u64::MAX,
            chunk_count(file_size as int, chunk_size as int) <= usize::MAX,
        ensures
            t.wf(),
            t.spec_chunk_size() == chunk_size,
            t.spec_total_chunks() == chunk_count(file_size as int, chunk_size as int),
    {
        let cs = chunk_size as u64;
        let total_chunks = (file_size + cs - 1) / cs;
        let mut chunk_offsets: Vec<u64> = Vec::new();
        let mut i: u64 = 0;
        proof {
            assert(total_chunks * cs <= file_size + cs - 1) by (nonlinear_arith)
                requires
                    total_chunks == (file_size + cs - 1) / (cs as int),
                    cs > 0,
            ;
        }
        while i < total_chunks
            invariant
                i <= total_chunks,
                cs == chunk_size,
                cs > 0,
                total_chunks * cs <= u64::MAX,
                chunk_offsets@.len() == i,
                forall|j: int| 0 <= j < i ==> #[trigger] chunk_offsets@[j] == j * chunk_size,
            decreases total_chunks - i,
        {
            proof {
                assert(i * cs <= total_chunks * cs) by (nonlinear_arith)
                    requires
                        i <= total_chunks,
                ;
            }
            chunk_offsets.push(i * cs);
            i = i + 1;
        }
        Self { chunk_size, total_chunks, chunk_offsets }
    }

    /// Where chunk `chunk_id` starts; `InvalidInput` when there is no such chunk.
    pub fn offset(&self, chunk_id: u64) -> (r: Result<u64, Error>)
        requires
            self.wf(),
        ensures
            chunk_id >= self.spec_total_chunks() ==> r matches Err(Error::InvalidInput(_)),
            chunk_id < self.spec_total_chunks() ==> r == Ok::<u64, Error>(
                (chunk_id * self.spec_chunk_size()) as u64,
            ),
    {
        if chunk_id >= self.total_chunks {
            return Err(Error::InvalidInput("Chunk ID out of range".to_owned()));
        }
        let n = self.chunk_offsets.len();
        assert(chunk_id < n);
        let off = self.chunk_offsets[chunk_id as usize];
        assert(off == self.chunk_offsets@[chunk_id as int]);
        Ok(off)
    }

    pub fn total_chunks(&self) -> (n: u64)
        ensures
            n == self.spec_total_chunks(),
    {
        self.total_chunks
    }

    pub fn chunk_size(&self) -> (n: usize)
        ensures
            n == self.spec_chunk_size(),
    {
        self.chunk_size
    }
}

/// A cache of chunk contents by chunk id, holding at most `max_size` chunks (one when
/// `max_size` is 0).
pub struct ChunkCache {
    cache: HashMap<u64, Vec<u8>>,
    max_size: usize,
}

/// The most chunks a cache of capacity `max_size` holds.
pub open spec fn cache_bound(max_size: usize) -> int {
    if max_size == 0 {
        1
    } else {
        max_size as int
    }
}

impl View for ChunkCache {
    type V = Map<u64, Vec<u8>>;

    closed spec fn view(&self) -> Map<u64, Vec<u8>> {
        self.cache@
    }
}

impl ChunkCache {
    /// The capacity it was made with.
    pub closed spec fn capacity(&self) -> usize {
        self.max_size
    }

    /// The cache holds no more chunks than its capacity allows.
    pub closed spec fn wf(&self) -> bool {
        self.cache@.len() <= cache_bound(self.max_size)
    }

    pub fn new(max_size: usize) -> (c: Self)
        ensures
            c.wf(),
            c@ == Map::<u64, Vec<u8>>::empty(),
            c.capacity() == max_size,
    {
        Self { cache: HashMap::new(), max_size }
    }

    /// The cached contents of chunk `chunk_id`, if any.
    pub fn get(&self, chunk_id: u64) -> (r: Option<&Vec<u8>>)
        ensures
            r is Some <==> self@.contains_key(chunk_id),
            r matches Some(v) ==> *v == self@[chunk_id],
    {
        self.cache.get(&chunk_id)
    }

    /// Cache `data` as chunk `chunk_id`; a full cache first drops one of its chunks,
    /// whichever the map yields first.
    pub fn insert(&mut self, chunk_id: u64, data: Vec<u8>)
        requires
            old(self).wf(),
        ensures
            final(self).wf(),
            final(self).capacity() == old(self).capacity(),
            old(self)@.len() < old(self).capacity() ==> final(self)@ == old(self)@.insert(chunk_id, data),
            old(self)@.len() >= old(self).capacity() ==> (old(self)@.len() == 0 && final(self)@ == old(
                self,
            )@.insert(chunk_id, data)) || exists|k: u64|
                old(self)@.contains_key(k) && final(self)@ == #[trigger] old(self)@.remove(k).insert(
                    chunk_id,
                    data,
                ),
    {
        let ghost before = self.cache@;
        if self.cache.len() >= self.max_size {
            let mut first: Option<u64> = None;
            for k in it: self.cache.keys()
                invariant
                    self.cache@ == before,
                    first matches Some(f) ==> before.dom().contains(f),
                    it.index() > 0 ==> first is Some,
            {
                if first.is_none() {
                    first = Some(*k);
                }
            }
            match first {
                Some(key) => {
                    self.cache.remove(&key);
                    self.cache.insert(chunk_id, data);
                    assert(self.cache@ == before.remove(key).insert(chunk_id, data));
                },
                None => {
                    self.cache.insert(chunk_id, data);
                },
            }
        } else {
            self.cache.insert(chunk_id, data);
        }
    }

    /// Drop every cached chunk.
    pub fn clear(&mut self)
        ensures
            final(self)@ == Map::<u64, Vec<u8>>::empty(),
            final(self).capacity() == old(self).capacity(),
            final(self).wf(),
    {
        self.cache.clear();
    }

    /// Number of cached chunks.
    pub fn len(&self) -> (n: usize)
        ensures
            n == self@.len(),
    {
        self.cache.len()
    }
}

/// Law: whatever is inserted, a cache never holds more chunks than its capacity (one
/// for capacity 0).
pub proof fn lemma_cache_bounded(c: ChunkCache)
    requires
        c.wf(),
    ensures
        c@.len() <= cache_bound(c.capacity()),
{
}

} // verus!
