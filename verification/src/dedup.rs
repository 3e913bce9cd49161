// Content-defined chunking and a reference-counted index of chunks by hash.
use vstd::prelude::*;
use crate::base::digest::bytes32_eq;

verus! {

/// One step of the polynomial rolling hash: `h * 31 + byte`, wrapping at 2^64.
pub open spec fn roll(h: u64, byte: u8) -> u64 {
    vstd::wrapping::u64_specs::wrapping_add(vstd::wrapping::u64_specs::wrapping_mul(h, 31), byte as u64)
}

/// Modulus of the fingerprint.
pub open spec fn fingerprint_modulus() -> u64 {
    0xFFFF_FFFF
}

/// The fingerprint of `data`: the rolling hash reduced modulo `0xFFFFFFFF` after
/// every byte.
pub open spec fn spec_fingerprint(data: Seq<u8>) -> u64
    decreases data.len(),
{
    if data.len() == 0 {
        0
    } else {
        (roll(spec_fingerprint(data.drop_last()), data.last()) % fingerprint_modulus()) as u64
    }
}

/// Mask of the low 13 bits of the rolling hash (boundaries every ~8 KiB on average).
pub open spec fn boundary_mask() -> u64 {
    0x1FFF
}

/// Rolling hash and boundaries after scanning the first `n` bytes of `data`: a byte
/// at `i` starts a boundary when the hash's low 13 bits are zero, or when it lies
/// `max_gap` or more bytes past the last boundary.
pub open spec fn scan(data: Seq<u8>, max_gap: int, n: nat) -> (u64, Seq<usize>)
    decreases n,
{
    if n == 0 {
        (0, seq![0usize])
    } else {
        let prev = scan(data, max_gap, (n - 1) as nat);
        let i = n - 1;
        let h = roll(prev.0, data[i]);
        if (h & boundary_mask()) == 0 || i - prev.1.last() >= max_gap {
            (h, prev.1.push(i as usize))
        } else {
            (h, prev.1)
        }
    }
}

/// The boundaries of `data`: those of the scan, closed by the length of the data.
pub open spec fn spec_boundaries(data: Seq<u8>, avg_size: int) -> Seq<usize> {
    let b = scan(data, 2 * avg_size, data.len()).1;
    if b.last() != data.len() {
        b.push(data.len() as usize)
    } else {
        b
    }
}

/// The polynomial rolling hash of `s` taken modulo 2^64: each byte adds to 31 times the
/// hash of the bytes before it.
pub open spec fn rolling_hash(s: Seq<u8>) -> nat
    decreases s.len(),
{
    if s.len() == 0 {
        0
    } else {
        ((31 * rolling_hash(s.drop_last()) + s.last()) % 0x1_0000_0000_0000_0000int) as nat
    }
}

/// The hash the scan holds after `n` bytes is the rolling hash of those bytes.
proof fn lemma_scan_hash(data: Seq<u8>, max_gap: int, n: nat)
    requires
        n <= data.len(),
    ensures
        scan(data, max_gap, n).0 as nat == rolling_hash(data.take(n as int)),
    decreases n,
{
    if n > 0 {
        lemma_scan_hash(data, max_gap, (n - 1) as nat);
        let h = scan(data, max_gap, (n - 1) as nat).0;
        let b = data[n - 1];
        assert(data.take(n as int).drop_last() =~= data.take(n - 1));
        let m = 0x1_0000_0000_0000_0000int;
        let p = (h as int * 31) % m;
        assert(vstd::wrapping::u64_specs::wrapping_mul(h, 31) as int == p);
        vstd::arithmetic::div_mod::lemma_add_mod_noop(h as int * 31, b as int, m);
        vstd::arithmetic::div_mod::lemma_mod_bound(h as int * 31, m);
        vstd::arithmetic::div_mod::lemma_mod_twice(p + b as int, m);
        if p + b as int >= m {
            vstd::arithmetic::div_mod::lemma_fundamental_div_mod_converse(p + b as int, m, 1, p + b as int - m);
        } else {
            vstd::arithmetic::div_mod::lemma_small_mod((p + b as int) as nat, m as nat);
        }
        assert(roll(h, b) as int == (31 * h as int + b as int) % m);
    }
}

/// The low 13 bits of a word are zero exactly when it is a multiple of 8192.
proof fn lemma_mask_is_mod(h: u64)
    ensures
        ((h & boundary_mask()) == 0) == (h % 8192 == 0),
{
    assert(((h & 0x1FFFu64) == 0) == (h % 8192 == 0)) by (bit_vector);
}

/// What the scan keeps after `n` bytes: its boundaries start at 0, never decrease and
/// stay below `n` after the first; each later boundary is a byte where the rolling hash
/// is a multiple of 8192 or one `max_gap` or more past the previous boundary; two
/// boundaries, and the last boundary and `n`, are at most `max(max_gap, 1)` apart; and
/// every byte below `n` where the rolling hash is a multiple of 8192 is a boundary.
proof fn lemma_scan_shape(data: Seq<u8>, max_gap: int, n: nat)
    requires
        n <= data.len(),
        data.len() <= usize::MAX,
        max_gap >= 0,
    ensures
        ({
            let s = scan(data, max_gap, n).1;
            let g = if max_gap == 0 { 1 } else { max_gap };
            &&& s.len() >= 1
            &&& s[0] == 0
            &&& s.last() <= n
            &&& forall|k: int| 1 <= k < s.len() ==> s[k - 1] <= #[trigger] s[k] < n
            &&& forall|k: int|
                1 <= k < s.len() ==> rolling_hash(data.take(#[trigger] s[k] + 1)) % 8192 == 0 || s[k] - s[k - 1]
                    >= max_gap
            &&& forall|k: int| 1 <= k < s.len() ==> #[trigger] s[k] - s[k - 1] <= g
            &&& n - s.last() <= g
            &&& forall|i: int| 0 <= i < n && rolling_hash(#[trigger] data.take(i + 1)) % 8192 == 0 ==> s.contains(i as usize)
        }),
    decreases n,
{
    if n > 0 {
        let i = n - 1;
        lemma_scan_shape(data, max_gap, i as nat);
        lemma_scan_hash(data, max_gap, n);
        let prev = scan(data, max_gap, i as nat);
        let s = scan(data, max_gap, n).1;
        let h = roll(prev.0, data[i]);
        lemma_mask_is_mod(h);
        assert(h as nat == rolling_hash(data.take(i + 1)));
        if (h & boundary_mask()) == 0 || i - prev.1.last() >= max_gap {
            assert(s == prev.1.push(i as usize));
            assert forall|j: int| 0 <= j < n && rolling_hash(#[trigger] data.take(j + 1)) % 8192 == 0 implies s.contains(
                j as usize,
            ) by {
                if j < i {
                    let k = choose|k: int| 0 <= k < prev.1.len() && prev.1[k] == j as usize;
                    assert(s[k] == j as usize);
                } else {
                    assert(s[s.len() - 1] == j as usize);
                }
            }
        } else {
            assert(s == prev.1);
            assert forall|j: int| 0 <= j < n && rolling_hash(#[trigger] data.take(j + 1)) % 8192 == 0 implies s.contains(
                j as usize,
            ) by {
                if j == i {
                    assert(h % 8192 == 0);
                }
            }
        }
    }
}

/// Law: content-defined chunking. The boundaries start at 0, end at the length of the
/// data and never decrease; every byte where the rolling hash of the data up to and
/// including it is a multiple of 8192 (low 13 bits zero) is a boundary; every boundary
/// in between is such a byte or lies at least `2 * avg_size` past the previous one;
/// and no two boundaries are more than `max(2 * avg_size, 1)` apart.
pub proof fn lemma_boundaries_content_defined(data: Seq<u8>, avg_size: int)
    requires
        data.len() <= usize::MAX,
        avg_size >= 0,
    ensures
        ({
            let b = spec_boundaries(data, avg_size);
            let g = if avg_size == 0 { 1 } else { 2 * avg_size };
            &&& b.len() >= 1
            &&& b[0] == 0
            &&& b.last() == data.len()
            &&& forall|k: int| 1 <= k < b.len() ==> b[k - 1] <= #[trigger] b[k] <= data.len()
            &&& forall|i: int| 0 <= i < data.len() && rolling_hash(#[trigger] data.take(i + 1)) % 8192 == 0 ==> b.contains(i as usize)
            &&& forall|k: int|
                1 <= k < b.len() && b[k] < data.len() ==> rolling_hash(data.take(#[trigger] b[k] + 1)) % 8192 == 0
                    || b[k] - b[k - 1] >= 2 * avg_size
            &&& forall|k: int| 1 <= k < b.len() ==> #[trigger] b[k] - b[k - 1] <= g
        }),
{
    let n = data.len();
    lemma_scan_shape(data, 2 * avg_size, n);
    let s = scan(data, 2 * avg_size, n).1;
    let b = spec_boundaries(data, avg_size);
    if s.last() != n {
        assert(b == s.push(n as usize));
        assert forall|i: int| 0 <= i < data.len() && rolling_hash(#[trigger] data.take(i + 1)) % 8192 == 0 implies b.contains(
            i as usize,
        ) by {
            let k = choose|k: int| 0 <= k < s.len() && s[k] == i as usize;
            assert(b[k] == i as usize);
        }
        assert forall|k: int| 1 <= k < b.len() implies b[k - 1] <= #[trigger] b[k] <= data.len() by {
            if k < s.len() {
                assert(b[k] == s[k] && b[k - 1] == s[k - 1]);
            } else {
                assert(b[k - 1] == s.last());
            }
        }
        assert forall|k: int| 1 <= k < b.len() implies #[trigger] b[k] - b[k - 1] <= (if avg_size == 0 { 1 } else { 2 * avg_size }) by {
            if k < s.len() {
                assert(b[k] == s[k] && b[k - 1] == s[k - 1]);
            } else {
                assert(b[k - 1] == s.last());
            }
        }
        assert forall|k: int|
            1 <= k < b.len() && b[k] < data.len() implies rolling_hash(data.take(#[trigger] b[k] + 1)) % 8192 == 0 || b[k]
            - b[k - 1] >= 2 * avg_size by {
            assert(k < s.len());
            assert(b[k] == s[k] && b[k - 1] == s[k - 1]);
        }
    } else {
        assert(b == s);
    }
}

/// Rolling hash for content-defined chunking.
pub struct RollingHash {
    window_size: usize,
    modulus: u64,
}

impl RollingHash {
    pub fn new(window_size: usize) -> (r: Self)
        ensures
            r.wf(),
            r.window() == window_size,
    {
        Self { window_size, modulus: 0xFFFF_FFFF }
    }

    /// The modulus is the fingerprint's.
    pub closed spec fn wf(&self) -> bool {
        self.modulus == fingerprint_modulus()
    }

    /// The window size it was made with.
    pub closed spec fn window(&self) -> usize {
        self.window_size
    }

    /// Rabin fingerprint for deduplication.
    pub fn fingerprint(&self, data: &[u8]) -> (fp: u64)
        requires
            self.wf(),
        ensures
            fp == spec_fingerprint(data@),
            fp < fingerprint_modulus(),
    {
        let mut hash: u64 = 0;
        let mut i: usize = 0;
        while i < data.len()
            invariant
                self.wf(),
                i <= data@.len(),
                hash == spec_fingerprint(data@.take(i as int)),
                hash < fingerprint_modulus(),
            decreases data@.len() - i,
        {
            assert(data@.take(i as int + 1).drop_last() =~= data@.take(i as int));
            hash = hash.wrapping_mul(31).wrapping_add(data[i] as u64);
            hash = hash % self.modulus;
            i = i + 1;
        }
        assert(data@.take(data@.len() as int) =~= data@);
        hash
    }

    /// Find chunk boundaries using rolling hash.
    pub fn find_boundaries(&self, data: &[u8], avg_size: usize) -> (b: Vec<usize>)
        requires
            2 * avg_size <= usize::MAX,
        ensures
            b@ == spec_boundaries(data@, avg_size as int),
            b@.len() >= 1 && b@[0] == 0 && b@.last() == data@.len(),
            forall|i: int|
                0 <= i < data@.len() && rolling_hash(#[trigger] data@.take(i + 1)) % 8192 == 0 ==> b@.contains(i as usize),
    {
        assert(data@.len() == data.len());
        proof {
            lemma_boundaries_content_defined(data@, avg_size as int);
        }
        let mut boundaries: Vec<usize> = Vec::new();
        boundaries.push(0);
        let mask: u64 = 0x1FFF;
        let max_gap = avg_size * 2;
        let mut hash: u64 = 0;
        let mut i: usize = 0;
        while i < data.len()
            invariant
                i <= data@.len(),
                max_gap == 2 * avg_size,
                mask == boundary_mask(),
                (hash, boundaries@) == scan(data@, max_gap as int, i as nat),
                boundaries@.len() > 0,
                boundaries@.last() <= i,
            decreases data@.len() - i,
        {
            hash = hash.wrapping_mul(31).wrapping_add(data[i] as u64);
            let last = boundaries[boundaries.len() - 1];
            if (hash & mask) == 0 || i - last >= max_gap {
                boundaries.push(i);
            }
            i = i + 1;
        }
        if boundaries[boundaries.len() - 1] != data.len() {
            boundaries.push(data.len());
        }
        boundaries
    }
}

/// Chunk reference for deduplication.
#[derive(Debug, Clone, Copy)]
pub struct ChunkRef {
    pub hash: [u8; 32],
    pub chunk_id: u64,
    pub ref_count: u32,
    pub size: u32,
}

/// Entry `i` of `s` holds the hash `k`.
pub open spec fn key_at(s: Seq<ChunkRef>, k: Seq<u8>, i: int) -> bool {
    0 <= i < s.len() && s[i].hash@ == k
}

/// The chunks of `s` by hash.
pub open spec fn refs_view(s: Seq<ChunkRef>) -> Map<Seq<u8>, ChunkRef> {
    Map::new(|k: Seq<u8>| exists|i: int| key_at(s, k, i), |k: Seq<u8>| s[choose|i: int| key_at(s, k, i)])
}

/// No two entries of `s` hold the same hash.
pub open spec fn unique_hashes(s: Seq<ChunkRef>) -> bool {
    forall|i: int, j: int| 0 <= i < s.len() && 0 <= j < s.len() && #[trigger] s[i].hash@ == #[trigger] s[j].hash@ ==> i == j
}

/// Sum of the reference counts of `s`.
pub open spec fn sum_refs(s: Seq<ChunkRef>) -> int
    decreases s.len(),
{
    if s.len() == 0 {
        0
    } else {
        sum_refs(s.drop_last()) + s.last().ref_count
    }
}

/// Sum of the sizes of `s`.
pub open spec fn sum_sizes(s: Seq<ChunkRef>) -> int
    decreases s.len(),
{
    if s.len() == 0 {
        0
    } else {
        sum_sizes(s.drop_last()) + s.last().size
    }
}

proof fn lemma_view_at(s: Seq<ChunkRef>, i: int)
    requires
        unique_hashes(s),
        0 <= i < s.len(),
    ensures
        refs_view(s).dom().contains(s[i].hash@),
        refs_view(s)[s[i].hash@] == s[i],
{
    let k = s[i].hash@;
    assert(key_at(s, k, i));
    let j = choose|j: int| key_at(s, k, j);
    assert(key_at(s, k, j));
    assert(s[j].hash@ == s[i].hash@);
}

proof fn lemma_view_absent(s: Seq<ChunkRef>, k: Seq<u8>)
    requires
        forall|i: int| 0 <= i < s.len() ==> s[i].hash@ != k,
    ensures
        !refs_view(s).dom().contains(k),
{
}

proof fn lemma_sum_update(s: Seq<ChunkRef>, i: int, c: ChunkRef)
    requires
        0 <= i < s.len(),
    ensures
        sum_refs(s.update(i, c)) == sum_refs(s) - s[i].ref_count + c.ref_count,
        sum_sizes(s.update(i, c)) == sum_sizes(s) - s[i].size + c.size,
    decreases s.len(),
{
    let t = s.update(i, c);
    if i == s.len() - 1 {
        assert(t.drop_last() =~= s.drop_last());
    } else {
        lemma_sum_update(s.drop_last(), i, c);
        assert(t.drop_last() =~= s.drop_last().update(i, c));
    }
}

proof fn lemma_sum_remove(s: Seq<ChunkRef>, i: int)
    requires
        0 <= i < s.len(),
    ensures
        sum_refs(s.remove(i)) == sum_refs(s) - s[i].ref_count,
        sum_sizes(s.remove(i)) == sum_sizes(s) - s[i].size,
    decreases s.len(),
{
    let t = s.remove(i);
    if i == s.len() - 1 {
        assert(t =~= s.drop_last());
    } else {
        lemma_sum_remove(s.drop_last(), i);
        assert(t.drop_last() =~= s.drop_last().remove(i));
    }
}

proof fn lemma_sum_push(s: Seq<ChunkRef>, c: ChunkRef)
    ensures
        sum_refs(s.push(c)) == sum_refs(s) + c.ref_count,
        sum_sizes(s.push(c)) == sum_sizes(s) + c.size,
{
    assert(s.push(c).drop_last() =~= s);
}

proof fn lemma_sum_sizes_bound(s: Seq<ChunkRef>)
    ensures
        0 <= sum_sizes(s) <= s.len() * 0xFFFF_FFFF,
        0 <= sum_refs(s),
    decreases s.len(),
{
    if s.len() > 0 {
        lemma_sum_sizes_bound(s.drop_last());
    }
}

/// The number of keys of the view is the number of entries.
proof fn lemma_view_len(s: Seq<ChunkRef>)
    requires
        unique_hashes(s),
    ensures
        refs_view(s).dom().len() == s.len(),
        refs_view(s).dom().finite(),
{
    let keys = s.map_values(|c: ChunkRef| c.hash@);
    assert(keys.no_duplicates()) by {
        assert forall|i: int, j: int| 0 <= i < keys.len() && 0 <= j < keys.len() && i != j implies keys[i]
            != keys[j] by {
            assert(keys[i] == s[i].hash@);
            assert(keys[j] == s[j].hash@);
        }
    }
    keys.unique_seq_to_set();
    assert(refs_view(s).dom() =~= keys.to_set()) by {
        assert forall|k: Seq<u8>| refs_view(s).dom().contains(k) implies keys.to_set().contains(k) by {
            let i = choose|i: int| key_at(s, k, i);
            assert(keys[i] == k);
        }
        assert forall|k: Seq<u8>| keys.to_set().contains(k) implies refs_view(s).dom().contains(k) by {
            let i = choose|i: int| 0 <= i < keys.len() && keys[i] == k;
            assert(key_at(s, k, i));
        }
    }
}

/// The chunks after inserting `hash`: one more reference to a known hash, or a new
/// entry with id `next` and one reference.
pub open spec fn inserted(m: Map<Seq<u8>, ChunkRef>, hash: [u8; 32], size: u32, next: u64) -> Map<Seq<u8>, ChunkRef> {
    if m.dom().contains(hash@) {
        m.insert(hash@, ChunkRef { ref_count: (m[hash@].ref_count + 1) as u32, ..m[hash@] })
    } else {
        m.insert(hash@, ChunkRef { hash, chunk_id: next, ref_count: 1, size })
    }
}

/// The chunks after dropping a reference to `hash`: an entry that had one reference
/// goes; an unknown hash changes nothing.
pub open spec fn decremented(m: Map<Seq<u8>, ChunkRef>, hash: Seq<u8>) -> Map<Seq<u8>, ChunkRef> {
    if !m.dom().contains(hash) {
        m
    } else if m[hash].ref_count <= 1 {
        m.remove(hash)
    } else {
        m.insert(hash, ChunkRef { ref_count: (m[hash].ref_count - 1) as u32, ..m[hash] })
    }
}

/// Law: dropping a reference right after adding one gives back the index's chunks, for
/// a new hash and a known one alike.
pub proof fn lemma_decrement_undoes_insert(m: Map<Seq<u8>, ChunkRef>, hash: [u8; 32], size: u32, next: u64)
    requires
        forall|k: Seq<u8>| #[trigger] m.dom().contains(k) ==> m[k].ref_count >= 1,
        m.dom().contains(hash@) ==> m[hash@].ref_count < u32::MAX,
    ensures
        decremented(inserted(m, hash, size, next), hash@) == m,
{
    if m.dom().contains(hash@) {
        assert(decremented(inserted(m, hash, size, next), hash@) =~= m);
    } else {
        assert(decremented(inserted(m, hash, size, next), hash@) =~= m);
    }
}

/// Deduplication index.
#[derive(Debug, Clone)]
pub struct DedupIndex {
    chunks: Vec<ChunkRef>,
    next_chunk_id: u64,
}

impl View for DedupIndex {
    type V = Map<Seq<u8>, ChunkRef>;

    /// The chunks by hash.
    closed spec fn view(&self) -> Map<Seq<u8>, ChunkRef> {
        refs_view(self.chunks@)
    }
}

impl DedupIndex {
    /// Every hash once, every entry under its own hash with at least one reference,
    /// distinct ids below the next one.
    pub closed spec fn wf(&self) -> bool {
        &&& unique_hashes(self.chunks@)
        &&& forall|i: int|
            0 <= i < self.chunks@.len() ==> #[trigger] self.chunks@[i].ref_count >= 1
                && self.chunks@[i].chunk_id < self.next_chunk_id
        &&& forall|i: int, j: int|
            0 <= i < self.chunks@.len() && 0 <= j < self.chunks@.len() && #[trigger] self.chunks@[i].chunk_id
                == #[trigger] self.chunks@[j].chunk_id ==> i == j
    }

    /// The id the next new chunk gets.
    pub closed spec fn next_id(&self) -> u64 {
        self.next_chunk_id
    }

    /// Sum of all reference counts.
    pub closed spec fn spec_total_references(&self) -> int {
        sum_refs(self.chunks@)
    }

    /// Sum of all chunk sizes.
    pub closed spec fn spec_total_size(&self) -> int {
        sum_sizes(self.chunks@)
    }

    pub fn new() -> (d: Self)
        ensures
            d.wf(),
            d@ == Map::<Seq<u8>, ChunkRef>::empty(),
            d.next_id() == 0,
            d.spec_total_references() == 0,
            d.spec_total_size() == 0,
    {
        let d = Self { chunks: Vec::new(), next_chunk_id: 0 };
        assert(d@ =~= Map::<Seq<u8>, ChunkRef>::empty());
        d
    }

    /// The position of `hash` in the entries, if any.
    fn find(&self, hash: &[u8; 32]) -> (r: Option<usize>)
        requires
            self.wf(),
        ensures
            r matches Some(i) ==> i < self.chunks@.len() && self.chunks@[i as int].hash@ == hash@,
            r is None ==> forall|i: int| 0 <= i < self.chunks@.len() ==> self.chunks@[i].hash@ != hash@,
    {
        let mut i: usize = 0;
        while i < self.chunks.len()
            invariant
                i <= self.chunks@.len(),
                forall|j: int| 0 <= j < i ==> self.chunks@[j].hash@ != hash@,
            decreases self.chunks@.len() - i,
        {
            if bytes32_eq(&self.chunks[i].hash, hash) {
                return Some(i);
            }
            i = i + 1;
        }
        None
    }

    /// Check if chunk exists and return reference.
    pub fn lookup(&self, hash: &[u8; 32]) -> (r: Option<&ChunkRef>)
        requires
            self.wf(),
        ensures
            r is Some <==> self@.dom().contains(hash@),
            r matches Some(c) ==> *c == self@[hash@],
    {
        match self.find(hash) {
            Some(i) => {
                proof {
                    lemma_view_at(self.chunks@, i as int);
                }
                Some(&self.chunks[i])
            },
            None => {
                proof {
                    lemma_view_absent(self.chunks@, hash@);
                }
                None
            },
        }
    }

    /// Add chunk to index or increment reference count.
    pub fn insert(&mut self, hash: [u8; 32], size: u32) -> (id: u64)
        requires
            old(self).wf(),
            old(self)@.dom().contains(hash@) ==> old(self)@[hash@].ref_count < u32::MAX,
            !old(self)@.dom().contains(hash@) ==> old(self).next_id() < u64::MAX,
        ensures
            final(self).wf(),
            final(self)@ == inserted(old(self)@, hash, size, old(self).next_id()),
            old(self)@.dom().contains(hash@) ==> {
                &&& id == old(self)@[hash@].chunk_id
                &&& final(self)@ == old(self)@.insert(
                    hash@,
                    ChunkRef { ref_count: (old(self)@[hash@].ref_count + 1) as u32, ..old(self)@[hash@] },
                )
                &&& final(self).next_id() == old(self).next_id()
                &&& final(self).spec_total_size() == old(self).spec_total_size()
            },
            !old(self)@.dom().contains(hash@) ==> {
                &&& id == old(self).next_id()
                &&& final(self)@ == old(self)@.insert(hash@, ChunkRef { hash, chunk_id: id, ref_count: 1, size })
                &&& final(self).next_id() == old(self).next_id() + 1
                &&& final(self).spec_total_size() == old(self).spec_total_size() + size
            },
            final(self).spec_total_references() == old(self).spec_total_references() + 1,
    {
        let ghost s = self.chunks@;
        match self.find(&hash) {
            Some(i) => {
                proof {
                    lemma_view_at(s, i as int);
                }
                let old_ref = self.chunks[i];
                let updated = ChunkRef { ref_count: old_ref.ref_count + 1, ..old_ref };
                self.chunks.set(i, updated);
                proof {
                    let t = self.chunks@;
                    assert(t == s.update(i as int, updated));
                    lemma_sum_update(s, i as int, updated);
                    assert forall|a: int, b: int|
                        0 <= a < t.len() && 0 <= b < t.len() && #[trigger] t[a].hash@ == #[trigger] t[b].hash@ implies a
                        == b by {
                        assert(s[a].hash@ == t[a].hash@);
                        assert(s[b].hash@ == t[b].hash@);
                    }
                    assert forall|a: int, b: int|
                        0 <= a < t.len() && 0 <= b < t.len() && #[trigger] t[a].chunk_id == #[trigger] t[b].chunk_id implies a
                        == b by {
                        assert(s[a].chunk_id == t[a].chunk_id);
                        assert(s[b].chunk_id == t[b].chunk_id);
                    }
                    assert forall|a: int| 0 <= a < t.len() implies #[trigger] t[a].ref_count >= 1 && t[a].chunk_id
                        < self.next_chunk_id by {
                        assert(s[a].ref_count >= 1);
                    }
                    assert(refs_view(t) =~= refs_view(s).insert(hash@, updated)) by {
                        assert forall|k: Seq<u8>| #[trigger] refs_view(t).dom().contains(k) == refs_view(
                            s,
                        ).insert(hash@, updated).dom().contains(k) by {
                            if refs_view(t).dom().contains(k) {
                                let a = choose|a: int| key_at(t, k, a);
                                assert(key_at(s, k, a));
                            }
                            if refs_view(s).dom().contains(k) {
                                let a = choose|a: int| key_at(s, k, a);
                                assert(key_at(t, k, a));
                            }
                            if k == hash@ {
                                assert(key_at(t, k, i as int));
                            }
                        }
                        assert forall|k: Seq<u8>| #[trigger] refs_view(t).dom().contains(k) implies refs_view(t)[k]
                            == refs_view(s).insert(hash@, updated)[k] by {
                            let a = choose|a: int| key_at(t, k, a);
                            assert(key_at(t, k, a));
                            lemma_view_at(t, a);
                            if a == i as int {
                            } else {
                                assert(key_at(s, k, a));
                                lemma_view_at(s, a);
                            }
                        }
                    }
                }
                old_ref.chunk_id
            },
            None => {
                proof {
                    lemma_view_absent(s, hash@);
                }
                let chunk_id = self.next_chunk_id;
                let entry = ChunkRef { hash, chunk_id, ref_count: 1, size };
                self.chunks.push(entry);
                self.next_chunk_id = self.next_chunk_id + 1;
                proof {
                    let t = self.chunks@;
                    assert(t == s.push(entry));
                    lemma_sum_push(s, entry);
                    assert forall|a: int, b: int|
                        0 <= a < t.len() && 0 <= b < t.len() && #[trigger] t[a].hash@ == #[trigger] t[b].hash@ implies a
                        == b by {
                        if a < s.len() && b < s.len() {
                            assert(s[a].hash@ == t[a].hash@);
                            assert(s[b].hash@ == t[b].hash@);
                        } else if a < s.len() {
                            assert(s[a].hash@ == t[a].hash@);
                        } else if b < s.len() {
                            assert(s[b].hash@ == t[b].hash@);
                        }
                    }
                    assert forall|a: int, b: int|
                        0 <= a < t.len() && 0 <= b < t.len() && #[trigger] t[a].chunk_id == #[trigger] t[b].chunk_id implies a
                        == b by {
                        if a < s.len() {
                            assert(s[a].chunk_id == t[a].chunk_id);
                            assert(s[a].ref_count >= 1);
                        }
                        if b < s.len() {
                            assert(s[b].chunk_id == t[b].chunk_id);
                            assert(s[b].ref_count >= 1);
                        }
                    }
                    assert forall|a: int| 0 <= a < t.len() implies #[trigger] t[a].ref_count >= 1 && t[a].chunk_id
                        < self.next_chunk_id by {
                        if a < s.len() {
                            assert(s[a].ref_count >= 1);
                        }
                    }
                    assert(refs_view(t) =~= refs_view(s).insert(hash@, entry)) by {
                        assert forall|k: Seq<u8>| #[trigger] refs_view(t).dom().contains(k) == refs_view(
                            s,
                        ).insert(hash@, entry).dom().contains(k) by {
                            if refs_view(t).dom().contains(k) {
                                let a = choose|a: int| key_at(t, k, a);
                                if a < s.len() {
                                    assert(key_at(s, k, a));
                                }
                            }
                            if refs_view(s).dom().contains(k) {
                                let a = choose|a: int| key_at(s, k, a);
                                assert(key_at(t, k, a));
                            }
                            if k == hash@ {
                                assert(key_at(t, k, s.len() as int));
                            }
                        }
                        assert forall|k: Seq<u8>| #[trigger] refs_view(t).dom().contains(k) implies refs_view(t)[k]
                            == refs_view(s).insert(hash@, entry)[k] by {
                            let a = choose|a: int| key_at(t, k, a);
                            assert(key_at(t, k, a));
                            lemma_view_at(t, a);
                            if a < s.len() {
                                assert(key_at(s, k, a));
                                lemma_view_at(s, a);
                            }
                        }
                    }
                }
                chunk_id
            },
        }
    }

    /// Decrement reference count; `true` when the chunk lost its last reference and was
    /// removed.
    pub fn decrement_ref(&mut self, hash: &[u8; 32]) -> (deleted: bool)
        requires
            old(self).wf(),
        ensures
            final(self).wf(),
            final(self)@ == decremented(old(self)@, hash@),
            final(self).next_id() == old(self).next_id(),
            !old(self)@.dom().contains(hash@) ==> !deleted && final(self)@ == old(self)@
                && final(self).spec_total_references() == old(self).spec_total_references()
                && final(self).spec_total_size() == old(self).spec_total_size(),
            old(self)@.dom().contains(hash@) ==> {
                &&& deleted == (old(self)@[hash@].ref_count == 1)
                &&& deleted ==> final(self)@ == old(self)@.remove(hash@)
                    && final(self).spec_total_size() == old(self).spec_total_size() - old(self)@[hash@].size
                &&& !deleted ==> final(self)@ == old(self)@.insert(
                    hash@,
                    ChunkRef { ref_count: (old(self)@[hash@].ref_count - 1) as u32, ..old(self)@[hash@] },
                ) && final(self).spec_total_size() == old(self).spec_total_size()
                &&& final(self).spec_total_references() == old(self).spec_total_references() - 1
            },
    {
        let ghost s = self.chunks@;
        match self.find(hash) {
            Some(i) => {
                proof {
                    lemma_view_at(s, i as int);
                }
                let old_ref = self.chunks[i];
                let count = old_ref.ref_count.saturating_sub(1);
                if count == 0 {
                    self.chunks.remove(i);
                    proof {
                        let t = self.chunks@;
                        assert(t == s.remove(i as int));
                        lemma_sum_remove(s, i as int);
                        assert forall|a: int| 0 <= a < t.len() implies (a < i ==> t[a] == s[a]) && (a >= i ==> t[a]
                            == s[a + 1]) by {}
                        assert forall|a: int, b: int|
                            0 <= a < t.len() && 0 <= b < t.len() && #[trigger] t[a].hash@ == #[trigger] t[b].hash@ implies a
                            == b by {
                            let a1 = if a < i { a } else { a + 1 };
                            let b1 = if b < i { b } else { b + 1 };
                            assert(s[a1].hash@ == t[a].hash@);
                            assert(s[b1].hash@ == t[b].hash@);
                        }
                        assert forall|a: int, b: int|
                            0 <= a < t.len() && 0 <= b < t.len() && #[trigger] t[a].chunk_id == #[trigger] t[b].chunk_id implies a
                            == b by {
                            let a1 = if a < i { a } else { a + 1 };
                            let b1 = if b < i { b } else { b + 1 };
                            assert(s[a1].chunk_id == t[a].chunk_id);
                            assert(s[b1].chunk_id == t[b].chunk_id);
                        }
                        assert forall|a: int| 0 <= a < t.len() implies #[trigger] t[a].ref_count >= 1 && t[a].chunk_id
                            < self.next_chunk_id by {
                            let a1 = if a < i { a } else { a + 1 };
                            assert(s[a1].ref_count >= 1);
                        }
                        assert(refs_view(t) =~= refs_view(s).remove(hash@)) by {
                            assert forall|k: Seq<u8>| #[trigger] refs_view(t).dom().contains(k) == refs_view(
                                s,
                            ).remove(hash@).dom().contains(k) by {
                                if refs_view(t).dom().contains(k) {
                                    let a = choose|a: int| key_at(t, k, a);
                                    let a1 = if a < i { a } else { a + 1 };
                                    assert(key_at(s, k, a1));
                                }
                                if refs_view(s).dom().contains(k) && k != hash@ {
                                    let a = choose|a: int| key_at(s, k, a);
                                    assert(a != i as int);
                                    let a2 = if a < i { a } else { a - 1 };
                                    assert(key_at(t, k, a2));
                                }
                            }
                            assert forall|k: Seq<u8>| #[trigger] refs_view(t).dom().contains(k) implies refs_view(t)[k]
                                == refs_view(s).remove(hash@)[k] by {
                                let a = choose|a: int| key_at(t, k, a);
                                assert(key_at(t, k, a));
                                lemma_view_at(t, a);
                                let a1 = if a < i { a } else { a + 1 };
                                assert(key_at(s, k, a1));
                                lemma_view_at(s, a1);
                            }
                        }
                    }
                    true
                } else {
                    let updated = ChunkRef { ref_count: count, ..old_ref };
                    self.chunks.set(i, updated);
                    proof {
                        let t = self.chunks@;
                        assert(t == s.update(i as int, updated));
                        lemma_sum_update(s, i as int, updated);
                        assert forall|a: int, b: int|
                            0 <= a < t.len() && 0 <= b < t.len() && #[trigger] t[a].hash@ == #[trigger] t[b].hash@ implies a
                            == b by {
                            assert(s[a].hash@ == t[a].hash@);
                            assert(s[b].hash@ == t[b].hash@);
                        }
                        assert forall|a: int, b: int|
                            0 <= a < t.len() && 0 <= b < t.len() && #[trigger] t[a].chunk_id == #[trigger] t[b].chunk_id implies a
                            == b by {
                            assert(s[a].chunk_id == t[a].chunk_id);
                            assert(s[b].chunk_id == t[b].chunk_id);
                        }
                        assert forall|a: int| 0 <= a < t.len() implies #[trigger] t[a].ref_count >= 1 && t[a].chunk_id
                            < self.next_chunk_id by {
                            assert(s[a].ref_count >= 1);
                        }
                        assert(refs_view(t) =~= refs_view(s).insert(hash@, updated)) by {
                            assert forall|k: Seq<u8>| #[trigger] refs_view(t).dom().contains(k) == refs_view(
                                s,
                            ).insert(hash@, updated).dom().contains(k) by {
                                if refs_view(t).dom().contains(k) {
                                    let a = choose|a: int| key_at(t, k, a);
                                    assert(key_at(s, k, a));
                                }
                                if refs_view(s).dom().contains(k) {
                                    let a = choose|a: int| key_at(s, k, a);
                                    assert(key_at(t, k, a));
                                }
                                if k == hash@ {
                                    assert(key_at(t, k, i as int));
                                }
                            }
                            assert forall|k: Seq<u8>| #[trigger] refs_view(t).dom().contains(k) implies refs_view(t)[k]
                                == refs_view(s).insert(hash@, updated)[k] by {
                                let a = choose|a: int| key_at(t, k, a);
                                assert(key_at(t, k, a));
                                lemma_view_at(t, a);
                                if a == i as int {
                                } else {
                                    assert(key_at(s, k, a));
                                    lemma_view_at(s, a);
                                }
                            }
                        }
                    }
                    false
                }
            },
            None => {
                proof {
                    lemma_view_absent(s, hash@);
                }
                false
            },
        }
    }

    /// Get total number of unique chunks.
    pub fn unique_chunks(&self) -> (n: usize)
        requires
            self.wf(),
        ensures
            n == self@.len(),
    {
        proof {
            lemma_view_len(self.chunks@);
        }
        self.chunks.len()
    }

    /// Get total reference count.
    pub fn total_references(&self) -> (n: u32)
        requires
            self.wf(),
            self.spec_total_references() <= u32::MAX,
        ensures
            n == self.spec_total_references(),
    {
        let mut total: u32 = 0;
        let mut i: usize = 0;
        while i < self.chunks.len()
            invariant
                i <= self.chunks@.len(),
                sum_refs(self.chunks@) <= u32::MAX,
                total == sum_refs(self.chunks@.take(i as int)),
            decreases self.chunks@.len() - i,
        {
            proof {
                assert(self.chunks@.take(i as int + 1).drop_last() =~= self.chunks@.take(i as int));
                lemma_sum_prefix(self.chunks@, i as int + 1);
            }
            total = total + self.chunks[i].ref_count;
            i = i + 1;
        }
        assert(self.chunks@.take(self.chunks@.len() as int) =~= self.chunks@);
        total
    }

    /// Total size of the unique chunks.
    pub fn total_size(&self) -> (n: u64)
        requires
            self.wf(),
            self.spec_total_size() <= u64::MAX,
        ensures
            n == self.spec_total_size(),
    {
        let mut total: u64 = 0;
        let mut i: usize = 0;
        while i < self.chunks.len()
            invariant
                i <= self.chunks@.len(),
                sum_sizes(self.chunks@) <= u64::MAX,
                total == sum_sizes(self.chunks@.take(i as int)),
            decreases self.chunks@.len() - i,
        {
            proof {
                assert(self.chunks@.take(i as int + 1).drop_last() =~= self.chunks@.take(i as int));
                lemma_sum_prefix(self.chunks@, i as int + 1);
            }
            total = total + self.chunks[i].size as u64;
            i = i + 1;
        }
        assert(self.chunks@.take(self.chunks@.len() as int) =~= self.chunks@);
        total
    }
}

/// The sums of a prefix are at most those of the whole.
proof fn lemma_sum_prefix(s: Seq<ChunkRef>, n: int)
    requires
        0 <= n <= s.len(),
    ensures
        sum_refs(s.take(n)) <= sum_refs(s),
        sum_sizes(s.take(n)) <= sum_sizes(s),
    decreases s.len(),
{
    if n < s.len() {
        lemma_sum_prefix(s.drop_last(), n);
        assert(s.drop_last().take(n) =~= s.take(n));
        lemma_sum_sizes_bound(s.take(n));
    } else {
        assert(s.take(n) =~= s);
    }
}

impl Default for DedupIndex {
    fn default() -> (d: Self)
        ensures
            d.wf(),
            d@ == Map::<Seq<u8>, ChunkRef>::empty(),
            d.next_id() == 0,
    {
        Self::new()
    }
}

/// A call on the index: `insert` of a hash and size, or `decrement_ref` of a hash.
#[derive(Debug, Clone, Copy)]
pub enum DedupOp {
    Insert { hash: [u8; 32], size: u32 },
    Decrement { hash: [u8; 32] },
}

/// The chunks and the next id after one call, as `insert` and `decrement_ref` state it.
pub open spec fn apply_op(m: Map<Seq<u8>, ChunkRef>, next: u64, op: DedupOp) -> (Map<Seq<u8>, ChunkRef>, u64) {
    match op {
        DedupOp::Insert { hash, size } => (
            inserted(m, hash, size, next),
            if m.dom().contains(hash@) {
                next
            } else {
                (next + 1) as u64
            },
        ),
        DedupOp::Decrement { hash } => (decremented(m, hash@), next),
    }
}

/// The chunks and the next id after a sequence of calls on a new index.
pub open spec fn apply_ops(ops: Seq<DedupOp>) -> (Map<Seq<u8>, ChunkRef>, u64)
    decreases ops.len(),
{
    if ops.len() == 0 {
        (Map::empty(), 0)
    } else {
        let (m, next) = apply_ops(ops.drop_last());
        apply_op(m, next, ops.last())
    }
}

/// The invariant of the index's chunks: each is kept under its own hash with at least
/// one reference, ids are below the next one and belong to one chunk each.
pub open spec fn index_inv(m: Map<Seq<u8>, ChunkRef>, next: u64) -> bool {
    &&& forall|k: Seq<u8>| #[trigger] m.dom().contains(k) ==> m[k].hash@ == k && m[k].ref_count >= 1 && m[k].chunk_id < next
    &&& forall|k1: Seq<u8>, k2: Seq<u8>|
        #[trigger] m.dom().contains(k1) && #[trigger] m.dom().contains(k2) && m[k1].chunk_id == m[k2].chunk_id ==> k1 == k2
}

/// Law: after any sequence of fewer than 2^32 - 1 calls of `insert` and `decrement_ref`
/// on a new index, the invariant holds, no count overflows (every reference count and the
/// next id are at most the number of calls), and a chunk added anew gets an id no chunk
/// present has.
pub proof fn lemma_ops_keep_invariant(ops: Seq<DedupOp>)
    requires
        ops.len() < u32::MAX,
    ensures
        index_inv(apply_ops(ops).0, apply_ops(ops).1),
        apply_ops(ops).1 <= ops.len(),
        forall|k: Seq<u8>| #[trigger] apply_ops(ops).0.dom().contains(k) ==> apply_ops(ops).0[k].ref_count <= ops.len(),
    decreases ops.len(),
{
    if ops.len() > 0 {
        let prev = ops.drop_last();
        lemma_ops_keep_invariant(prev);
        let (m, next) = apply_ops(prev);
        let (m2, next2) = apply_ops(ops);
        assert((m2, next2) == apply_op(m, next, ops.last()));
        match ops.last() {
            DedupOp::Insert { hash, size } => {
                if m.dom().contains(hash@) {
                    assert(m[hash@].ref_count <= prev.len());
                    assert forall|k1: Seq<u8>, k2: Seq<u8>|
                        #[trigger] m2.dom().contains(k1) && #[trigger] m2.dom().contains(k2) && m2[k1].chunk_id
                            == m2[k2].chunk_id implies k1 == k2 by {
                        assert(m.dom().contains(k1) && m.dom().contains(k2));
                    }
                } else {
                    assert forall|k1: Seq<u8>, k2: Seq<u8>|
                        #[trigger] m2.dom().contains(k1) && #[trigger] m2.dom().contains(k2) && m2[k1].chunk_id
                            == m2[k2].chunk_id implies k1 == k2 by {
                        if k1 != hash@ && k2 != hash@ {
                            assert(m.dom().contains(k1) && m.dom().contains(k2));
                        } else if k1 != hash@ {
                            assert(m.dom().contains(k1));
                        } else if k2 != hash@ {
                            assert(m.dom().contains(k2));
                        }
                    }
                }
            },
            DedupOp::Decrement { hash } => {
                assert forall|k1: Seq<u8>, k2: Seq<u8>|
                    #[trigger] m2.dom().contains(k1) && #[trigger] m2.dom().contains(k2) && m2[k1].chunk_id
                        == m2[k2].chunk_id implies k1 == k2 by {
                    assert(m.dom().contains(k1) && m.dom().contains(k2));
                }
            },
        }
    }
}

/// The index's own well-formedness gives the invariant of its chunks.
pub proof fn lemma_wf_index_inv(d: DedupIndex)
    requires
        d.wf(),
    ensures
        index_inv(d@, d.next_id()),
{
    let s = d.chunks@;
    assert forall|k: Seq<u8>| #[trigger] d@.dom().contains(k) implies d@[k].hash@ == k && d@[k].ref_count >= 1
        && d@[k].chunk_id < d.next_id() by {
        let a = choose|a: int| key_at(s, k, a);
        lemma_view_at(s, a);
    }
    assert forall|k1: Seq<u8>, k2: Seq<u8>|
        #[trigger] d@.dom().contains(k1) && #[trigger] d@.dom().contains(k2) && d@[k1].chunk_id == d@[k2].chunk_id implies k1
        == k2 by {
        let a = choose|a: int| key_at(s, k1, a);
        let b = choose|b: int| key_at(s, k2, b);
        lemma_view_at(s, a);
        lemma_view_at(s, b);
    }
}

/// The change that one call makes to the total of the reference counts: one more for
/// `insert`, one less for `decrement_ref` of a present hash.
pub open spec fn refs_delta(m: Map<Seq<u8>, ChunkRef>, op: DedupOp) -> int {
    match op {
        DedupOp::Insert { .. } => 1,
        DedupOp::Decrement { hash } => if m.dom().contains(hash@) {
            -1
        } else {
            0
        },
    }
}

/// The change that one call makes to the total size of the chunks: the size of a new
/// chunk, minus the size of a chunk that lost its last reference.
pub open spec fn size_delta(m: Map<Seq<u8>, ChunkRef>, op: DedupOp) -> int {
    match op {
        DedupOp::Insert { hash, size } => if m.dom().contains(hash@) {
            0
        } else {
            size as int
        },
        DedupOp::Decrement { hash } => if m.dom().contains(hash@) && m[hash@].ref_count <= 1 {
            -(m[hash@].size as int)
        } else {
            0
        },
    }
}

/// The total of the reference counts after a sequence of calls on a new index.
pub open spec fn refs_after(ops: Seq<DedupOp>) -> int
    decreases ops.len(),
{
    if ops.len() == 0 {
        0
    } else {
        refs_after(ops.drop_last()) + refs_delta(apply_ops(ops.drop_last()).0, ops.last())
    }
}

/// The total size of the chunks after a sequence of calls on a new index.
pub open spec fn size_after(ops: Seq<DedupOp>) -> int
    decreases ops.len(),
{
    if ops.len() == 0 {
        0
    } else {
        size_after(ops.drop_last()) + size_delta(apply_ops(ops.drop_last()).0, ops.last())
    }
}

/// One call as `insert` and `decrement_ref` state it: the chunks, the next id, the total
/// of the reference counts and the total size change as the call says.
pub open spec fn call_step(before: DedupIndex, after: DedupIndex, op: DedupOp) -> bool {
    &&& (after@, after.next_id()) == apply_op(before@, before.next_id(), op)
    &&& after.spec_total_references() == before.spec_total_references() + refs_delta(before@, op)
    &&& after.spec_total_size() == before.spec_total_size() + size_delta(before@, op)
}

/// Law: along any run of calls on a new index, the index holds the chunks and next id
/// of `apply_ops`, its total reference count is the number of `insert` calls less the
/// number of `decrement_ref` calls on a present hash, and its total size is the sizes of
/// the chunks added anew less those of the chunks removed.
pub proof fn lemma_run_totals(states: Seq<DedupIndex>, ops: Seq<DedupOp>)
    requires
        states.len() == ops.len() + 1,
        states[0]@ == Map::<Seq<u8>, ChunkRef>::empty(),
        states[0].next_id() == 0,
        states[0].spec_total_references() == 0,
        states[0].spec_total_size() == 0,
        forall|k: int| 0 <= k < ops.len() ==> #[trigger] call_step(states[k], states[k + 1], ops[k]),
    ensures
        (states.last()@, states.last().next_id()) == apply_ops(ops),
        states.last().spec_total_references() == refs_after(ops),
        states.last().spec_total_size() == size_after(ops),
    decreases ops.len(),
{
    if ops.len() > 0 {
        let n = ops.len() as int;
        let prev_states = states.drop_last();
        let prev_ops = ops.drop_last();
        assert forall|k: int| 0 <= k < prev_ops.len() implies #[trigger] call_step(
            prev_states[k],
            prev_states[k + 1],
            prev_ops[k],
        ) by {
            assert(call_step(states[k], states[k + 1], ops[k]));
        }
        lemma_run_totals(prev_states, prev_ops);
        assert(call_step(states[n - 1], states[n], ops[n - 1]));
        assert(prev_states.last() == states[n - 1]);
    }
}

} // verus!
