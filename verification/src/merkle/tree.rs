use vstd::prelude::*;
use crate::base::digest::{blake3_hash, blake3_digest, bytes32_eq, blake3_collision};
use super::{hashes_view, parent, pairs, parent_level, hash_pair};

verus! {

/// The level above `l`.
pub open spec fn next_level(l: Seq<Seq<u8>>) -> Seq<Seq<u8>> {
    pairs(l, l.len() as int)
}

/// All nodes of the tree over the level `l`: `l` followed by the levels above it, up
/// to the level with a single node (the root).
pub open spec fn tree_nodes(l: Seq<Seq<u8>>) -> Seq<Seq<u8>>
    decreases l.len(),
{
    if l.len() <= 1 {
        l
    } else {
        l + tree_nodes(next_level(l))
    }
}

/// Number of levels above `l`.
pub open spec fn tree_height(l: Seq<Seq<u8>>) -> nat
    decreases l.len(),
{
    if l.len() <= 1 {
        0
    } else {
        1 + tree_height(next_level(l))
    }
}

/// The root of the tree over leaves `h` (all zeros for no leaves).
pub open spec fn spec_root(h: Seq<Seq<u8>>) -> Seq<u8> {
    if h.len() == 0 {
        Seq::new(32, |i: int| 0u8)
    } else {
        tree_nodes(h).last()
    }
}

/// Index of the node paired with node `index` in a level of `level_size` nodes (the node
/// itself when it is the odd last one).
pub open spec fn sibling_pos(level_size: int, index: int) -> int {
    let sib = if index % 2 == 0 {
        index + 1
    } else {
        index - 1
    };
    if sib < level_size {
        sib
    } else {
        index
    }
}

/// Walking up from node `index` of the level that starts at `level_start` in an array of
/// `nodes_len` nodes reads only nodes inside the array (and no counter overflows).
pub open spec fn proof_walk_ok(nodes_len: int, level_start: int, level_size: int, index: int) -> bool
    decreases level_size,
{
    if level_size <= 1 {
        true
    } else {
        &&& level_start + sibling_pos(level_size, index) < nodes_len
        &&& level_start + level_size <= usize::MAX
        &&& level_size < usize::MAX
        &&& proof_walk_ok(nodes_len, level_start + level_size, (level_size + 1) / 2, index / 2)
    }
}

/// The siblings read on the walk up from node `index` (see `proof_walk_ok`).
pub open spec fn spec_siblings(nodes: Seq<Seq<u8>>, level_start: int, level_size: int, index: int) -> Seq<
    Seq<u8>,
>
    decreases level_size,
{
    if level_size <= 1 {
        Seq::empty()
    } else {
        seq![nodes[level_start + sibling_pos(level_size, index)]] + spec_siblings(
            nodes,
            level_start + level_size,
            (level_size + 1) / 2,
            index / 2,
        )
    }
}

/// One step up: the parent of the current node and its sibling, in the order given by
/// the parity of the current index.
pub open spec fn path_step(cur: Seq<u8>, index: int, sibling: Seq<u8>) -> Seq<u8> {
    if index % 2 == 0 {
        parent(cur, sibling)
    } else {
        parent(sibling, cur)
    }
}

/// The node reached from `cur` at `index` by climbing with the given siblings.
pub open spec fn fold_path(cur: Seq<u8>, index: int, sibs: Seq<Seq<u8>>) -> Seq<u8>
    decreases sibs.len(),
{
    if sibs.len() == 0 {
        cur
    } else {
        fold_path(path_step(cur, index, sibs[0]), index / 2, sibs.drop_first())
    }
}

/// The first `k` hashes match the nodes from `start` on (which the array holds).
pub open spec fn range_matches(nodes: Seq<[u8; 32]>, start: int, hashes: Seq<[u8; 32]>, k: int) -> bool {
    forall|j: int| 0 <= j < k ==> start + j < nodes.len() && #[trigger] hashes[j]@ == nodes[start + j]@
}

/// Enhanced Merkle tree with verification capabilities.
#[derive(Debug, Clone)]
pub struct MerkleTreeV2 {
    pub root_hash: [u8; 32],
    pub nodes: Vec<[u8; 32]>,
    pub leaf_count: usize,
    pub tree_height: usize,
}

/// Merkle proof for chunk verification.
#[derive(Debug, Clone)]
pub struct MerkleProof {
    pub leaf_index: usize,
    pub leaf_hash: [u8; 32],
    pub siblings: Vec<[u8; 32]>,
}

proof fn lemma_tree_nodes_len(l: Seq<Seq<u8>>)
    ensures
        tree_nodes(l).len() >= l.len(),
        l.len() > 0 ==> tree_nodes(l).len() > 0,
        l.len() > 1 ==> tree_nodes(l).len() > l.len(),
    decreases l.len(),
{
    if l.len() > 1 {
        lemma_tree_nodes_len(next_level(l));
    }
}

/// The tree over a non-empty level starts with that level and ends with its root.
pub(crate) proof fn lemma_tree_nodes_prefix(l: Seq<Seq<u8>>)
    ensures
        tree_nodes(l).len() >= l.len(),
        forall|i: int| 0 <= i < l.len() ==> #[trigger] tree_nodes(l)[i] == l[i],
    decreases l.len(),
{
    lemma_tree_nodes_len(l);
}

/// The walk up from leaf `idx` of level `l`, where the array holds the nodes of the tree
/// over `l` from `level_start` on, stays inside the array and ends at the root.
proof fn lemma_walk(nodes: Seq<Seq<u8>>, level_start: int, l: Seq<Seq<u8>>, idx: int)
    requires
        0 <= level_start <= nodes.len(),
        nodes.len() <= usize::MAX,
        nodes.subrange(level_start, nodes.len() as int) == tree_nodes(l),
        0 <= idx < l.len(),
    ensures
        proof_walk_ok(nodes.len() as int, level_start, l.len() as int, idx),
        fold_path(l[idx], idx, spec_siblings(nodes, level_start, l.len() as int, idx))
            == tree_nodes(l).last(),
    decreases l.len(),
{
    if l.len() > 1 {
        let nx = next_level(l);
        lemma_tree_nodes_len(nx);
        lemma_tree_nodes_len(l);
        assert(tree_nodes(l) == l + tree_nodes(nx));
        let sub = nodes.subrange(level_start, nodes.len() as int);
        assert(nodes.subrange(level_start + l.len(), nodes.len() as int) =~= sub.subrange(
            l.len() as int,
            sub.len() as int,
        ));
        assert(sub.subrange(l.len() as int, sub.len() as int) =~= tree_nodes(nx));
        lemma_walk(nodes, level_start + l.len(), nx, idx / 2);
        let sp = sibling_pos(l.len() as int, idx);
        assert(nodes[level_start + sp] == sub[sp]);
        assert(sub[sp] == l[sp]);
        let j = idx / 2;
        assert(path_step(l[idx], idx, l[sp]) == nx[j]);
        let sibs = spec_siblings(nodes, level_start, l.len() as int, idx);
        assert(sibs.drop_first() =~= spec_siblings(
            nodes,
            level_start + l.len(),
            ((l.len() + 1) / 2) as int,
            idx / 2,
        ));
        assert(tree_nodes(l).last() == tree_nodes(nx).last());
    }
}

/// One level of the bottom-up construction: appending the level above the current one
/// keeps the array a prefix of the tree's nodes ending with the current level.
proof fn lemma_build_step(before: Seq<Seq<u8>>, nx: Seq<Seq<u8>>, cur: Seq<Seq<u8>>, h: Seq<Seq<u8>>)
    requires
        cur.len() > 1,
        cur.len() <= before.len(),
        cur == before.subrange(before.len() - cur.len(), before.len() as int),
        before.take(before.len() - cur.len()) + tree_nodes(cur) == tree_nodes(h),
        nx == next_level(cur),
    ensures
        (before + nx).take(before.len() as int) + tree_nodes(nx) == tree_nodes(h),
        nx == (before + nx).subrange(before.len() as int, (before + nx).len() as int),
{
    assert(tree_nodes(cur) == cur + tree_nodes(nx));
    assert((before + nx).take(before.len() as int) =~= before);
    assert(before =~= before.take(before.len() - cur.len()) + cur);
    assert((before + nx).subrange(before.len() as int, (before + nx).len() as int) =~= nx);
}

impl MerkleTreeV2 {
    /// Build Merkle tree from chunk hashes.
    pub fn build(chunk_hashes: &[[u8; 32]]) -> (t: Self)
        ensures
            hashes_view(t.nodes@) == (if chunk_hashes@.len() == 0 {
                Seq::empty()
            } else {
                tree_nodes(hashes_view(chunk_hashes@))
            }),
            t.root_hash@ == spec_root(hashes_view(chunk_hashes@)),
            t.leaf_count == chunk_hashes@.len(),
            t.tree_height == tree_height(hashes_view(chunk_hashes@)),
    {
        if chunk_hashes.len() == 0 {
            let root_hash = [0u8; 32];
            assert(root_hash@ =~= spec_root(hashes_view(chunk_hashes@)));
            return MerkleTreeV2 { root_hash, nodes: Vec::new(), leaf_count: 0, tree_height: 0 };
        }
        let mut nodes: Vec<[u8; 32]> = Vec::new();
        let mut k: usize = 0;
        while k < chunk_hashes.len()
            invariant
                k <= chunk_hashes@.len(),
                nodes@ == chunk_hashes@.take(k as int),
            decreases chunk_hashes@.len() - k,
        {
            nodes.push(chunk_hashes[k]);
            assert(nodes@ =~= chunk_hashes@.take(k as int + 1));
            k = k + 1;
        }
        assert(nodes@ =~= chunk_hashes@);
        let leaf_count = nodes.len();
        let ghost h = hashes_view(chunk_hashes@);
        let mut height: usize = 0;
        let mut level_size = nodes.len();
        let ghost mut cur = h;
        while level_size > 1
            invariant
                h == hashes_view(chunk_hashes@),
                h.len() > 0,
                1 <= level_size <= nodes@.len(),
                cur.len() == level_size,
                cur == hashes_view(nodes@).subrange(nodes@.len() - level_size, nodes@.len() as int),
                hashes_view(nodes@).take(nodes@.len() - level_size) + tree_nodes(cur) == tree_nodes(h),
                height + tree_height(cur) == tree_height(h),
                height + level_size <= nodes@.len(),
            decreases level_size,
        {
            let ghost before = nodes@;
            let start = nodes.len() - level_size;
            let next = parent_level(&nodes, start, level_size);
            let mut k: usize = 0;
            while k < next.len()
                invariant
                    k <= next@.len(),
                    nodes@ == before + next@.take(k as int),
                decreases next@.len() - k,
            {
                nodes.push(next[k]);
                assert(nodes@ =~= before + next@.take(k as int + 1));
                k = k + 1;
            }
            proof {
                assert(next@.take(next@.len() as int) =~= next@);
                assert(hashes_view(nodes@) =~= hashes_view(before) + hashes_view(next@));
                assert(hashes_view(next@) == next_level(cur));
                lemma_build_step(hashes_view(before), hashes_view(next@), cur, hashes_view(chunk_hashes@));
            }
            let cur_len = nodes.len();
            height = height + 1;
            level_size = next.len();
            proof {
                cur = hashes_view(next@);
            }
        }
        proof {
            assert(tree_nodes(cur) == cur);
            assert(hashes_view(nodes@) =~= hashes_view(nodes@).take(nodes@.len() - level_size) + cur);
        }
        let root_hash = nodes[nodes.len() - 1];
        MerkleTreeV2 { root_hash, nodes, leaf_count, tree_height: height }
    }

    /// Verify a single chunk.
    pub fn verify_chunk(&self, chunk_index: usize, chunk_hash: &[u8; 32]) -> (r: bool)
        requires
            chunk_index < self.leaf_count ==> chunk_index < self.nodes@.len(),
        ensures
            r == (chunk_index < self.leaf_count && self.nodes@[chunk_index as int]@ == chunk_hash@),
    {
        if chunk_index >= self.leaf_count {
            return false;
        }
        bytes32_eq(&self.nodes[chunk_index], chunk_hash)
    }

    /// Verify a range of chunks: the hashes must match the leaves from `start` on, all
    /// within `start..end`.
    pub fn verify_range(&self, start: usize, end: usize, chunk_hashes: &[[u8; 32]]) -> (r: bool)
        requires
            end <= self.leaf_count && start < end ==> forall|k: int|
                0 <= k < chunk_hashes@.len() && start + k < end && #[trigger] range_matches(
                    self.nodes@,
                    start as int,
                    chunk_hashes@,
                    k,
                ) ==> start + k < self.nodes@.len(),
        ensures
            r == (end <= self.leaf_count && start < end && forall|i: int|
                0 <= i < chunk_hashes@.len() ==> start + i < end && #[trigger] chunk_hashes@[i]@
                    == self.nodes@[start + i]@),
    {
        if end > self.leaf_count || start >= end {
            return false;
        }
        let mut i: usize = 0;
        while i < chunk_hashes.len()
            invariant
                start < end,
                end <= self.leaf_count,
                forall|k: int|
                    0 <= k < chunk_hashes@.len() && start + k < end && #[trigger] range_matches(
                        self.nodes@,
                        start as int,
                        chunk_hashes@,
                        k,
                    ) ==> start + k < self.nodes@.len(),
                range_matches(self.nodes@, start as int, chunk_hashes@, i as int),
                i <= chunk_hashes@.len(),
                i <= end - start,
                forall|k: int| 0 <= k < i ==> start + k < end && #[trigger] chunk_hashes@[k]@
                    == self.nodes@[start + k]@,
            decreases chunk_hashes@.len() - i,
        {
            if i >= end - start {
                assert(!(start + i < end));
                assert(chunk_hashes@[i as int]@ == chunk_hashes@[i as int]@);
                return false;
            }
            let chunk_idx = start + i;
            if !self.verify_chunk(chunk_idx, &chunk_hashes[i]) {
                assert(!(chunk_hashes@[i as int]@ == self.nodes@[start + i]@));
                return false;
            }
            assert(range_matches(self.nodes@, start as int, chunk_hashes@, i as int + 1));
            i = i + 1;
        }
        assert(i == chunk_hashes@.len());
        assert forall|k: int| 0 <= k < chunk_hashes@.len() implies start + k < end && #[trigger] chunk_hashes@[k]@
            == self.nodes@[start + k]@ by {
            assert(0 <= k < i);
        }
        true
    }

    /// Verify the entire tree: the hashes must be the leaves of a tree with this root.
    pub fn verify_full(&self, chunk_hashes: &[[u8; 32]]) -> (r: bool)
        ensures
            r == (chunk_hashes@.len() == self.leaf_count && spec_root(hashes_view(chunk_hashes@))
                == self.root_hash@),
    {
        if chunk_hashes.len() != self.leaf_count {
            return false;
        }
        let rebuilt = Self::build(chunk_hashes);
        bytes32_eq(&rebuilt.root_hash, &self.root_hash)
    }

    /// Generate a Merkle proof for a chunk.
    pub fn generate_proof(&self, chunk_index: usize) -> (r: Option<MerkleProof>)
        requires
            chunk_index < self.leaf_count ==> chunk_index < self.nodes@.len() && proof_walk_ok(
                self.nodes@.len() as int,
                0,
                self.leaf_count as int,
                chunk_index as int,
            ),
        ensures
            r is Some <==> chunk_index < self.leaf_count,
            r matches Some(p) ==> p.leaf_index == chunk_index && p.leaf_hash
                == self.nodes@[chunk_index as int] && hashes_view(p.siblings@) == spec_siblings(
                hashes_view(self.nodes@),
                0,
                self.leaf_count as int,
                chunk_index as int,
            ),
    {
        if chunk_index >= self.leaf_count {
            return None;
        }
        let ghost nv = hashes_view(self.nodes@);
        let ghost full = spec_siblings(nv, 0, self.leaf_count as int, chunk_index as int);
        let leaf_hash = self.nodes[chunk_index];
        let mut siblings: Vec<[u8; 32]> = Vec::new();
        let mut index = chunk_index;
        let mut level_start: usize = 0;
        let mut level_size = self.leaf_count;
        while level_size > 1
            invariant
                nv == hashes_view(self.nodes@),
                proof_walk_ok(self.nodes@.len() as int, level_start as int, level_size as int, index as int),
                index < level_size,
                hashes_view(siblings@) + spec_siblings(nv, level_start as int, level_size as int, index as int)
                    == full,
            decreases level_size,
        {
            let sibling_index = if index % 2 == 0 { index + 1 } else { index - 1 };
            let ghost before = siblings@;
            if sibling_index < level_size {
                siblings.push(self.nodes[level_start + sibling_index]);
            } else {
                siblings.push(self.nodes[level_start + index]);
            }
            proof {
                assert(hashes_view(siblings@) =~= hashes_view(before).push(
                    nv[level_start + sibling_pos(level_size as int, index as int)],
                ));
                let rest = spec_siblings(nv, level_start + level_size, ((level_size + 1) / 2) as int, (index / 2) as int);
                assert(hashes_view(siblings@) + rest =~= hashes_view(before) + spec_siblings(
                    nv,
                    level_start as int,
                    level_size as int,
                    index as int,
                ));
            }
            level_start = level_start + level_size;
            level_size = level_size / 2 + level_size % 2;
            index = index / 2;
        }
        assert(hashes_view(siblings@) =~= full);
        Some(MerkleProof { leaf_index: chunk_index, leaf_hash, siblings })
    }

    /// Verify a Merkle proof: climbing from the leaf with the siblings must reach the root.
    pub fn verify_proof(&self, proof: &MerkleProof) -> (r: bool)
        ensures
            r == (fold_path(proof.leaf_hash@, proof.leaf_index as int, hashes_view(proof.siblings@))
                == self.root_hash@),
    {
        let ghost sibs = hashes_view(proof.siblings@);
        let ghost target = fold_path(proof.leaf_hash@, proof.leaf_index as int, sibs);
        let mut current_hash = proof.leaf_hash;
        let mut index = proof.leaf_index;
        let mut k: usize = 0;
        assert(sibs.skip(0) =~= sibs);
        while k < proof.siblings.len()
            invariant
                sibs == hashes_view(proof.siblings@),
                k <= sibs.len(),
                fold_path(current_hash@, index as int, sibs.skip(k as int)) == target,
            decreases sibs.len() - k,
        {
            let sibling = &proof.siblings[k];
            proof {
                assert(sibs.skip(k as int)[0] == sibling@);
                assert(sibs.skip(k as int).drop_first() =~= sibs.skip(k as int + 1));
            }
            current_hash = if index % 2 == 0 {
                hash_pair(&current_hash, sibling)
            } else {
                hash_pair(sibling, &current_hash)
            };
            index = index / 2;
            k = k + 1;
        }
        bytes32_eq(&current_hash, &self.root_hash)
    }

    /// Hash a chunk.
    pub fn hash_chunk(data: &[u8]) -> (h: [u8; 32])
        ensures
            h@ == blake3_digest(data@),
    {
        blake3_hash(data)
    }
}

/// Law: in a tree built from leaf hashes, the proof generated for any leaf verifies
/// against the root (and generating it reads only nodes of the tree).
pub proof fn lemma_generated_proof_verifies(t: MerkleTreeV2, h: Seq<[u8; 32]>, i: int)
    requires
        hashes_view(t.nodes@) == (if h.len() == 0 {
            Seq::empty()
        } else {
            tree_nodes(hashes_view(h))
        }),
        t.root_hash@ == spec_root(hashes_view(h)),
        t.leaf_count == h.len(),
        0 <= i < h.len(),
    ensures
        i < t.nodes@.len(),
        proof_walk_ok(t.nodes@.len() as int, 0, t.leaf_count as int, i),
        fold_path(
            t.nodes@[i]@,
            i,
            spec_siblings(hashes_view(t.nodes@), 0, t.leaf_count as int, i),
        ) == t.root_hash@,
{
    let hv = hashes_view(h);
    let nv = hashes_view(t.nodes@);
    lemma_tree_nodes_len(hv);
    assert(nv.subrange(0, nv.len() as int) =~= nv);
    assert(t.nodes.len() == t.nodes@.len());
    lemma_walk(nv, 0, hv, i);
    assert(nv[i] == hv[i]);
}

/// Law: every leaf of a built tree verifies as a single chunk, and the full leaf list
/// verifies against the tree.
pub proof fn lemma_built_tree_verifies_leaves(t: MerkleTreeV2, h: Seq<[u8; 32]>)
    requires
        hashes_view(t.nodes@) == (if h.len() == 0 {
            Seq::empty()
        } else {
            tree_nodes(hashes_view(h))
        }),
        t.root_hash@ == spec_root(hashes_view(h)),
        t.leaf_count == h.len(),
    ensures
        forall|i: int| 0 <= i < h.len() ==> i < t.nodes@.len() && #[trigger] t.nodes@[i]@ == h[i]@,
        h.len() == t.leaf_count && spec_root(hashes_view(h)) == t.root_hash@,
{
    let hv = hashes_view(h);
    lemma_tree_nodes_len(hv);
    assert forall|i: int| 0 <= i < h.len() implies i < t.nodes@.len() && #[trigger] t.nodes@[i]@
        == h[i]@ by {
        assert(hashes_view(t.nodes@)[i] == tree_nodes(hv)[i]);
        if hv.len() > 1 {
            assert(tree_nodes(hv) == hv + tree_nodes(next_level(hv)));
        }
    }
}

/// Appending or prepending the same bytes keeps distinct strings distinct.
proof fn lemma_concat_distinct(x: Seq<u8>, y: Seq<u8>, s: Seq<u8>)
    requires
        x != y,
    ensures
        x + s != y + s,
        s + x != s + y,
{
    if x + s == y + s {
        assert(x =~= (x + s).subrange(0, x.len() as int));
        assert(y =~= (y + s).subrange(0, y.len() as int));
    }
    if s + x == s + y {
        assert(x =~= (s + x).subrange(s.len() as int, (s + x).len() as int));
        assert(y =~= (s + y).subrange(s.len() as int, (s + y).len() as int));
    }
}

/// Climbing from two nodes with the same siblings reaches the same node only when the
/// two nodes are equal, unless BLAKE3 has a collision.
proof fn lemma_fold_binds(x: Seq<u8>, y: Seq<u8>, index: int, sibs: Seq<Seq<u8>>)
    requires
        fold_path(x, index, sibs) == fold_path(y, index, sibs),
    ensures
        x == y || blake3_collision(),
    decreases sibs.len(),
{
    if sibs.len() > 0 {
        let s = sibs[0];
        let px = path_step(x, index, s);
        let py = path_step(y, index, s);
        lemma_fold_binds(px, py, index / 2, sibs.drop_first());
        if px == py && x != y {
            lemma_concat_distinct(x, y, s);
            if index % 2 == 0 {
                assert(blake3_digest(x + s) == blake3_digest(y + s));
            } else {
                assert(blake3_digest(s + x) == blake3_digest(s + y));
            }
        }
    }
}

/// Law: a proof with the siblings of leaf `i` of a built tree verifies only for the
/// hash of that leaf, unless BLAKE3 has a collision: a proof that swaps in another leaf
/// hash is refused.
pub proof fn lemma_proof_binds_leaf(t: MerkleTreeV2, h: Seq<[u8; 32]>, i: int, p: MerkleProof)
    requires
        hashes_view(t.nodes@) == (if h.len() == 0 {
            Seq::empty()
        } else {
            tree_nodes(hashes_view(h))
        }),
        t.root_hash@ == spec_root(hashes_view(h)),
        t.leaf_count == h.len(),
        0 <= i < h.len(),
        p.leaf_index == i,
        hashes_view(p.siblings@) == spec_siblings(hashes_view(t.nodes@), 0, t.leaf_count as int, i),
        fold_path(p.leaf_hash@, i, hashes_view(p.siblings@)) == t.root_hash@,
    ensures
        p.leaf_hash == h[i] || blake3_collision(),
{
    lemma_generated_proof_verifies(t, h, i);
    lemma_tree_nodes_prefix(hashes_view(h));
    assert(hashes_view(t.nodes@)[i] == t.nodes@[i]@);
    assert(t.nodes@[i]@ == h[i]@);
    lemma_fold_binds(p.leaf_hash@, h[i]@, i, hashes_view(p.siblings@));
    if p.leaf_hash@ == h[i]@ {
        assert(p.leaf_hash@ =~= h[i]@);
    }
}

} // verus!
