//! Merkle trees over chunk hashes.
pub mod tree;

use vstd::prelude::*;
use crate::base::digest::{blake3_hash, blake3_digest, bytes32_eq};

pub use tree::{MerkleTreeV2, MerkleProof};
use tree::{tree_nodes, spec_root, next_level};

verus! {

/// The hashes of a sequence of 32-byte nodes, as byte sequences.
pub open spec fn hashes_view(h: Seq<[u8; 32]>) -> Seq<Seq<u8>> {
    h.map_values(|a: [u8; 32]| a@)
}

/// The parent of two nodes: the BLAKE3 digest of their concatenation.
pub open spec fn parent(left: Seq<u8>, right: Seq<u8>) -> Seq<u8> {
    blake3_digest(left + right)
}

/// The level above the first `size` nodes of `l`: each pair of neighbours is hashed
/// into its parent, and an odd last node is paired with itself.
pub open spec fn pairs(l: Seq<Seq<u8>>, size: int) -> Seq<Seq<u8>> {
    Seq::new(
        ((size + 1) / 2) as nat,
        |j: int| parent(l[2 * j], if 2 * j + 1 < size { l[2 * j + 1] } else { l[2 * j] }),
    )
}

/// Hash a pair of nodes.
pub fn hash_pair(left: &[u8; 32], right: &[u8; 32]) -> (h: [u8; 32])
    ensures
        h@ == parent(left@, right@),
{
    let mut buf: Vec<u8> = Vec::new();
    crate::base::bytes::append_bytes(&mut buf, left);
    crate::base::bytes::append_bytes(&mut buf, right);
    blake3_hash(buf.as_slice())
}

/// Computes `pairs` of the `size` nodes of `nodes` starting at `start`.
pub fn parent_level(nodes: &Vec<[u8; 32]>, start: usize, size: usize) -> (out: Vec<[u8; 32]>)
    requires
        start + size <= nodes@.len(),
    ensures
        hashes_view(out@) == pairs(hashes_view(nodes@).subrange(start as int, start + size), size as int),
{
    let ghost l = hashes_view(nodes@).subrange(start as int, start + size);
    let total = nodes.len();
    let count = size / 2 + size % 2;
    let mut out: Vec<[u8; 32]> = Vec::new();
    let mut j: usize = 0;
    while j < count
        invariant
            start + size <= nodes@.len(),
            total == nodes@.len(),
            l == hashes_view(nodes@).subrange(start as int, start + size),
            count == (size + 1) / 2,
            j <= count,
            out@.len() == j,
            forall|q: int| 0 <= q < j ==> #[trigger] hashes_view(out@)[q] == pairs(l, size as int)[q],
        decreases count - j,
    {
        assert(2 * j < size) by (nonlinear_arith)
            requires
                j < count,
                count == (size + 1) / 2,
        ;
        let a = start + 2 * j;
        let left = &nodes[a];
        let right = if 2 * j + 1 < size { &nodes[a + 1] } else { left };
        let p = hash_pair(left, right);
        let ghost old_out = out@;
        out.push(p);
        proof {
            let q = j as int;
            assert(l[2 * q] == nodes@[a as int]@);
            if 2 * j + 1 < size {
                assert(l[2 * q + 1] == nodes@[a + 1]@);
            }
            assert(hashes_view(out@) =~= hashes_view(old_out).push(p@));
        }
        j = j + 1;
    }
    assert(hashes_view(out@) =~= pairs(l, size as int));
    out
}

/// Merkle tree (first version).
#[derive(Debug, Clone)]
pub struct MerkleTree {
    pub root_hash: [u8; 32],
    pub nodes: Vec<[u8; 32]>,
    pub leaf_count: usize,
}

/// Two distinct pairs of 32-byte nodes with the same parent: a BLAKE3 collision.
pub open spec fn parent_collision() -> bool {
    exists|a: Seq<u8>, b: Seq<u8>, c: Seq<u8>, d: Seq<u8>|
        a.len() == 32 && b.len() == 32 && c.len() == 32 && d.len() == 32 && (a != c || b != d) && #[trigger] parent(
            a,
            b,
        ) == #[trigger] parent(c, d)
}

impl MerkleTree {
    /// Build a Merkle tree from chunk hashes, bottom up: the leaves, then each level of
    /// parents of the level below, up to the root (the same tree as the second version's).
    pub fn build(chunk_hashes: &[[u8; 32]]) -> (t: Self)
        requires
            chunk_hashes@.len() > 0,
        ensures
            hashes_view(t.nodes@) == tree_nodes(hashes_view(chunk_hashes@)),
            t.root_hash@ == spec_root(hashes_view(chunk_hashes@)),
            t.root_hash@ == hashes_view(t.nodes@).last(),
            t.leaf_count == chunk_hashes@.len(),
    {
        let tree = MerkleTreeV2::build(chunk_hashes);
        MerkleTree { root_hash: tree.root_hash, nodes: tree.nodes, leaf_count: tree.leaf_count }
    }

    /// Verify a chunk against the tree.
    pub fn verify_chunk(&self, chunk_index: usize, chunk_hash: &[u8; 32]) -> (r: bool)
        requires
            chunk_index < self.leaf_count ==> chunk_index < self.nodes@.len(),
        ensures
            r == (chunk_index < self.leaf_count && self.nodes@[chunk_index as int]@ == chunk_hash@),
    {
        if chunk_index >= self.leaf_count {
            return false;
        }
        bytes32_eq(&self.nodes[chunk_index], chunk_hash)
    }

    /// Hash a chunk with BLAKE3.
    pub fn hash_chunk(data: &[u8]) -> (h: [u8; 32])
        ensures
            h@ == blake3_digest(data@),
    {
        blake3_hash(data)
    }
}

/// Every node of `s` is 32 bytes long.
pub open spec fn all_32(s: Seq<Seq<u8>>) -> bool {
    forall|i: int| 0 <= i < s.len() ==> (#[trigger] s[i]).len() == 32
}

/// Two levels of equal length with the same level above them are equal, unless two
/// distinct pairs of their nodes have the same parent.
proof fn lemma_level_binds(l1: Seq<Seq<u8>>, l2: Seq<Seq<u8>>)
    requires
        l1.len() == l2.len(),
        all_32(l1),
        all_32(l2),
        next_level(l1) == next_level(l2),
    ensures
        l1 == l2 || parent_collision(),
{
    if l1 != l2 {
        let k = choose|k: int| 0 <= k < l1.len() && l1[k] != l2[k];
        assert(exists|k: int| 0 <= k < l1.len() && l1[k] != l2[k]) by {
            if !(exists|k: int| 0 <= k < l1.len() && l1[k] != l2[k]) {
                assert(l1 =~= l2);
            }
        }
        let j = k / 2;
        let size = l1.len() as int;
        let x1 = if 2 * j + 1 < size { l1[2 * j + 1] } else { l1[2 * j] };
        let x2 = if 2 * j + 1 < size { l2[2 * j + 1] } else { l2[2 * j] };
        assert(next_level(l1)[j] == parent(l1[2 * j], x1));
        assert(next_level(l2)[j] == parent(l2[2 * j], x2));
        assert(l1[2 * j] != l2[2 * j] || x1 != x2);
        assert(l1[2 * j].len() == 32 && l2[2 * j].len() == 32 && x1.len() == 32 && x2.len() == 32);
        assert(parent(l1[2 * j], x1) == parent(l2[2 * j], x2));
    }
}

/// Trees over levels of equal length with the same root are over equal levels, unless
/// two distinct pairs of their nodes have the same parent.
proof fn lemma_tree_binds(l1: Seq<Seq<u8>>, l2: Seq<Seq<u8>>)
    requires
        l1.len() == l2.len(),
        l1.len() > 0,
        all_32(tree_nodes(l1)),
        all_32(tree_nodes(l2)),
        tree_nodes(l1).last() == tree_nodes(l2).last(),
    ensures
        l1 == l2 || parent_collision(),
    decreases l1.len(),
{
    if l1.len() == 1 {
        assert(l1 =~= l2);
    } else {
        let n1 = next_level(l1);
        let n2 = next_level(l2);
        assert(tree_nodes(l1) == l1 + tree_nodes(n1));
        assert(tree_nodes(l2) == l2 + tree_nodes(n2));
        tree::lemma_tree_nodes_prefix(n1);
        tree::lemma_tree_nodes_prefix(n2);
        assert forall|i: int| 0 <= i < l1.len() implies (#[trigger] l1[i]).len() == 32 by {
            assert(tree_nodes(l1)[i] == l1[i]);
        }
        assert forall|i: int| 0 <= i < l2.len() implies (#[trigger] l2[i]).len() == 32 by {
            assert(tree_nodes(l2)[i] == l2[i]);
        }
        assert forall|i: int| 0 <= i < tree_nodes(n1).len() implies (#[trigger] tree_nodes(n1)[i]).len() == 32 by {
            assert(tree_nodes(l1)[l1.len() + i] == tree_nodes(n1)[i]);
        }
        assert forall|i: int| 0 <= i < tree_nodes(n2).len() implies (#[trigger] tree_nodes(n2)[i]).len() == 32 by {
            assert(tree_nodes(l2)[l2.len() + i] == tree_nodes(n2)[i]);
        }
        assert(tree_nodes(l1).last() == tree_nodes(n1).last());
        assert(tree_nodes(l2).last() == tree_nodes(n2).last());
        lemma_tree_binds(n1, n2);
        if n1 == n2 {
            lemma_level_binds(l1, l2);
        }
    }
}

/// Law: the root of a built tree commits to every chunk hash. Two trees built over the
/// same number of chunk hashes with the same root were built over the same hashes,
/// unless BLAKE3 has a collision on the parent of two 32-byte nodes.
pub proof fn lemma_root_binds_leaves(h1: Seq<[u8; 32]>, h2: Seq<[u8; 32]>, t1: MerkleTree, t2: MerkleTree)
    requires
        h1.len() == h2.len(),
        h1.len() > 0,
        hashes_view(t1.nodes@) == tree_nodes(hashes_view(h1)),
        hashes_view(t2.nodes@) == tree_nodes(hashes_view(h2)),
        t1.root_hash@ == spec_root(hashes_view(h1)),
        t2.root_hash@ == spec_root(hashes_view(h2)),
        t1.root_hash == t2.root_hash,
    ensures
        h1 == h2 || parent_collision(),
{
    let v1 = hashes_view(h1);
    let v2 = hashes_view(h2);
    assert forall|i: int| 0 <= i < tree_nodes(v1).len() implies (#[trigger] tree_nodes(v1)[i]).len() == 32 by {
        assert(hashes_view(t1.nodes@)[i] == t1.nodes@[i]@);
    }
    assert forall|i: int| 0 <= i < tree_nodes(v2).len() implies (#[trigger] tree_nodes(v2)[i]).len() == 32 by {
        assert(hashes_view(t2.nodes@)[i] == t2.nodes@[i]@);
    }
    lemma_tree_binds(v1, v2);
    if v1 == v2 {
        assert forall|i: int| 0 <= i < h1.len() implies h1[i] == h2[i] by {
            assert(v1[i] == h1[i]@);
            assert(v2[i] == h2[i]@);
            assert(h1[i]@ =~= h2[i]@);
        }
        assert(h1 =~= h2);
    }
}

} // verus!
