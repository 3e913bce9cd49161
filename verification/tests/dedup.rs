use cllx_fs_pro::dedup::{RollingHash, DedupIndex};

#[test]
fn test_rolling_hash_deterministic() {
    let rh = RollingHash::new(64);
    let data = b"test data for rolling hash";
    let fp1 = rh.fingerprint(data);
    let fp2 = rh.fingerprint(data);
    assert_eq!(fp1, fp2);
}

#[test]
fn fingerprint_values() {
    let rh = RollingHash::new(64);
    assert_eq!(rh.fingerprint(b""), 0);
    assert_eq!(rh.fingerprint(b"a"), 97);
    assert_eq!(rh.fingerprint(b"ab"), 97 * 31 + 98);
    // Reduced modulo 0xFFFFFFFF after every byte.
    let long: Vec<u8> = vec![255; 100];
    let mut h: u64 = 0;
    for &b in &long {
        h = (h * 31 + b as u64) % 0xFFFF_FFFF;
    }
    assert_eq!(rh.fingerprint(&long), h);
}

#[test]
fn boundaries_close_with_the_length() {
    let rh = RollingHash::new(64);
    assert_eq!(rh.find_boundaries(b"", 8), vec![0]);
    // Every byte at distance >= 2 from the last boundary starts a new one.
    assert_eq!(rh.find_boundaries(b"abcdef", 1), vec![0, 2, 4, 6]);
    // A zero byte first gives a zero hash, hence a boundary at 0 again.
    assert_eq!(rh.find_boundaries(&[0u8, 1], 100), vec![0, 0, 2]);
}

#[test]
fn test_dedup_index() {
    let mut index = DedupIndex::new();
    let hash1 = [1u8; 32];
    let hash2 = [2u8; 32];
    let id1 = index.insert(hash1, 1024);
    assert_eq!(id1, 0);
    assert_eq!(index.unique_chunks(), 1);
    let id2 = index.insert(hash1, 1024);
    assert_eq!(id2, 0);
    assert_eq!(index.unique_chunks(), 1);
    let id3 = index.insert(hash2, 2048);
    assert_eq!(id3, 1);
    assert_eq!(index.unique_chunks(), 2);
    assert_eq!(index.total_references(), 3);
    let ratio = index.total_references() as f64 / index.unique_chunks() as f64;
    assert_eq!(ratio, 1.5);
}

#[test]
fn test_dedup_decrement() {
    let mut index = DedupIndex::new();
    let hash = [1u8; 32];
    index.insert(hash, 1024);
    index.insert(hash, 1024);
    assert_eq!(index.unique_chunks(), 1);
    let should_delete = index.decrement_ref(&hash);
    assert!(!should_delete);
    assert_eq!(index.unique_chunks(), 1);
    let should_delete = index.decrement_ref(&hash);
    assert!(should_delete);
    assert_eq!(index.unique_chunks(), 0);
}

#[test]
fn lookup_and_sizes() {
    let mut index = DedupIndex::default();
    assert!(index.lookup(&[5u8; 32]).is_none());
    index.insert([5u8; 32], 10);
    index.insert([6u8; 32], 20);
    index.insert([5u8; 32], 999);
    let r = index.lookup(&[5u8; 32]).unwrap();
    assert_eq!(r.chunk_id, 0);
    assert_eq!(r.ref_count, 2);
    assert_eq!(r.size, 10);
    assert_eq!(r.hash, [5u8; 32]);
    assert_eq!(index.total_size(), 30);
    // Unknown hash: nothing happens.
    assert!(!index.decrement_ref(&[7u8; 32]));
    assert_eq!(index.total_references(), 3);
    // Decrement then re-insert: a removed hash gets a fresh id.
    assert!(index.decrement_ref(&[6u8; 32]));
    assert_eq!(index.insert([6u8; 32], 20), 2);
}

#[test]
fn decrement_undoes_insert() {
    let mut index = DedupIndex::new();
    index.insert([1u8; 32], 5);
    index.insert([2u8; 32], 6);
    let before_refs = index.total_references();
    let before_unique = index.unique_chunks();
    index.insert([1u8; 32], 5);
    index.decrement_ref(&[1u8; 32]);
    assert_eq!(index.total_references(), before_refs);
    assert_eq!(index.unique_chunks(), before_unique);
    index.insert([3u8; 32], 7);
    index.decrement_ref(&[3u8; 32]);
    assert!(index.lookup(&[3u8; 32]).is_none());
    assert_eq!(index.unique_chunks(), before_unique);
}

#[test]
fn totals_follow_the_calls() {
    let mut index = DedupIndex::new();
    index.insert([1u8; 32], 100);
    index.insert([1u8; 32], 100);
    index.insert([2u8; 32], 50);
    assert!(!index.decrement_ref(&[9u8; 32]));
    assert_eq!(index.total_references(), 3);
    assert_eq!(index.total_size(), 150);
    assert!(index.decrement_ref(&[2u8; 32]));
    assert_eq!(index.total_references(), 2);
    assert_eq!(index.total_size(), 100);
    // A hash added again after removal gets a fresh id.
    assert_eq!(index.insert([2u8; 32], 50), 2);
}
