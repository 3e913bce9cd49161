use cllx_fs_pro::lazy::{ChunkCache, ChunkTable};
use cllx_fs_pro::Error;

#[test]
fn test_chunk_cache() {
    let mut cache = ChunkCache::new(2);
    cache.insert(0, vec![1, 2, 3]);
    cache.insert(1, vec![4, 5, 6]);
    assert_eq!(cache.get(0), Some(&vec![1, 2, 3]));
    assert_eq!(cache.get(1), Some(&vec![4, 5, 6]));
    // Insert third item, should evict one
    cache.insert(2, vec![7, 8, 9]);
    assert_eq!(cache.len(), 2);
}

#[test]
fn cache_keeps_newest_and_never_exceeds_capacity() {
    let mut cache = ChunkCache::new(3);
    for i in 0..20u64 {
        cache.insert(i, vec![i as u8]);
        assert!(cache.len() <= 3);
        assert_eq!(cache.get(i), Some(&vec![i as u8]));
    }
    cache.clear();
    assert_eq!(cache.len(), 0);
    assert!(cache.get(19).is_none());
}

#[test]
fn zero_capacity_cache_holds_one_chunk() {
    let mut cache = ChunkCache::new(0);
    cache.insert(1, vec![1]);
    cache.insert(2, vec![2]);
    assert_eq!(cache.len(), 1);
    assert_eq!(cache.get(2), Some(&vec![2]));
}

#[test]
fn reinserting_a_key_replaces_it() {
    let mut cache = ChunkCache::new(5);
    cache.insert(1, vec![1]);
    cache.insert(1, vec![9]);
    assert_eq!(cache.len(), 1);
    assert_eq!(cache.get(1), Some(&vec![9]));
}

#[test]
fn chunk_table_offsets() {
    let table = ChunkTable::new(10, 4);
    assert_eq!(table.total_chunks(), 3);
    assert_eq!(table.chunk_size(), 4);
    assert_eq!(table.offset(0), Ok(0));
    assert_eq!(table.offset(2), Ok(8));
    assert!(matches!(table.offset(3), Err(Error::InvalidInput(_))));
    assert_eq!(ChunkTable::new(0, 4).total_chunks(), 0);
    assert_eq!(ChunkTable::new(8, 4).total_chunks(), 2);
}
