use cllx_fs_pro::container::{Container, ContainerBuilder, SimpleContainer, SuperHeaderV1, HashAlgo, CONTAINER_VERSION};
use cllx_fs_pro::container::flags::{ANTI_RANSOM, STEALTH_MODE, DEDUP};
use cllx_fs_pro::container::header::MAGIC;
use cllx_fs_pro::container::simple_format::{concat_chunks, split_by_sizes};
use cllx_fs_pro::base::MasterKey;
use cllx_fs_pro::Error;

#[test]
fn builder_sets_header_and_policy() {
    let c = Container::builder()
        .chunk_size(4096)
        .anti_ransom(true)
        .stealth_mode(true)
        .timelock(false)
        .dedup(true)
        .master_key(MasterKey::from_bytes([1u8; 32]))
        .build()
        .unwrap();
    assert_eq!(c.header.chunk_size, 4096);
    assert_eq!(c.header.magic, MAGIC);
    assert_eq!(&c.header.magic, b"CLLXFS-PRO\0");
    assert_eq!(c.header.n, 1024);
    assert_eq!(c.header.q, 12289);
    assert!(matches!(c.header.tree_hash_algo, HashAlgo::Blake3));
    assert!(c.policy.anti_ransom_mode && c.policy.stealth_mode && c.policy.dedup_mode);
    assert!(!c.policy.timelock_flag && !c.policy.share_mode);
    assert!(c.capsules.is_empty() && c.chunk_index.entries.is_empty() && c.merkle_tree.is_none());
    assert!(matches!(c.decrypt_master_key(&[0u8; 4]), Err(Error::CapsuleDecryptFailed)));
    let d = ContainerBuilder::default().build().unwrap();
    assert_eq!(d.header.chunk_size, 1024 * 1024);
    assert_ne!(d.header.file_nonce, c.header.file_nonce);
}

#[test]
fn header_flags() {
    let mut h = SuperHeaderV1::new(1024, 1, [0u8; 12]);
    assert_eq!(&h.magic, b"CLLXFS-PRO\0");
    assert_eq!(h.version, CONTAINER_VERSION);
    assert!(!h.has_flag(ANTI_RANSOM));
    h.set_flag(ANTI_RANSOM);
    h.set_flag(DEDUP);
    assert!(h.has_flag(ANTI_RANSOM) && h.has_flag(DEDUP));
    assert!(!h.has_flag(STEALTH_MODE));
    assert_eq!(h.flags, 0b1001);
    assert!(h.validate().is_ok());
    h.magic[0] = b'X';
    assert_eq!(h.validate(), Err(Error::InvalidFormat));
}

#[test]
fn simple_container_fields_and_magic_check() {
    let c = SimpleContainer::new(1024, 5, [0u8; 12], vec![9, 9, 9], vec![5], vec![1, 2, 3, 4, 5], Some("a.txt".to_string()), None)
        .unwrap();
    assert_eq!(c.magic, SimpleContainer::MAGIC);
    assert_eq!(&c.magic, b"CLLXFS01");
    assert_eq!(c.capsule_size, 3);
    assert_eq!(c.version, 1);
    let mut bad = c.clone();
    bad.magic[7] = b'2';
    assert!(matches!(bad.validate(), Err(Error::InvalidFormat)));
    assert_eq!(c.clone().validate().unwrap().total_chunks, 5);
}

#[test]
fn concat_then_split_gives_the_chunks() {
    let chunks = vec![b"ab".to_vec(), vec![], b"cde".to_vec()];
    let (data, sizes) = concat_chunks(&chunks);
    assert_eq!(data, b"abcde".to_vec());
    assert_eq!(sizes, vec![2, 0, 3]);
    assert_eq!(split_by_sizes(&data, &sizes), chunks);
}
