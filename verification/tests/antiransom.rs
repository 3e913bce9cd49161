use cllx_fs_pro::antiransom::{WriteJournal, JournalEntry, Operation, count_recent};
use cllx_fs_pro::antiransom::journal::{self as journal, frame, split_frames, count_frames, last_operation_id, rebuild_index, detect_ransomware_at};
use cllx_fs_pro::Error;

#[test]
fn write_journal_records_and_counts() {
    let mut j = WriteJournal::new(10);
    j.record_write_at(3, b"data", 1000).unwrap();
    assert_eq!(j.entries.len(), 1);
    assert_eq!(j.write_count, 1);
    let e = &j.entries[0];
    assert_eq!(e.chunk_id, 3);
    assert_eq!(e.timestamp, 1000);
    assert!(matches!(e.operation, Operation::Write));
    assert_eq!(e.deep_hash, *blake3::hash(b"data").as_bytes());
    let mut le = [0u8; 8];
    le.copy_from_slice(&e.fast_hash[..8]);
    let mut be = [0u8; 8];
    be.copy_from_slice(&e.fast_hash[8..]);
    assert_eq!(u64::from_le_bytes(le), u64::from_be_bytes(be));
    j.record_write(4, b"more").unwrap();
    assert_eq!(j.write_count, 2);
}

#[test]
fn burst_of_recent_writes_is_detected() {
    let mut j = WriteJournal::new(2);
    assert!(j.record_write_at(0, b"a", 100).is_ok());
    assert!(j.record_write_at(1, b"b", 100).is_ok());
    // Third write: count 3 > 2, and 3 recent writes > 2 / 2.
    assert_eq!(j.record_write_at(2, b"c", 100), Err(Error::RansomwareDetected));
    assert_eq!(j.entries.len(), 3);
    // Much later, old writes no longer count.
    assert_eq!(j.detect_ransomware_at(1000), Ok(()));
    // Entries stamped in the future are not recent.
    assert_eq!(count_recent(&j.entries, 50, 60), 0);
    assert_eq!(count_recent(&j.entries, 159, 60), 3);
    assert_eq!(count_recent(&j.entries, 160, 60), 0);
}

#[test]
fn fast_hash_layout() {
    let h = WriteJournal::fast_hash_from(0x0102_0304_0506_0708);
    assert_eq!(h, [8, 7, 6, 5, 4, 3, 2, 1, 1, 2, 3, 4, 5, 6, 7, 8]);
}

#[test]
fn frames_roundtrip_and_errors() {
    let mut file = Vec::new();
    file.extend(frame(b"abc"));
    file.extend(frame(b""));
    file.extend(frame(b"xy"));
    assert_eq!(&file[..4], &[3, 0, 0, 0]);
    assert_eq!(split_frames(&file).unwrap(), vec![b"abc".to_vec(), vec![], b"xy".to_vec()]);
    assert_eq!(count_frames(&file), 3);
    // A trailing partial length prefix ends reading cleanly.
    let mut tail = file.clone();
    tail.extend([1u8, 0]);
    assert_eq!(split_frames(&tail).unwrap().len(), 3);
    // A frame running past the end is an I/O error, but still counted.
    let mut cut = file.clone();
    cut.extend([9u8, 0, 0, 0, 1]);
    assert!(matches!(split_frames(&cut), Err(Error::Io(_))));
    assert_eq!(count_frames(&cut), 4);
}

#[test]
fn journal_entries_and_index() {
    let entries = vec![
        journal::JournalEntry::write(10, 0, 0, [1u8; 32], 1),
        journal::JournalEntry::modify(11, 0, 0, [1u8; 32], [2u8; 32], 2),
        journal::JournalEntry::write(12, 1, 1024, [3u8; 32], 3),
    ];
    assert_eq!(last_operation_id(&entries), Some(3));
    assert_eq!(last_operation_id(&[]), None);
    let index = rebuild_index(&entries);
    assert_eq!(index.len(), 2);
    let chunk0 = index.iter().find(|(id, _)| *id == 0).unwrap();
    assert_eq!(chunk0.1, [2u8; 32]);
    let mut more = entries.clone();
    more.push(journal::JournalEntry::delete(13, 0, [2u8; 32], 4));
    let d = more.last().unwrap();
    assert_eq!(d.new_hash, [0u8; 32]);
    assert_eq!(d.old_hash, Some([2u8; 32]));
    let index = rebuild_index(&more);
    assert_eq!(index, vec![(1, [3u8; 32])]);
    assert!(detect_ransomware_at(&more, 13, 5, 3));
    assert!(!detect_ransomware_at(&more, 13, 5, 4));
    assert!(!detect_ransomware_at(&more, 20, 5, 0));
    assert!(matches!(more[1].operation, journal::Operation::Modify));
}

#[test]
fn old_journal_entry_type_is_reexported() {
    let e = JournalEntry { timestamp: 0, chunk_id: 0, operation: Operation::Delete, fast_hash: [0; 16], deep_hash: [0; 32] };
    assert_eq!(e.chunk_id, 0);
}
