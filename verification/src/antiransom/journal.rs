// Append-only journal for recovery: its entries, their framing in the journal file, and
// what the entries say about the chunks.
use vstd::prelude::*;
use std::collections::HashMap;
use vstd::std_specs::iter::IteratorSpec;
use crate::base::error::Error;
use crate::base::bytes::{u32_le, u32_to_le_bytes, append_bytes, le_u32_value, u32_from_le, lemma_u32_le_value};
use vstd::slice::slice_subrange;

verus! {

broadcast use vstd::std_specs::hash::group_hash_axioms;

/// Journal entry for write operations.
#[derive(Debug, Clone, Copy)]
pub struct JournalEntry {
    pub timestamp: u64,
    pub chunk_id: u64,
    pub operation: Operation,
    pub write_offset: u64,
    pub old_hash: Option<[u8; 32]>,
    pub new_hash: [u8; 32],
    pub operation_id: u64,
}

#[derive(Debug, Clone, Copy, PartialEq, Eq)]
pub enum Operation {
    Write,
    Modify,
    Delete,
}

impl JournalEntry {
    /// The entry recording a write of `new_hash` to `chunk_id` at `timestamp`.
    pub fn write(timestamp: u64, chunk_id: u64, write_offset: u64, new_hash: [u8; 32], operation_id: u64) -> (e: Self)
        ensures
            e == (JournalEntry {
                timestamp,
                chunk_id,
                operation: Operation::Write,
                write_offset,
                old_hash: None,
                new_hash,
                operation_id,
            }),
    {
        JournalEntry { timestamp, chunk_id, operation: Operation::Write, write_offset, old_hash: None, new_hash, operation_id }
    }

    /// The entry recording that `chunk_id` changed from `old_hash` to `new_hash`.
    pub fn modify(
        timestamp: u64,
        chunk_id: u64,
        write_offset: u64,
        old_hash: [u8; 32],
        new_hash: [u8; 32],
        operation_id: u64,
    ) -> (e: Self)
        ensures
            e == (JournalEntry {
                timestamp,
                chunk_id,
                operation: Operation::Modify,
                write_offset,
                old_hash: Some(old_hash),
                new_hash,
                operation_id,
            }),
    {
        JournalEntry {
            timestamp,
            chunk_id,
            operation: Operation::Modify,
            write_offset,
            old_hash: Some(old_hash),
            new_hash,
            operation_id,
        }
    }

    /// The entry recording that `chunk_id`, last holding `old_hash`, was deleted: no
    /// offset, an all-zero new hash.
    pub fn delete(timestamp: u64, chunk_id: u64, old_hash: [u8; 32], operation_id: u64) -> (e: Self)
        ensures
            e.timestamp == timestamp,
            e.chunk_id == chunk_id,
            e.operation == Operation::Delete,
            e.write_offset == 0,
            e.old_hash == Some(old_hash),
            e.new_hash@ == Seq::new(32, |i: int| 0u8),
            e.operation_id == operation_id,
    {
        let e = JournalEntry {
            timestamp,
            chunk_id,
            operation: Operation::Delete,
            write_offset: 0,
            old_hash: Some(old_hash),
            new_hash: [0u8; 32],
            operation_id,
        };
        assert(e.new_hash@ =~= Seq::new(32, |i: int| 0u8));
        e
    }
}

/// A record in the journal file: its length as 4 little-endian bytes (truncated to 32
/// bits), then its bytes.
pub open spec fn spec_frame(payload: Seq<u8>) -> Seq<u8> {
    u32_le(payload.len() as u32) + payload
}

/// The records that follow the first `done` bytes of a journal file, read as length-
/// prefixed frames. Reading stops cleanly where fewer than 4 bytes are left; a frame
/// whose bytes run past the end makes the file unreadable (`None`).
pub open spec fn spec_frames(bytes: Seq<u8>, done: int) -> Option<Seq<Seq<u8>>>
    decreases bytes.len() - done,
{
    if done < 0 || bytes.len() - done < 4 {
        Some(Seq::empty())
    } else {
        let len = le_u32_value(bytes.subrange(done, done + 4));
        let start = done + 4;
        if bytes.len() - start < len {
            None
        } else {
            match spec_frames(bytes, start + len) {
                Some(rest) => Some(seq![bytes.subrange(start, start + len)] + rest),
                None => None,
            }
        }
    }
}

/// Number of length prefixes met when skipping from frame to frame past `done` (a frame
/// that runs past the end still counts).
pub open spec fn spec_frame_count(bytes: Seq<u8>, done: int) -> nat
    decreases bytes.len() - done,
{
    if done < 0 || bytes.len() - done < 4 {
        0
    } else {
        let len = le_u32_value(bytes.subrange(done, done + 4));
        if bytes.len() - done - 4 < len {
            1
        } else {
            1 + spec_frame_count(bytes, done + 4 + len)
        }
    }
}

/// The length-prefixed record of `payload`.
pub fn frame(payload: &[u8]) -> (out: Vec<u8>)
    ensures
        out@ == spec_frame(payload@),
{
    let len = payload.len() as u32;
    let mut out: Vec<u8> = Vec::new();
    append_bytes(&mut out, &u32_to_le_bytes(len));
    append_bytes(&mut out, payload);
    out
}

/// The records of a journal file, in order.
pub fn split_frames(bytes: &[u8]) -> (r: Result<Vec<Vec<u8>>, Error>)
    ensures
        match spec_frames(bytes@, 0) {
            Some(fs) => r matches Ok(v) && v@.len() == fs.len() && forall|i: int| 0 <= i < fs.len() ==> #[trigger] v@[i]@ == fs[i],
            None => r matches Err(Error::Io(_)),
        },
{
    let mut out: Vec<Vec<u8>> = Vec::new();
    let mut done: usize = 0;
    let n = bytes.len();
    while n - done >= 4
        invariant
            n == bytes@.len(),
            done <= n,
            spec_frames(bytes@, 0) == match spec_frames(bytes@, done as int) {
                Some(rest) => Some(out@.map_values(|v: Vec<u8>| v@) + rest),
                None => None::<Seq<Seq<u8>>>,
            },
        decreases n - done,
    {
        let len = u32_from_le(slice_subrange(bytes, done, done + 4)) as usize;
        let start = done + 4;
        if n - start < len {
            return Err(Error::Io("failed to fill whole buffer".to_owned()));
        }
        let payload = slice_subrange(bytes, start, start + len);
        let mut v: Vec<u8> = Vec::new();
        append_bytes(&mut v, payload);
        proof {
            let ghost old_out = out@.map_values(|v: Vec<u8>| v@);
            assert(out@.push(v).map_values(|v: Vec<u8>| v@) =~= old_out.push(payload@));
            match spec_frames(bytes@, start + len) {
                Some(rest) => {
                    assert(old_out + (seq![payload@] + rest) =~= old_out.push(payload@) + rest);
                },
                None => {},
            }
        }
        out.push(v);
        done = start + len;
    }
    proof {
        assert(out@.map_values(|v: Vec<u8>| v@) + Seq::<Seq<u8>>::empty() =~= out@.map_values(|v: Vec<u8>| v@));
    }
    Ok(out)
}

/// Number of records in a journal file, skipping from length prefix to length prefix.
pub fn count_frames(bytes: &[u8]) -> (n: u64)
    requires
        bytes@.len() <= u64::MAX,
    ensures
        n == spec_frame_count(bytes@, 0),
{
    let mut count: u64 = 0;
    let mut done: usize = 0;
    let n = bytes.len();
    while n - done >= 4
        invariant
            n == bytes@.len(),
            n <= u64::MAX,
            done <= n,
            count <= done,
            spec_frame_count(bytes@, 0) == count + spec_frame_count(bytes@, done as int),
        decreases n - done,
    {
        let len = u32_from_le(slice_subrange(bytes, done, done + 4)) as usize;
        count = count + 1;
        if n - done - 4 < len {
            return count;
        }
        done = done + 4 + len;
    }
    count
}

/// The operation id of the last entry; `None` for an empty journal.
pub fn last_operation_id(entries: &[JournalEntry]) -> (r: Option<u64>)
    ensures
        entries@.len() == 0 ==> r is None,
        entries@.len() > 0 ==> r == Some(entries@.last().operation_id),
{
    if entries.len() == 0 {
        None
    } else {
        Some(entries[entries.len() - 1].operation_id)
    }
}

/// The chunks the entries leave, by id: writes and modifications set a chunk's hash,
/// deletions drop it.
pub open spec fn index_after(entries: Seq<JournalEntry>) -> Map<u64, [u8; 32]>
    decreases entries.len(),
{
    if entries.len() == 0 {
        Map::empty()
    } else {
        let prev = index_after(entries.drop_last());
        let e = entries.last();
        match e.operation {
            Operation::Delete => prev.remove(e.chunk_id),
            _ => prev.insert(e.chunk_id, e.new_hash),
        }
    }
}

/// Rebuild the chunk index from journal entries: each live chunk once, with its last
/// hash, in no particular order.
pub fn rebuild_index(entries: &[JournalEntry]) -> (r: Vec<(u64, [u8; 32])>)
    ensures
        forall|i: int| 0 <= i < r@.len() ==> index_after(entries@).contains_key(#[trigger] r@[i].0)
            && index_after(entries@)[r@[i].0] == r@[i].1,
        forall|id: u64| index_after(entries@).contains_key(id) ==> exists|i: int| 0 <= i < r@.len() && #[trigger] r@[i].0 == id,
        forall|i: int, j: int| 0 <= i < j < r@.len() ==> r@[i].0 != r@[j].0,
{
    let mut index: HashMap<u64, [u8; 32]> = HashMap::new();
    let mut i: usize = 0;
    while i < entries.len()
        invariant
            i <= entries@.len(),
            index@ == index_after(entries@.take(i as int)),
        decreases entries@.len() - i,
    {
        assert(entries@.take(i as int + 1).drop_last() =~= entries@.take(i as int));
        let e = entries[i];
        match e.operation {
            Operation::Write | Operation::Modify => {
                index.insert(e.chunk_id, e.new_hash);
            },
            Operation::Delete => {
                index.remove(&e.chunk_id);
            },
        }
        i = i + 1;
    }
    assert(entries@.take(entries@.len() as int) =~= entries@);
    let ghost m = index@;
    let ghost items = vstd::std_specs::hash::spec_hash_map_iter(&index).remaining();
    let mut out: Vec<(u64, [u8; 32])> = Vec::new();
    for item in it: index.iter()
        invariant
            index@ == m,
            m == index_after(entries@),
            it.seq() == items,
            items.len() == m.dom().len(),
            items.no_duplicates(),
            forall|k: int|
                #![trigger items[k]]
                0 <= k < items.len() ==> m.contains_key(*items[k].0) && m[*items[k].0] == *items[k].1,
            forall|id: u64| #[trigger] m.contains_key(id) ==> items.contains((&id, &m[id])),
            out@.len() == it.index(),
            forall|k: int| 0 <= k < out@.len() ==> #[trigger] out@[k] == (*items[k].0, *items[k].1),
    {
        let (k, v) = item;
        out.push((*k, *v));
    }
    proof {
        assert forall|a: int, b: int| 0 <= a < b < out@.len() implies out@[a].0 != out@[b].0 by {
            assert(out@[a] == (*items[a].0, *items[a].1));
            assert(out@[b] == (*items[b].0, *items[b].1));
            if out@[a].0 == out@[b].0 {
                assert(items[a] == items[b]);
            }
        }
        assert forall|id: u64| m.contains_key(id) implies exists|i: int| 0 <= i < out@.len() && #[trigger] out@[i].0 == id by {
            assert(items.contains((&id, &m[id])));
            let i = choose|i: int| 0 <= i < items.len() && items[i] == (&id, &m[id]);
            assert(out@[i] == (*items[i].0, *items[i].1));
        }
        assert forall|i: int| 0 <= i < out@.len() implies index_after(entries@).contains_key(#[trigger] out@[i].0)
            && index_after(entries@)[out@[i].0] == out@[i].1 by {
            assert(out@[i] == (*items[i].0, *items[i].1));
            assert(m.contains_key(*items[i].0));
        }
    }
    out
}

/// Whether more than `threshold` entries lie within `window_seconds` before `now`.
pub fn detect_ransomware_at(entries: &[JournalEntry], now: u64, window_seconds: u64, threshold: usize) -> (r: bool)
    ensures
        r == (recent_journal_count(entries@, now, window_seconds) > threshold),
{
    let mut n: usize = 0;
    let mut i: usize = 0;
    while i < entries.len()
        invariant
            i <= entries@.len(),
            n == recent_journal_count(entries@.take(i as int), now, window_seconds),
            n <= i,
        decreases entries@.len() - i,
    {
        assert(entries@.take(i as int + 1).drop_last() =~= entries@.take(i as int));
        let e = entries[i];
        if e.timestamp <= now && now - e.timestamp < window_seconds {
            n = n + 1;
        }
        i = i + 1;
    }
    assert(entries@.take(entries@.len() as int) =~= entries@);
    n > threshold
}

/// Number of journal entries within `window` seconds before `now` (one stamped after
/// `now` does not count).
pub open spec fn recent_journal_count(entries: Seq<JournalEntry>, now: u64, window: u64) -> nat
    decreases entries.len(),
{
    if entries.len() == 0 {
        0
    } else {
        recent_journal_count(entries.drop_last(), now, window) + (if entries.last().timestamp <= now && now
            - entries.last().timestamp < window {
            1nat
        } else {
            0nat
        })
    }
}

/// Law: reading back a journal file made of framed records gives the records, in order.
pub proof fn lemma_frames_roundtrip(payloads: Seq<Seq<u8>>)
    requires
        forall|i: int| 0 <= i < payloads.len() ==> #[trigger] payloads[i].len() <= u32::MAX,
    ensures
        spec_frames(concat_frames(payloads), 0) == Some(payloads),
    decreases payloads.len(),
{
    lemma_frames_suffix(payloads, Seq::empty());
    assert(Seq::<u8>::empty() + concat_frames(payloads) =~= concat_frames(payloads));
}

/// The file made of the framed records of `payloads`, in order.
pub open spec fn concat_frames(payloads: Seq<Seq<u8>>) -> Seq<u8>
    decreases payloads.len(),
{
    if payloads.len() == 0 {
        Seq::empty()
    } else {
        spec_frame(payloads[0]) + concat_frames(payloads.drop_first())
    }
}

proof fn lemma_frames_suffix(payloads: Seq<Seq<u8>>, prefix: Seq<u8>)
    requires
        forall|i: int| 0 <= i < payloads.len() ==> #[trigger] payloads[i].len() <= u32::MAX,
    ensures
        spec_frames(prefix + concat_frames(payloads), prefix.len() as int) == Some(payloads),
    decreases payloads.len(),
{
    let bytes = prefix + concat_frames(payloads);
    let done = prefix.len() as int;
    if payloads.len() == 0 {
        assert(bytes.len() - done == 0);
        assert(payloads =~= Seq::<Seq<u8>>::empty());
    } else {
        let p = payloads[0];
        let rest = payloads.drop_first();
        assert(p.len() <= u32::MAX);
        assert(bytes.subrange(done, done + 4) =~= u32_le(p.len() as u32));
        lemma_u32_le_value(p.len() as u32);
        assert((p.len() as u32) as int == p.len());
        let start = done + 4;
        assert(bytes.subrange(start, start + p.len()) =~= p);
        let prefix2 = prefix + spec_frame(p);
        assert(bytes =~= prefix2 + concat_frames(rest));
        assert forall|i: int| 0 <= i < rest.len() implies #[trigger] rest[i].len() <= u32::MAX by {
            assert(rest[i] == payloads[i + 1]);
        }
        lemma_frames_suffix(rest, prefix2);
        assert(seq![p] + rest =~= payloads);
    }
}

} // verus!
