// Anti-ransomware protection: a journal of writes that flags bursts of recent writes.
pub mod journal;

use vstd::prelude::*;
use std::collections::hash_map::DefaultHasher;
use std::hash::{Hash, Hasher};
use crate::base::error::Error;
use crate::base::bytes::{u64_le, u64_byte, u64_to_le_bytes};
use crate::base::digest::{blake3_hash, blake3_digest};
use crate::base::clock::now_secs;

pub use journal::{JournalEntry as JournalEntryV2, Operation as JournalOperation};

verus! {

/// The 8 big-endian bytes of a 64-bit value.
pub open spec fn u64_be(x: u64) -> Seq<u8> {
    Seq::new(8, |j: int| u64_byte(x, 7 - j))
}

/// The 16-byte fast hash made from a 64-bit hash: its little-endian bytes, then its
/// big-endian bytes.
pub open spec fn fast_hash_of(h: u64) -> Seq<u8> {
    u64_le(h) + u64_be(h)
}

/// Whether an entry stamped `timestamp` lies within `window` seconds before `now`
/// (one stamped after `now` does not).
pub open spec fn is_recent(timestamp: u64, now: u64, window: u64) -> bool {
    timestamp <= now && now - timestamp < window
}

/// Number of entries of `entries` within `window` seconds before `now`.
pub open spec fn recent_count(entries: Seq<JournalEntry>, now: u64, window: u64) -> nat
    decreases entries.len(),
{
    if entries.len() == 0 {
        0
    } else {
        recent_count(entries.drop_last(), now, window) + (if is_recent(entries.last().timestamp, now, window) {
            1nat
        } else {
            0nat
        })
    }
}

/// The window within which writes count as recent, in seconds.
pub open spec fn recent_window() -> u64 {
    60
}

/// Trusted: `<[u8] as Hash>::hash(data, state)`. Nothing is claimed of what it feeds
/// the hasher: std writes a length prefix whose bytes depend on the machine's word size.
#[verifier::external_body]
fn hash_slice(data: &[u8], state: &mut DefaultHasher) {
    data.hash(state)
}

#[derive(Debug, Clone, Copy, PartialEq, Eq)]
pub enum Operation {
    Write,
    Modify,
    Delete,
}

#[derive(Debug, Clone, Copy)]
pub struct JournalEntry {
    pub timestamp: u64,
    pub chunk_id: u64,
    pub operation: Operation,
    pub fast_hash: [u8; 16],
    pub deep_hash: [u8; 32],
}

#[derive(Debug, Clone)]
pub struct WriteJournal {
    pub entries: Vec<JournalEntry>,
    pub write_count: usize,
    pub threshold: usize,
}

/// What `record_write_at` leaves in the journal and returns: one more entry, stamped
/// `now`, for a write of `data` to `chunk_id`; one more write counted; and, once the
/// count is past the threshold, `RansomwareDetected` when more than half the threshold of
/// entries are recent.
pub open spec fn recorded_write(
    before: WriteJournal,
    after: WriteJournal,
    chunk_id: u64,
    data: Seq<u8>,
    now: u64,
    r: Result<(), Error>,
) -> bool {
    let e = after.entries@.last();
    &&& after.entries@.len() == before.entries@.len() + 1
    &&& after.entries@.drop_last() == before.entries@
    &&& e.timestamp == now
    &&& e.chunk_id == chunk_id
    &&& e.operation == Operation::Write
    &&& e.deep_hash@ == blake3_digest(data)
    &&& exists|h: u64| e.fast_hash@ == fast_hash_of(h)
    &&& after.write_count == before.write_count + 1
    &&& after.threshold == before.threshold
    &&& (r is Err <==> after.write_count > after.threshold && recent_count(
        after.entries@,
        now,
        recent_window(),
    ) > after.threshold / 2)
    &&& (r matches Err(e) ==> e is RansomwareDetected)
}

impl WriteJournal {
    pub fn new(threshold: usize) -> (j: Self)
        ensures
            j.entries@.len() == 0,
            j.write_count == 0,
            j.threshold == threshold,
    {
        Self { entries: Vec::new(), write_count: 0, threshold }
    }

    /// Record a write operation at time `now`.
    pub fn record_write_at(&mut self, chunk_id: u64, data: &[u8], now: u64) -> (r: Result<(), Error>)
        requires
            old(self).write_count < usize::MAX,
        ensures
            recorded_write(*old(self), *final(self), chunk_id, data@, now, r),
    {
        let fast_hash = Self::fast_hash(data);
        let deep_hash = blake3_hash(data);
        self.entries.push(
            JournalEntry { timestamp: now, chunk_id, operation: Operation::Write, fast_hash, deep_hash },
        );
        self.write_count = self.write_count + 1;
        assert(self.entries@.drop_last() =~= old(self).entries@);
        // Check for ransomware behavior
        if self.write_count > self.threshold {
            self.detect_ransomware_at(now)
        } else {
            Ok(())
        }
    }

    /// Record a write operation.
    pub fn record_write(&mut self, chunk_id: u64, data: &[u8]) -> (r: Result<(), Error>)
        requires
            old(self).write_count < usize::MAX,
        ensures
            exists|now: u64| recorded_write(*old(self), *final(self), chunk_id, data@, now, r),
    {
        let now = now_secs();
        self.record_write_at(chunk_id, data, now)
    }

    /// Detect suspicious write patterns at time `now`: more than half the threshold of
    /// writes within the last minute.
    pub fn detect_ransomware_at(&self, now: u64) -> (r: Result<(), Error>)
        ensures
            r is Err <==> recent_count(self.entries@, now, recent_window()) > self.threshold / 2,
            r matches Err(e) ==> e is RansomwareDetected,
    {
        let recent_writes = count_recent(self.entries.as_slice(), now, 60);
        if recent_writes > self.threshold / 2 {
            return Err(Error::RansomwareDetected);
        }
        Ok(())
    }

    /// Hash `data` with the standard library's default hasher into 16 bytes.
    fn fast_hash(data: &[u8]) -> (r: [u8; 16])
        ensures
            exists|h: u64| r@ == fast_hash_of(h),
    {
        let mut hasher = DefaultHasher::new();
        hash_slice(data, &mut hasher);
        let hash = hasher.finish();
        Self::fast_hash_from(hash)
    }

    /// The 16-byte fast hash of a 64-bit hash.
    pub fn fast_hash_from(hash: u64) -> (r: [u8; 16])
        ensures
            r@ == fast_hash_of(hash),
    {
        let le = u64_to_le_bytes(hash);
        let r: [u8; 16] = [
            le[0], le[1], le[2], le[3], le[4], le[5], le[6], le[7],
            le[7], le[6], le[5], le[4], le[3], le[2], le[1], le[0],
        ];
        assert(r@ =~= fast_hash_of(hash));
        r
    }
}

/// Number of entries within `window` seconds before `now`.
pub fn count_recent(entries: &[JournalEntry], now: u64, window: u64) -> (n: usize)
    ensures
        n == recent_count(entries@, now, window),
{
    let mut n: usize = 0;
    let mut i: usize = 0;
    while i < entries.len()
        invariant
            i <= entries@.len(),
            n == recent_count(entries@.take(i as int), now, window),
            n <= i,
        decreases entries@.len() - i,
    {
        assert(entries@.take(i as int + 1).drop_last() =~= entries@.take(i as int));
        let e = entries[i];
        if e.timestamp <= now && now - e.timestamp < window {
            n = n + 1;
        }
        i = i + 1;
    }
    assert(entries@.take(entries@.len() as int) =~= entries@);
    n
}

} // verus!
