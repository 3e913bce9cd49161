//! Container feature flags (bits of `SuperHeaderV1::flags`).
use vstd::prelude::*;

verus! {

pub const ANTI_RANSOM: u32 = 1 << 0;

pub const STEALTH_MODE: u32 = 1 << 1;

pub const TIMELOCK: u32 = 1 << 2;

pub const DEDUP: u32 = 1 << 3;

pub const COMPRESSED: u32 = 1 << 4;

} // verus!
