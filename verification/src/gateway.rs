//! The memory gateway's decision rules.
//!
//! The kernel calls themselves live in the surrounding application; this
//! module fixes what the gateway decides before any call: which strategy a
//! mode selects, how an address is canonicalised, and which request sizes
//! each path accepts.

use vstd::prelude::*;

verus! {

/// How the gateway reaches the bound process.
#[derive(Debug, Clone, Copy, PartialEq, Eq, Structural)]
pub enum MemoryAccessMode {
    /// Physical-frame path with a per-page status bitmap.
    Nothing,
    NonCacheable,
    WriteThrough,
    Normal,
    /// User-page pinning path; success marks every page.
    PageFault,
}

impl MemoryAccessMode {
    pub open spec fn spec_to_id(self) -> i32 {
        match self {
            MemoryAccessMode::Nothing => 0,
            MemoryAccessMode::NonCacheable => 1,
            MemoryAccessMode::WriteThrough => 2,
            MemoryAccessMode::Normal => 3,
            MemoryAccessMode::PageFault => 4,
        }
    }

    /// Decodes a numeric mode; ids outside `0..=4` are refused.
    pub fn from_id(id: i32) -> (r: Option<Self>)
        ensures
            r is Some <==> 0 <= id <= 4,
            r matches Some(m) ==> m.spec_to_id() == id,
    {
        match id {
            0 => Some(MemoryAccessMode::Nothing),
            1 => Some(MemoryAccessMode::NonCacheable),
            2 => Some(MemoryAccessMode::WriteThrough),
            3 => Some(MemoryAccessMode::Normal),
            4 => Some(MemoryAccessMode::PageFault),
            _ => None,
        }
    }

    pub fn to_id(&self) -> (r: i32)
        ensures
            r == self.spec_to_id(),
    {
        match self {
            MemoryAccessMode::Nothing => 0,
            MemoryAccessMode::NonCacheable => 1,
            MemoryAccessMode::WriteThrough => 2,
            MemoryAccessMode::Normal => 3,
            MemoryAccessMode::PageFault => 4,
        }
    }

    /// Whether reads in this mode go through the bound-process handle,
    /// which reports a per-page bitmap.
    pub fn uses_bound_path(&self) -> (r: bool)
        ensures
            r == (*self == MemoryAccessMode::NonCacheable || *self == MemoryAccessMode::WriteThrough
                || *self == MemoryAccessMode::Normal),
    {
        matches!(
            self,
            MemoryAccessMode::NonCacheable | MemoryAccessMode::WriteThrough
                | MemoryAccessMode::Normal
        )
    }
}

/// The canonical form of a scanned virtual address: the tag bits the
/// memory-tagging extension may set are cleared before any kernel call.
pub open spec fn spec_canonical_address(addr: u64) -> u64 {
    addr & 0x0000_FFFF_FFFF_FFFF
}

/// Clears the tag bits of `addr`.
pub fn canonical_address(addr: u64) -> (r: u64)
    ensures
        r == spec_canonical_address(addr),
        r <= 0x0000_FFFF_FFFF_FFFF,
{
    proof {
        assert(addr & 0x0000_FFFF_FFFF_FFFF <= 0x0000_FFFF_FFFF_FFFF) by (bit_vector);
    }
    addr & 0x0000_FFFF_FFFF_FFFF
}

/// Tag stripping makes tagged and untagged spellings of one address
/// identical: the gateway behaves the same on `addr` and on
/// `addr | 0xFFFF_0000_0000_0000`.
pub proof fn lemma_mte_stripping(addr: u64)
    ensures
        spec_canonical_address(addr) == spec_canonical_address(addr | 0xFFFF_0000_0000_0000),
{
    assert(addr & 0x0000_FFFF_FFFF_FFFF == (addr | 0xFFFF_0000_0000_0000)
        & 0x0000_FFFF_FFFF_FFFF) by (bit_vector);
}

/// Size cap of one physical-path read.
pub const PHYSICAL_READ_CAP: usize = 50 * 1024 * 1024;

/// Size cap of one bound-path read.
pub const BOUND_READ_CAP: usize = 64 * 1024;

/// Whether a read of `len` bytes is within the kernel cap of the given
/// mode's path.
pub fn read_len_accepted(mode: MemoryAccessMode, len: usize) -> (r: bool)
    ensures
        mode == MemoryAccessMode::Nothing ==> r == (len <= 50 * 1024 * 1024),
        (mode == MemoryAccessMode::NonCacheable || mode == MemoryAccessMode::WriteThrough || mode
            == MemoryAccessMode::Normal) ==> r == (len <= 64 * 1024),
        mode == MemoryAccessMode::PageFault ==> r == (len <= 50 * 1024 * 1024),
{
    if mode.uses_bound_path() {
        len <= BOUND_READ_CAP
    } else {
        len <= PHYSICAL_READ_CAP
    }
}

} // verus!
