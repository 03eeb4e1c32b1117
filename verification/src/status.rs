//! Progress and status reporting.
//!
//! The engine publishes its state through a fixed-layout 48-byte
//! little-endian record; an outside reader polls the same bytes.  The
//! verified buffer owns its byte image and keeps the layout exact; the
//! surrounding application copies the image into whatever shared region
//! the reader watches.

use vstd::prelude::*;
use vstd::bytes::{u32_from_le_bytes, u32_to_le_bytes, spec_u32_from_le_bytes, u64_from_le_bytes,
    u64_to_le_bytes, spec_u64_from_le_bytes};

verus! {

/// The byte length of the status record.
pub const SHARED_BUFFER_SIZE: usize = 48;

/// What the engine is doing right now.
#[derive(Debug, Clone, Copy, PartialEq, Eq, Structural)]
pub enum ScanPhase {
    Idle,
    ScanningPointers,
    BuildingChains,
    Completed,
    Cancelled,
    Error,
    WritingFile,
    Searching,
}

impl ScanPhase {
    /// The numeric identifier the byte layout stores.
    pub open spec fn spec_to_id(self) -> i32 {
        match self {
            ScanPhase::Idle => 0,
            ScanPhase::ScanningPointers => 1,
            ScanPhase::BuildingChains => 2,
            ScanPhase::Completed => 3,
            ScanPhase::Cancelled => 4,
            ScanPhase::Error => 5,
            ScanPhase::WritingFile => 6,
            ScanPhase::Searching => 7,
        }
    }

    pub fn to_id(&self) -> (r: i32)
        ensures
            r == self.spec_to_id(),
    {
        match self {
            ScanPhase::Idle => 0,
            ScanPhase::ScanningPointers => 1,
            ScanPhase::BuildingChains => 2,
            ScanPhase::Completed => 3,
            ScanPhase::Cancelled => 4,
            ScanPhase::Error => 5,
            ScanPhase::WritingFile => 6,
            ScanPhase::Searching => 7,
        }
    }

    /// Decodes a phase identifier; anything unknown reads as `Idle`.
    pub fn from_id(value: i32) -> (r: Self)
        ensures
            0 <= value <= 7 ==> r.spec_to_id() == value,
            !(0 <= value <= 7) ==> r == ScanPhase::Idle,
    {
        match value {
            0 => ScanPhase::Idle,
            1 => ScanPhase::ScanningPointers,
            2 => ScanPhase::BuildingChains,
            3 => ScanPhase::Completed,
            4 => ScanPhase::Cancelled,
            5 => ScanPhase::Error,
            6 => ScanPhase::WritingFile,
            7 => ScanPhase::Searching,
            _ => ScanPhase::Idle,
        }
    }
}

/// Why an operation was refused or abandoned.
#[derive(Debug, Clone, Copy, PartialEq, Eq, Structural)]
pub enum ScanErrorCode {
    NoError,
    NotInitialized,
    InvalidAddress,
    MemoryReadFailed,
    InternalError,
    AlreadyScanning,
    NoProcessBound,
    StorageError,
}

impl ScanErrorCode {
    /// The numeric identifier the byte layout stores.
    pub open spec fn spec_to_id(self) -> i32 {
        match self {
            ScanErrorCode::NoError => 0,
            ScanErrorCode::NotInitialized => 1,
            ScanErrorCode::InvalidAddress => 2,
            ScanErrorCode::MemoryReadFailed => 3,
            ScanErrorCode::InternalError => 4,
            ScanErrorCode::AlreadyScanning => 5,
            ScanErrorCode::NoProcessBound => 6,
            ScanErrorCode::StorageError => 7,
        }
    }

    pub fn to_id(&self) -> (r: i32)
        ensures
            r == self.spec_to_id(),
    {
        match self {
            ScanErrorCode::NoError => 0,
            ScanErrorCode::NotInitialized => 1,
            ScanErrorCode::InvalidAddress => 2,
            ScanErrorCode::MemoryReadFailed => 3,
            ScanErrorCode::InternalError => 4,
            ScanErrorCode::AlreadyScanning => 5,
            ScanErrorCode::NoProcessBound => 6,
            ScanErrorCode::StorageError => 7,
        }
    }
}

/// Byte offsets of the record's fields.
pub const OFFSET_PHASE: usize = 0;

pub const OFFSET_PROGRESS: usize = 4;

pub const OFFSET_REGIONS_DONE: usize = 8;

pub const OFFSET_POINTERS_FOUND: usize = 12;

pub const OFFSET_CHAINS_FOUND: usize = 20;

pub const OFFSET_CURRENT_DEPTH: usize = 28;

pub const OFFSET_HEARTBEAT: usize = 32;

pub const OFFSET_CANCEL_FLAG: usize = 36;

pub const OFFSET_ERROR_CODE: usize = 40;

/// The signed 32-bit field stored little-endian at `off` of a byte image.
pub open spec fn spec_bytes_field_i32(bytes: Seq<u8>, off: int) -> i32
    recommends
        0 <= off,
        off + 4 <= bytes.len(),
{
    spec_u32_from_le_bytes(bytes.subrange(off, off + 4)) as i32
}

/// The signed 64-bit field stored little-endian at `off` of a byte image.
pub open spec fn spec_bytes_field_i64(bytes: Seq<u8>, off: int) -> i64
    recommends
        0 <= off,
        off + 8 <= bytes.len(),
{
    spec_u64_from_le_bytes(bytes.subrange(off, off + 8)) as i64
}

/// Whether `b2` matches `b1` everywhere outside the byte window
/// `[at, at + width)`.
pub open spec fn spec_same_outside(b1: Seq<u8>, b2: Seq<u8>, at: int, width: int) -> bool {
    &&& b2.len() == b1.len()
    &&& forall|i: int| 0 <= i < b2.len() && !(at <= i < at + width) ==> b2[i] == b1[i]
}

/// A 32-bit field whose window a write did not touch keeps its value.
pub proof fn lemma_field_i32_frame(b1: Seq<u8>, b2: Seq<u8>, at: int, width: int, off: int)
    requires
        spec_same_outside(b1, b2, at, width),
        0 <= off,
        off + 4 <= b1.len(),
        off + 4 <= at || at + width <= off,
    ensures
        spec_bytes_field_i32(b2, off) == spec_bytes_field_i32(b1, off),
{
    assert(b2.subrange(off, off + 4) =~= b1.subrange(off, off + 4));
}

/// A 64-bit field whose window a write did not touch keeps its value.
pub proof fn lemma_field_i64_frame(b1: Seq<u8>, b2: Seq<u8>, at: int, width: int, off: int)
    requires
        spec_same_outside(b1, b2, at, width),
        0 <= off,
        off + 8 <= b1.len(),
        off + 8 <= at || at + width <= off,
    ensures
        spec_bytes_field_i64(b2, off) == spec_bytes_field_i64(b1, off),
{
    assert(b2.subrange(off, off + 8) =~= b1.subrange(off, off + 8));
}

/// The status record: a fixed-layout little-endian byte image plus the
/// monotonically growing heartbeat counter.
///
/// The buffer starts detached; writes are dropped and reads return zero
/// until a byte image of at least the record size is attached.
pub struct PointerScanSharedBuffer {
    bytes: Vec<u8>,
    attached: bool,
    heartbeat_counter: u32,
}

impl PointerScanSharedBuffer {
    /// The byte image, empty while detached.
    pub closed spec fn spec_bytes(&self) -> Seq<u8> {
        self.bytes@
    }

    pub closed spec fn spec_attached(&self) -> bool {
        self.attached
    }

    /// An attached buffer always spans at least the record.
    pub open spec fn wf(&self) -> bool {
        self.spec_attached() ==> self.spec_bytes().len() >= 48
    }

    /// The signed 32-bit field stored little-endian at `off`.
    pub open spec fn spec_field_i32(&self, off: int) -> i32
        recommends
            0 <= off,
            off + 4 <= self.spec_bytes().len(),
    {
        spec_bytes_field_i32(self.spec_bytes(), off)
    }

    /// The signed 64-bit field stored little-endian at `off`.
    pub open spec fn spec_field_i64(&self, off: int) -> i64
        recommends
            0 <= off,
            off + 8 <= self.spec_bytes().len(),
    {
        spec_bytes_field_i64(self.spec_bytes(), off)
    }

    /// The number the liveness counter will publish next.
    pub closed spec fn spec_heartbeat(&self) -> u32 {
        self.heartbeat_counter
    }

    /// A detached buffer.
    pub fn new() -> (r: Self)
        ensures
            r.wf(),
            !r.spec_attached(),
    {
        PointerScanSharedBuffer { bytes: Vec::new(), attached: false, heartbeat_counter: 0 }
    }

    /// Attaches a zeroed byte image of `len` bytes; refused when shorter
    /// than the record.
    pub fn set(&mut self, len: usize) -> (r: bool)
        requires
            old(self).wf(),
            len < 0x1_0000_0000,
        ensures
            final(self).wf(),
            r == (len >= 48),
            r ==> final(self).spec_attached() && final(self).spec_bytes() =~= Seq::new(
                len as nat,
                |i: int| 0u8,
            ),
            !r ==> *final(self) == *old(self),
    {
        if len < SHARED_BUFFER_SIZE {
            return false;
        }
        self.bytes = vec![0u8; len];
        self.attached = true;
        proof {
            assert(self.bytes@ =~= Seq::new(len as nat, |i: int| 0u8));
        }
        true
    }

    pub fn is_initialized(&self) -> (r: bool)
        ensures
            r == self.spec_attached(),
    {
        self.attached
    }

    /// Zeroes the whole record; a detached buffer is left alone.
    pub fn reset(&mut self)
        requires
            old(self).wf(),
        ensures
            final(self).wf(),
            final(self).spec_attached() == old(self).spec_attached(),
            final(self).spec_bytes().len() == old(self).spec_bytes().len(),
            old(self).spec_attached() ==> forall|i: int|
                0 <= i < final(self).spec_bytes().len() ==> final(self).spec_bytes()[i] == 0u8,
    {
        if !self.attached {
            return ;
        }
        let n: usize = self.bytes.len();
        let mut i: usize = 0;
        while i < n
            invariant
                i <= n,
                n == self.bytes@.len(),
                self.attached == old(self).attached,
                self.heartbeat_counter == old(self).heartbeat_counter,
                forall|j: int| 0 <= j < i ==> self.bytes@[j] == 0u8,
            decreases n - i,
        {
            self.bytes.set(i, 0);
            i += 1;
        }
    }

    /// Stores `value` little-endian at `off`; dropped when detached or out
    /// of range.
    fn write_i32(&mut self, off: usize, value: i32)
        requires
            old(self).wf(),
        ensures
            final(self).wf(),
            final(self).spec_attached() == old(self).spec_attached(),
            final(self).spec_bytes().len() == old(self).spec_bytes().len(),
            final(self).spec_heartbeat() == old(self).spec_heartbeat(),
            old(self).spec_attached() && off + 4 <= old(self).spec_bytes().len() ==> {
                &&& final(self).spec_field_i32(off as int) == value
                &&& forall|i: int|
                    0 <= i < final(self).spec_bytes().len() && !(off <= i < off + 4)
                        ==> final(self).spec_bytes()[i] == old(self).spec_bytes()[i]
            },
            !(old(self).spec_attached() && off + 4 <= old(self).spec_bytes().len()) ==> final(self).spec_bytes() =~= old(self).spec_bytes(),
    {
        if !self.attached || off > self.bytes.len() || self.bytes.len() - off < 4 {
            return ;
        }
        let le: Vec<u8> = u32_to_le_bytes(value as u32);
        let mut i: usize = 0;
        while i < 4
            invariant
                i <= 4,
                off + 4 <= self.bytes@.len(),
                le@.len() == 4,
                le@ == vstd::bytes::spec_u32_to_le_bytes(value as u32),
                self.attached == old(self).attached,
                self.heartbeat_counter == old(self).heartbeat_counter,
                self.bytes@.len() == old(self).bytes@.len(),
                self.bytes@.len() <= usize::MAX,
                forall|j: int| 0 <= j < i ==> self.bytes@[off + j] == le@[j],
                forall|j: int|
                    0 <= j < self.bytes@.len() && !(off <= j < off + i) ==> self.bytes@[j] == old(
                        self,
                    ).bytes@[j],
            decreases 4 - i,
        {
            self.bytes.set(off + i, le[i]);
            i += 1;
        }
        proof {
            assert(self.spec_bytes().subrange(off as int, off + 4) =~= le@);
            vstd::bytes::lemma_auto_spec_u32_to_from_le_bytes();
            assert((value as u32) as i32 == value) by (bit_vector);
        }
    }

    /// Stores `value` little-endian at `off`; dropped when detached or out
    /// of range.
    fn write_i64(&mut self, off: usize, value: i64)
        requires
            old(self).wf(),
        ensures
            final(self).wf(),
            final(self).spec_attached() == old(self).spec_attached(),
            final(self).spec_bytes().len() == old(self).spec_bytes().len(),
            final(self).spec_heartbeat() == old(self).spec_heartbeat(),
            old(self).spec_attached() && off + 8 <= old(self).spec_bytes().len() ==> {
                &&& final(self).spec_field_i64(off as int) == value
                &&& forall|i: int|
                    0 <= i < final(self).spec_bytes().len() && !(off <= i < off + 8)
                        ==> final(self).spec_bytes()[i] == old(self).spec_bytes()[i]
            },
            !(old(self).spec_attached() && off + 8 <= old(self).spec_bytes().len()) ==> final(self).spec_bytes() =~= old(self).spec_bytes(),
    {
        if !self.attached || off > self.bytes.len() || self.bytes.len() - off < 8 {
            return ;
        }
        let le: Vec<u8> = u64_to_le_bytes(value as u64);
        let mut i: usize = 0;
        while i < 8
            invariant
                i <= 8,
                off + 8 <= self.bytes@.len(),
                le@.len() == 8,
                le@ == vstd::bytes::spec_u64_to_le_bytes(value as u64),
                self.attached == old(self).attached,
                self.heartbeat_counter == old(self).heartbeat_counter,
                self.bytes@.len() == old(self).bytes@.len(),
                self.bytes@.len() <= usize::MAX,
                forall|j: int| 0 <= j < i ==> self.bytes@[off + j] == le@[j],
                forall|j: int|
                    0 <= j < self.bytes@.len() && !(off <= j < off + i) ==> self.bytes@[j] == old(
                        self,
                    ).bytes@[j],
            decreases 8 - i,
        {
            self.bytes.set(off + i, le[i]);
            i += 1;
        }
        proof {
            assert(self.spec_bytes().subrange(off as int, off + 8) =~= le@);
            vstd::bytes::lemma_auto_spec_u64_to_from_le_bytes();
            assert((value as u64) as i64 == value) by (bit_vector);
        }
    }

    /// Reads the little-endian field at `off`; zero when detached or out
    /// of range.
    fn read_i32(&self, off: usize) -> (r: i32)
        requires
            self.wf(),
        ensures
            self.spec_attached() && off + 4 <= self.spec_bytes().len() ==> r
                == self.spec_field_i32(off as int),
            !(self.spec_attached() && off + 4 <= self.spec_bytes().len()) ==> r == 0,
    {
        if !self.attached || off > self.bytes.len() || self.bytes.len() - off < 4 {
            return 0;
        }
        let whole: &[u8] = self.bytes.as_slice();
        let sub: &[u8] = vstd::slice::slice_subrange(whole, off, off + 4);
        u32_from_le_bytes(sub) as i32
    }

    pub fn write_phase(&mut self, phase: ScanPhase)
        requires
            old(self).wf(),
        ensures
            final(self).wf(),
            final(self).spec_attached() == old(self).spec_attached(),
            final(self).spec_bytes().len() == old(self).spec_bytes().len(),
            final(self).spec_heartbeat() == old(self).spec_heartbeat(),
            old(self).spec_attached() ==> final(self).spec_field_i32(OFFSET_PHASE as int)
                == phase.spec_to_id() && spec_same_outside(
                old(self).spec_bytes(),
                final(self).spec_bytes(),
                OFFSET_PHASE as int,
                4,
            ),
            !old(self).spec_attached() ==> final(self).spec_bytes() =~= old(self).spec_bytes(),
    {
        let id: i32 = phase.to_id();
        self.write_i32(OFFSET_PHASE, id);
    }

    /// Stores the progress percentage, clamped to `0..=100`; every other
    /// byte is left alone.
    pub fn write_progress(&mut self, progress: i32)
        requires
            old(self).wf(),
        ensures
            final(self).wf(),
            final(self).spec_attached() == old(self).spec_attached(),
            final(self).spec_bytes().len() == old(self).spec_bytes().len(),
            final(self).spec_heartbeat() == old(self).spec_heartbeat(),
            old(self).spec_attached() ==> final(self).spec_field_i32(OFFSET_PROGRESS as int)
                == (if progress < 0 {
                0i32
            } else if progress > 100 {
                100i32
            } else {
                progress
            }) && spec_same_outside(
                old(self).spec_bytes(),
                final(self).spec_bytes(),
                OFFSET_PROGRESS as int,
                4,
            ),
            !old(self).spec_attached() ==> final(self).spec_bytes() =~= old(self).spec_bytes(),
    {
        let clamped: i32 = if progress < 0 {
            0
        } else if progress > 100 {
            100
        } else {
            progress
        };
        self.write_i32(OFFSET_PROGRESS, clamped);
    }

    pub fn write_regions_done(&mut self, count: i32)
        requires
            old(self).wf(),
        ensures
            final(self).wf(),
            final(self).spec_attached() == old(self).spec_attached(),
            final(self).spec_bytes().len() == old(self).spec_bytes().len(),
            final(self).spec_heartbeat() == old(self).spec_heartbeat(),
            old(self).spec_attached() ==> final(self).spec_field_i32(OFFSET_REGIONS_DONE as int)
                == count && spec_same_outside(
                old(self).spec_bytes(),
                final(self).spec_bytes(),
                OFFSET_REGIONS_DONE as int,
                4,
            ),
            !old(self).spec_attached() ==> final(self).spec_bytes() =~= old(self).spec_bytes(),
    {
        self.write_i32(OFFSET_REGIONS_DONE, count);
    }

    pub fn write_pointers_found(&mut self, count: i64)
        requires
            old(self).wf(),
        ensures
            final(self).wf(),
            final(self).spec_attached() == old(self).spec_attached(),
            final(self).spec_bytes().len() == old(self).spec_bytes().len(),
            final(self).spec_heartbeat() == old(self).spec_heartbeat(),
            old(self).spec_attached() ==> final(self).spec_field_i64(OFFSET_POINTERS_FOUND as int)
                == count && spec_same_outside(
                old(self).spec_bytes(),
                final(self).spec_bytes(),
                OFFSET_POINTERS_FOUND as int,
                8,
            ),
            !old(self).spec_attached() ==> final(self).spec_bytes() =~= old(self).spec_bytes(),
    {
        self.write_i64(OFFSET_POINTERS_FOUND, count);
    }

    pub fn write_chains_found(&mut self, count: i64)
        requires
            old(self).wf(),
        ensures
            final(self).wf(),
            final(self).spec_attached() == old(self).spec_attached(),
            final(self).spec_bytes().len() == old(self).spec_bytes().len(),
            final(self).spec_heartbeat() == old(self).spec_heartbeat(),
            old(self).spec_attached() ==> final(self).spec_field_i64(OFFSET_CHAINS_FOUND as int)
                == count && spec_same_outside(
                old(self).spec_bytes(),
                final(self).spec_bytes(),
                OFFSET_CHAINS_FOUND as int,
                8,
            ),
            !old(self).spec_attached() ==> final(self).spec_bytes() =~= old(self).spec_bytes(),
    {
        self.write_i64(OFFSET_CHAINS_FOUND, count);
    }

    pub fn write_current_depth(&mut self, depth: i32)
        requires
            old(self).wf(),
        ensures
            final(self).wf(),
            final(self).spec_attached() == old(self).spec_attached(),
            final(self).spec_bytes().len() == old(self).spec_bytes().len(),
            final(self).spec_heartbeat() == old(self).spec_heartbeat(),
            old(self).spec_attached() ==> final(self).spec_field_i32(OFFSET_CURRENT_DEPTH as int)
                == depth && spec_same_outside(
                old(self).spec_bytes(),
                final(self).spec_bytes(),
                OFFSET_CURRENT_DEPTH as int,
                4,
            ),
            !old(self).spec_attached() ==> final(self).spec_bytes() =~= old(self).spec_bytes(),
    {
        self.write_i32(OFFSET_CURRENT_DEPTH, depth);
    }

    pub fn write_error_code(&mut self, code: ScanErrorCode)
        requires
            old(self).wf(),
        ensures
            final(self).wf(),
            final(self).spec_attached() == old(self).spec_attached(),
            final(self).spec_bytes().len() == old(self).spec_bytes().len(),
            final(self).spec_heartbeat() == old(self).spec_heartbeat(),
            old(self).spec_attached() ==> final(self).spec_field_i32(OFFSET_ERROR_CODE as int)
                == code.spec_to_id() && spec_same_outside(
                old(self).spec_bytes(),
                final(self).spec_bytes(),
                OFFSET_ERROR_CODE as int,
                4,
            ),
            !old(self).spec_attached() ==> final(self).spec_bytes() =~= old(self).spec_bytes(),
    {
        let id: i32 = code.to_id();
        self.write_i32(OFFSET_ERROR_CODE, id);
    }

    /// Bumps the liveness counter and publishes the value it had, so two
    /// successive publications differ; nothing else changes.
    pub fn update_heartbeat(&mut self)
        requires
            old(self).wf(),
        ensures
            final(self).wf(),
            final(self).spec_attached() == old(self).spec_attached(),
            final(self).spec_bytes().len() == old(self).spec_bytes().len(),
            final(self).spec_heartbeat() == if old(self).spec_heartbeat() == 0xFFFF_FFFFu32 {
                0u32
            } else {
                (old(self).spec_heartbeat() + 1) as u32
            },
            old(self).spec_attached() ==> final(self).spec_field_i32(OFFSET_HEARTBEAT as int)
                == old(self).spec_heartbeat() as i32 && spec_same_outside(
                old(self).spec_bytes(),
                final(self).spec_bytes(),
                OFFSET_HEARTBEAT as int,
                4,
            ),
            !old(self).spec_attached() ==> final(self).spec_bytes() =~= old(self).spec_bytes(),
    {
        let value: u32 = self.heartbeat_counter;
        self.heartbeat_counter = if value == 0xFFFF_FFFF {
            0
        } else {
            value + 1
        };
        self.write_i32(OFFSET_HEARTBEAT, value as i32);
    }

    /// Whether the reader has raised the cancel flag.
    pub fn is_cancel_requested(&self) -> (r: bool)
        requires
            self.wf(),
        ensures
            self.spec_attached() ==> r == (self.spec_field_i32(OFFSET_CANCEL_FLAG as int) != 0),
            !self.spec_attached() ==> r == false,
    {
        self.read_i32(OFFSET_CANCEL_FLAG) != 0
    }

    /// Clears the reader's cancel flag; every other byte is left alone.
    pub fn clear_cancel_flag(&mut self)
        requires
            old(self).wf(),
        ensures
            final(self).wf(),
            final(self).spec_attached() == old(self).spec_attached(),
            final(self).spec_bytes().len() == old(self).spec_bytes().len(),
            final(self).spec_heartbeat() == old(self).spec_heartbeat(),
            old(self).spec_attached() ==> final(self).spec_field_i32(OFFSET_CANCEL_FLAG as int)
                == 0 && spec_same_outside(
                old(self).spec_bytes(),
                final(self).spec_bytes(),
                OFFSET_CANCEL_FLAG as int,
                4,
            ),
            !old(self).spec_attached() ==> final(self).spec_bytes() =~= old(self).spec_bytes(),
    {
        self.write_i32(OFFSET_CANCEL_FLAG, 0);
    }

    /// The whole byte image, for the application to publish.
    pub fn image(&self) -> (r: Vec<u8>)
        requires
            self.wf(),
        ensures
            r@ =~= self.spec_bytes(),
    {
        let whole: &[u8] = self.bytes.as_slice();
        vstd::slice::slice_to_vec(whole)
    }

    /// Pointer-collection progress: the first half of the bar
    /// (`done * 50 / total`), the region and pointer counters, and a
    /// heartbeat; the phase, chain, depth, cancel and error fields are
    /// left alone.
    pub fn update_scanning_progress(
        &mut self,
        regions_done: i32,
        total_regions: i32,
        pointers_found: i64,
    )
        requires
            old(self).wf(),
            0 <= regions_done <= total_regions,
        ensures
            final(self).wf(),
            final(self).spec_attached() == old(self).spec_attached(),
            final(self).spec_bytes().len() == old(self).spec_bytes().len(),
            final(self).spec_heartbeat() == if old(self).spec_heartbeat() == 0xFFFF_FFFFu32 {
                0u32
            } else {
                (old(self).spec_heartbeat() + 1) as u32
            },
            old(self).spec_attached() ==> {
                &&& final(self).spec_field_i32(OFFSET_PROGRESS as int) == if total_regions > 0 {
                    ((regions_done as int * 50) / (total_regions as int)) as i32
                } else {
                    0i32
                }
                &&& final(self).spec_field_i32(OFFSET_REGIONS_DONE as int) == regions_done
                &&& final(self).spec_field_i64(OFFSET_POINTERS_FOUND as int) == pointers_found
                &&& final(self).spec_field_i32(OFFSET_HEARTBEAT as int) == old(
                    self,
                ).spec_heartbeat() as i32
                &&& final(self).spec_field_i32(OFFSET_PHASE as int) == old(self).spec_field_i32(
                    OFFSET_PHASE as int,
                )
                &&& final(self).spec_field_i64(OFFSET_CHAINS_FOUND as int) == old(
                    self,
                ).spec_field_i64(OFFSET_CHAINS_FOUND as int)
                &&& final(self).spec_field_i32(OFFSET_CURRENT_DEPTH as int) == old(
                    self,
                ).spec_field_i32(OFFSET_CURRENT_DEPTH as int)
                &&& final(self).spec_field_i32(OFFSET_CANCEL_FLAG as int) == old(
                    self,
                ).spec_field_i32(OFFSET_CANCEL_FLAG as int)
                &&& final(self).spec_field_i32(OFFSET_ERROR_CODE as int) == old(
                    self,
                ).spec_field_i32(OFFSET_ERROR_CODE as int)
            },
            !old(self).spec_attached() ==> final(self).spec_bytes() =~= old(self).spec_bytes(),
    {
        let progress: i32 = if total_regions > 0 {
            proof {
                assert(0 <= (regions_done as int * 50) / (total_regions as int) <= 50)
                    by (nonlinear_arith)
                    requires
                        0 <= regions_done <= total_regions,
                        total_regions > 0,
                ;
            }
            ((regions_done as i64 * 50) / (total_regions as i64)) as i32
        } else {
            0
        };
        let ghost b0 = self.spec_bytes();
        self.write_progress(progress);
        let ghost b1 = self.spec_bytes();
        self.write_regions_done(regions_done);
        let ghost b2 = self.spec_bytes();
        self.write_pointers_found(pointers_found);
        let ghost b3 = self.spec_bytes();
        self.update_heartbeat();
        proof {
            if old(self).spec_attached() {
                lemma_frames_scanning(b0, b1, b2, b3, self.spec_bytes());
            }
        }
    }

    /// Chain-building progress: the second half of the bar
    /// (`50 + depth * 50 / max`), the depth and chain counters, and a
    /// heartbeat; the phase, region, pointer, cancel and error fields are
    /// left alone.
    pub fn update_building_progress(&mut self, current_depth: i32, max_depth: i32, chains_found: i64)
        requires
            old(self).wf(),
            0 <= current_depth <= max_depth,
        ensures
            final(self).wf(),
            final(self).spec_attached() == old(self).spec_attached(),
            final(self).spec_bytes().len() == old(self).spec_bytes().len(),
            final(self).spec_heartbeat() == if old(self).spec_heartbeat() == 0xFFFF_FFFFu32 {
                0u32
            } else {
                (old(self).spec_heartbeat() + 1) as u32
            },
            old(self).spec_attached() ==> {
                &&& final(self).spec_field_i32(OFFSET_PROGRESS as int) == if max_depth > 0 {
                    (50 + (current_depth as int * 50) / (max_depth as int)) as i32
                } else {
                    50i32
                }
                &&& final(self).spec_field_i32(OFFSET_CURRENT_DEPTH as int) == current_depth
                &&& final(self).spec_field_i64(OFFSET_CHAINS_FOUND as int) == chains_found
                &&& final(self).spec_field_i32(OFFSET_HEARTBEAT as int) == old(
                    self,
                ).spec_heartbeat() as i32
                &&& final(self).spec_field_i32(OFFSET_PHASE as int) == old(self).spec_field_i32(
                    OFFSET_PHASE as int,
                )
                &&& final(self).spec_field_i32(OFFSET_REGIONS_DONE as int) == old(
                    self,
                ).spec_field_i32(OFFSET_REGIONS_DONE as int)
                &&& final(self).spec_field_i64(OFFSET_POINTERS_FOUND as int) == old(
                    self,
                ).spec_field_i64(OFFSET_POINTERS_FOUND as int)
                &&& final(self).spec_field_i32(OFFSET_CANCEL_FLAG as int) == old(
                    self,
                ).spec_field_i32(OFFSET_CANCEL_FLAG as int)
                &&& final(self).spec_field_i32(OFFSET_ERROR_CODE as int) == old(
                    self,
                ).spec_field_i32(OFFSET_ERROR_CODE as int)
            },
            !old(self).spec_attached() ==> final(self).spec_bytes() =~= old(self).spec_bytes(),
    {
        let progress: i32 = if max_depth > 0 {
            proof {
                assert(0 <= (current_depth as int * 50) / (max_depth as int) <= 50)
                    by (nonlinear_arith)
                    requires
                        0 <= current_depth <= max_depth,
                        max_depth > 0,
                ;
            }
            50 + ((current_depth as i64 * 50) / (max_depth as i64)) as i32
        } else {
            50
        };
        let ghost b0 = self.spec_bytes();
        self.write_progress(progress);
        let ghost b1 = self.spec_bytes();
        self.write_current_depth(current_depth);
        let ghost b2 = self.spec_bytes();
        self.write_chains_found(chains_found);
        let ghost b3 = self.spec_bytes();
        self.update_heartbeat();
        proof {
            if old(self).spec_attached() {
                lemma_frames_building(b0, b1, b2, b3, self.spec_bytes());
            }
        }
    }

    /// File-writing progress over the whole bar (`written * 100 / total`),
    /// the written-chain counter, and a heartbeat; the phase, region,
    /// pointer, depth, cancel and error fields are left alone.
    pub fn update_writing_progress(&mut self, written: i32, total: i32, chains_written: i64)
        requires
            old(self).wf(),
            0 <= written <= total,
        ensures
            final(self).wf(),
            final(self).spec_attached() == old(self).spec_attached(),
            final(self).spec_bytes().len() == old(self).spec_bytes().len(),
            final(self).spec_heartbeat() == if old(self).spec_heartbeat() == 0xFFFF_FFFFu32 {
                0u32
            } else {
                (old(self).spec_heartbeat() + 1) as u32
            },
            old(self).spec_attached() ==> {
                &&& final(self).spec_field_i32(OFFSET_PROGRESS as int) == if total > 0 {
                    ((written as int * 100) / (total as int)) as i32
                } else {
                    0i32
                }
                &&& final(self).spec_field_i64(OFFSET_CHAINS_FOUND as int) == chains_written
                &&& final(self).spec_field_i32(OFFSET_HEARTBEAT as int) == old(
                    self,
                ).spec_heartbeat() as i32
                &&& final(self).spec_field_i32(OFFSET_PHASE as int) == old(self).spec_field_i32(
                    OFFSET_PHASE as int,
                )
                &&& final(self).spec_field_i32(OFFSET_REGIONS_DONE as int) == old(
                    self,
                ).spec_field_i32(OFFSET_REGIONS_DONE as int)
                &&& final(self).spec_field_i64(OFFSET_POINTERS_FOUND as int) == old(
                    self,
                ).spec_field_i64(OFFSET_POINTERS_FOUND as int)
                &&& final(self).spec_field_i32(OFFSET_CURRENT_DEPTH as int) == old(
                    self,
                ).spec_field_i32(OFFSET_CURRENT_DEPTH as int)
                &&& final(self).spec_field_i32(OFFSET_CANCEL_FLAG as int) == old(
                    self,
                ).spec_field_i32(OFFSET_CANCEL_FLAG as int)
                &&& final(self).spec_field_i32(OFFSET_ERROR_CODE as int) == old(
                    self,
                ).spec_field_i32(OFFSET_ERROR_CODE as int)
            },
            !old(self).spec_attached() ==> final(self).spec_bytes() =~= old(self).spec_bytes(),
    {
        let progress: i32 = if total > 0 {
            proof {
                assert(0 <= (written as int * 100) / (total as int) <= 100) by (nonlinear_arith)
                    requires
                        0 <= written <= total,
                        total > 0,
                ;
            }
            ((written as i64 * 100) / (total as i64)) as i32
        } else {
            0
        };
        let ghost b0 = self.spec_bytes();
        self.write_progress(progress);
        let ghost b1 = self.spec_bytes();
        self.write_chains_found(chains_written);
        let ghost b2 = self.spec_bytes();
        self.update_heartbeat();
        proof {
            if old(self).spec_attached() {
                lemma_frames_writing(b0, b1, b2, self.spec_bytes());
            }
        }
    }
}

/// Field bookkeeping of the pointer-collection publication: writes at the
/// progress, region, pointer and heartbeat windows leave each other and
/// the remaining fields alone.
proof fn lemma_frames_scanning(b0: Seq<u8>, b1: Seq<u8>, b2: Seq<u8>, b3: Seq<u8>, b4: Seq<u8>)
    requires
        b0.len() >= 48,
        spec_same_outside(b0, b1, OFFSET_PROGRESS as int, 4),
        spec_same_outside(b1, b2, OFFSET_REGIONS_DONE as int, 4),
        spec_same_outside(b2, b3, OFFSET_POINTERS_FOUND as int, 8),
        spec_same_outside(b3, b4, OFFSET_HEARTBEAT as int, 4),
    ensures
        spec_bytes_field_i32(b4, OFFSET_PROGRESS as int) == spec_bytes_field_i32(
            b1,
            OFFSET_PROGRESS as int,
        ),
        spec_bytes_field_i32(b4, OFFSET_REGIONS_DONE as int) == spec_bytes_field_i32(
            b2,
            OFFSET_REGIONS_DONE as int,
        ),
        spec_bytes_field_i64(b4, OFFSET_POINTERS_FOUND as int) == spec_bytes_field_i64(
            b3,
            OFFSET_POINTERS_FOUND as int,
        ),
        spec_bytes_field_i32(b4, OFFSET_PHASE as int) == spec_bytes_field_i32(
            b0,
            OFFSET_PHASE as int,
        ),
        spec_bytes_field_i64(b4, OFFSET_CHAINS_FOUND as int) == spec_bytes_field_i64(
            b0,
            OFFSET_CHAINS_FOUND as int,
        ),
        spec_bytes_field_i32(b4, OFFSET_CURRENT_DEPTH as int) == spec_bytes_field_i32(
            b0,
            OFFSET_CURRENT_DEPTH as int,
        ),
        spec_bytes_field_i32(b4, OFFSET_CANCEL_FLAG as int) == spec_bytes_field_i32(
            b0,
            OFFSET_CANCEL_FLAG as int,
        ),
        spec_bytes_field_i32(b4, OFFSET_ERROR_CODE as int) == spec_bytes_field_i32(
            b0,
            OFFSET_ERROR_CODE as int,
        ),
{
    lemma_field_i32_frame(b1, b2, 8, 4, 4);
    lemma_field_i32_frame(b2, b3, 12, 8, 4);
    lemma_field_i32_frame(b3, b4, 32, 4, 4);
    lemma_field_i32_frame(b2, b3, 12, 8, 8);
    lemma_field_i32_frame(b3, b4, 32, 4, 8);
    lemma_field_i64_frame(b3, b4, 32, 4, 12);
    lemma_field_i32_frame(b0, b1, 4, 4, 0);
    lemma_field_i32_frame(b1, b2, 8, 4, 0);
    lemma_field_i32_frame(b2, b3, 12, 8, 0);
    lemma_field_i32_frame(b3, b4, 32, 4, 0);
    lemma_field_i64_frame(b0, b1, 4, 4, 20);
    lemma_field_i64_frame(b1, b2, 8, 4, 20);
    lemma_field_i64_frame(b2, b3, 12, 8, 20);
    lemma_field_i64_frame(b3, b4, 32, 4, 20);
    lemma_field_i32_frame(b0, b1, 4, 4, 28);
    lemma_field_i32_frame(b1, b2, 8, 4, 28);
    lemma_field_i32_frame(b2, b3, 12, 8, 28);
    lemma_field_i32_frame(b3, b4, 32, 4, 28);
    lemma_field_i32_frame(b0, b1, 4, 4, 36);
    lemma_field_i32_frame(b1, b2, 8, 4, 36);
    lemma_field_i32_frame(b2, b3, 12, 8, 36);
    lemma_field_i32_frame(b3, b4, 32, 4, 36);
    lemma_field_i32_frame(b0, b1, 4, 4, 40);
    lemma_field_i32_frame(b1, b2, 8, 4, 40);
    lemma_field_i32_frame(b2, b3, 12, 8, 40);
    lemma_field_i32_frame(b3, b4, 32, 4, 40);
}

/// Field bookkeeping of the chain-building publication.
proof fn lemma_frames_building(b0: Seq<u8>, b1: Seq<u8>, b2: Seq<u8>, b3: Seq<u8>, b4: Seq<u8>)
    requires
        b0.len() >= 48,
        spec_same_outside(b0, b1, OFFSET_PROGRESS as int, 4),
        spec_same_outside(b1, b2, OFFSET_CURRENT_DEPTH as int, 4),
        spec_same_outside(b2, b3, OFFSET_CHAINS_FOUND as int, 8),
        spec_same_outside(b3, b4, OFFSET_HEARTBEAT as int, 4),
    ensures
        spec_bytes_field_i32(b4, OFFSET_PROGRESS as int) == spec_bytes_field_i32(
            b1,
            OFFSET_PROGRESS as int,
        ),
        spec_bytes_field_i32(b4, OFFSET_CURRENT_DEPTH as int) == spec_bytes_field_i32(
            b2,
            OFFSET_CURRENT_DEPTH as int,
        ),
        spec_bytes_field_i64(b4, OFFSET_CHAINS_FOUND as int) == spec_bytes_field_i64(
            b3,
            OFFSET_CHAINS_FOUND as int,
        ),
        spec_bytes_field_i32(b4, OFFSET_PHASE as int) == spec_bytes_field_i32(
            b0,
            OFFSET_PHASE as int,
        ),
        spec_bytes_field_i32(b4, OFFSET_REGIONS_DONE as int) == spec_bytes_field_i32(
            b0,
            OFFSET_REGIONS_DONE as int,
        ),
        spec_bytes_field_i64(b4, OFFSET_POINTERS_FOUND as int) == spec_bytes_field_i64(
            b0,
            OFFSET_POINTERS_FOUND as int,
        ),
        spec_bytes_field_i32(b4, OFFSET_CANCEL_FLAG as int) == spec_bytes_field_i32(
            b0,
            OFFSET_CANCEL_FLAG as int,
        ),
        spec_bytes_field_i32(b4, OFFSET_ERROR_CODE as int) == spec_bytes_field_i32(
            b0,
            OFFSET_ERROR_CODE as int,
        ),
{
    lemma_field_i32_frame(b1, b2, 28, 4, 4);
    lemma_field_i32_frame(b2, b3, 20, 8, 4);
    lemma_field_i32_frame(b3, b4, 32, 4, 4);
    lemma_field_i32_frame(b2, b3, 20, 8, 28);
    lemma_field_i32_frame(b3, b4, 32, 4, 28);
    lemma_field_i64_frame(b3, b4, 32, 4, 20);
    lemma_field_i32_frame(b0, b1, 4, 4, 0);
    lemma_field_i32_frame(b1, b2, 28, 4, 0);
    lemma_field_i32_frame(b2, b3, 20, 8, 0);
    lemma_field_i32_frame(b3, b4, 32, 4, 0);
    lemma_field_i32_frame(b0, b1, 4, 4, 8);
    lemma_field_i32_frame(b1, b2, 28, 4, 8);
    lemma_field_i32_frame(b2, b3, 20, 8, 8);
    lemma_field_i32_frame(b3, b4, 32, 4, 8);
    lemma_field_i64_frame(b0, b1, 4, 4, 12);
    lemma_field_i64_frame(b1, b2, 28, 4, 12);
    lemma_field_i64_frame(b2, b3, 20, 8, 12);
    lemma_field_i64_frame(b3, b4, 32, 4, 12);
    lemma_field_i32_frame(b0, b1, 4, 4, 36);
    lemma_field_i32_frame(b1, b2, 28, 4, 36);
    lemma_field_i32_frame(b2, b3, 20, 8, 36);
    lemma_field_i32_frame(b3, b4, 32, 4, 36);
    lemma_field_i32_frame(b0, b1, 4, 4, 40);
    lemma_field_i32_frame(b1, b2, 28, 4, 40);
    lemma_field_i32_frame(b2, b3, 20, 8, 40);
    lemma_field_i32_frame(b3, b4, 32, 4, 40);
}

/// Field bookkeeping of the file-writing publication.
proof fn lemma_frames_writing(b0: Seq<u8>, b1: Seq<u8>, b2: Seq<u8>, b3: Seq<u8>)
    requires
        b0.len() >= 48,
        spec_same_outside(b0, b1, OFFSET_PROGRESS as int, 4),
        spec_same_outside(b1, b2, OFFSET_CHAINS_FOUND as int, 8),
        spec_same_outside(b2, b3, OFFSET_HEARTBEAT as int, 4),
    ensures
        spec_bytes_field_i32(b3, OFFSET_PROGRESS as int) == spec_bytes_field_i32(
            b1,
            OFFSET_PROGRESS as int,
        ),
        spec_bytes_field_i64(b3, OFFSET_CHAINS_FOUND as int) == spec_bytes_field_i64(
            b2,
            OFFSET_CHAINS_FOUND as int,
        ),
        spec_bytes_field_i32(b3, OFFSET_PHASE as int) == spec_bytes_field_i32(
            b0,
            OFFSET_PHASE as int,
        ),
        spec_bytes_field_i32(b3, OFFSET_REGIONS_DONE as int) == spec_bytes_field_i32(
            b0,
            OFFSET_REGIONS_DONE as int,
        ),
        spec_bytes_field_i64(b3, OFFSET_POINTERS_FOUND as int) == spec_bytes_field_i64(
            b0,
            OFFSET_POINTERS_FOUND as int,
        ),
        spec_bytes_field_i32(b3, OFFSET_CURRENT_DEPTH as int) == spec_bytes_field_i32(
            b0,
            OFFSET_CURRENT_DEPTH as int,
        ),
        spec_bytes_field_i32(b3, OFFSET_CANCEL_FLAG as int) == spec_bytes_field_i32(
            b0,
            OFFSET_CANCEL_FLAG as int,
        ),
        spec_bytes_field_i32(b3, OFFSET_ERROR_CODE as int) == spec_bytes_field_i32(
            b0,
            OFFSET_ERROR_CODE as int,
        ),
{
    lemma_field_i32_frame(b1, b2, 20, 8, 4);
    lemma_field_i32_frame(b2, b3, 32, 4, 4);
    lemma_field_i64_frame(b2, b3, 32, 4, 20);
    lemma_field_i32_frame(b0, b1, 4, 4, 0);
    lemma_field_i32_frame(b1, b2, 20, 8, 0);
    lemma_field_i32_frame(b2, b3, 32, 4, 0);
    lemma_field_i32_frame(b0, b1, 4, 4, 8);
    lemma_field_i32_frame(b1, b2, 20, 8, 8);
    lemma_field_i32_frame(b2, b3, 32, 4, 8);
    lemma_field_i64_frame(b0, b1, 4, 4, 12);
    lemma_field_i64_frame(b1, b2, 20, 8, 12);
    lemma_field_i64_frame(b2, b3, 32, 4, 12);
    lemma_field_i32_frame(b0, b1, 4, 4, 28);
    lemma_field_i32_frame(b1, b2, 20, 8, 28);
    lemma_field_i32_frame(b2, b3, 32, 4, 28);
    lemma_field_i32_frame(b0, b1, 4, 4, 36);
    lemma_field_i32_frame(b1, b2, 20, 8, 36);
    lemma_field_i32_frame(b2, b3, 32, 4, 36);
    lemma_field_i32_frame(b0, b1, 4, 4, 40);
    lemma_field_i32_frame(b1, b2, 20, 8, 40);
    lemma_field_i32_frame(b2, b3, 32, 4, 40);
}

} // verus!
