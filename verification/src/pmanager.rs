//! The pointer-scan coordinator's decisions: submission checks and the
//! state transitions around a scan, with the kernel reads and task
//! scheduling left to the surrounding application.

use vstd::prelude::*;
use crate::ptypes::{PointerScanConfig, VmStaticData};
use crate::status::{PointerScanSharedBuffer, ScanPhase, ScanErrorCode, OFFSET_PHASE,
    OFFSET_PROGRESS, OFFSET_CANCEL_FLAG, lemma_field_i32_frame, lemma_field_i64_frame,
    OFFSET_CHAINS_FOUND};

verus! {

/// What a finished scan left behind: the chain total before any write cap,
/// and where the listing was written.
#[derive(Debug, Clone)]
pub struct ScanCompleteResult {
    pub total_count: usize,
    pub output_file: String,
}

/// The pointer-scan coordinator's state.
pub struct PointerScanManager {
    config: PointerScanConfig,
    shared_buffer: PointerScanSharedBuffer,
    scanning: bool,
    current_phase: ScanPhase,
    last_error: ScanErrorCode,
    scan_result: Option<ScanCompleteResult>,
}

impl PointerScanManager {
    pub closed spec fn spec_scanning(&self) -> bool {
        self.scanning
    }

    pub closed spec fn spec_phase(&self) -> ScanPhase {
        self.current_phase
    }

    pub closed spec fn spec_error(&self) -> ScanErrorCode {
        self.last_error
    }

    pub closed spec fn spec_config(&self) -> PointerScanConfig {
        self.config
    }

    /// What the last finished scan left, if any.
    pub closed spec fn spec_scan_result(&self) -> Option<ScanCompleteResult> {
        self.scan_result
    }

    /// The status record the coordinator publishes through.
    pub closed spec fn spec_status(&self) -> PointerScanSharedBuffer {
        self.shared_buffer
    }

    pub closed spec fn wf(&self) -> bool {
        self.shared_buffer.wf()
    }

    /// An idle coordinator.
    pub fn new() -> (r: Self)
        ensures
            r.wf(),
            !r.spec_scanning(),
            r.spec_phase() == ScanPhase::Idle,
            r.spec_error() == ScanErrorCode::NoError,
    {
        PointerScanManager {
            config: PointerScanConfig::new(0),
            shared_buffer: PointerScanSharedBuffer::new(),
            scanning: false,
            current_phase: ScanPhase::Idle,
            last_error: ScanErrorCode::NoError,
            scan_result: None,
        }
    }

    pub fn is_scanning(&self) -> (r: bool)
        ensures
            r == self.spec_scanning(),
    {
        self.scanning
    }

    pub fn get_phase(&self) -> (r: ScanPhase)
        ensures
            r == self.spec_phase(),
    {
        self.current_phase
    }

    pub fn get_error(&self) -> (r: ScanErrorCode)
        ensures
            r == self.spec_error(),
    {
        self.last_error
    }

    /// The previous scan's outcome: its unclamped chain total and where
    /// the listing went.
    pub fn get_scan_result(&self) -> (r: Option<ScanCompleteResult>)
        ensures
            r is Some <==> self.spec_scan_result() is Some,
            r matches Some(out) ==> (self.spec_scan_result() matches Some(held)
                && out.total_count == held.total_count && out.output_file@
                == held.output_file@),
    {
        match &self.scan_result {
            Some(held) => Some(
                ScanCompleteResult {
                    total_count: held.total_count,
                    output_file: held.output_file.clone(),
                },
            ),
            None => None,
        }
    }

    /// Attaches a status record of `len` bytes.
    pub fn set_shared_buffer(&mut self, len: usize) -> (r: bool)
        requires
            old(self).wf(),
            len < 0x1_0000_0000,
        ensures
            final(self).wf(),
            r == (len >= 48),
            final(self).spec_scanning() == old(self).spec_scanning(),
    {
        self.shared_buffer.set(len)
    }

    /// Forgets the previous scan.
    pub fn clear(&mut self)
        requires
            old(self).wf(),
        ensures
            final(self).wf(),
            final(self).spec_phase() == ScanPhase::Idle,
            final(self).spec_error() == ScanErrorCode::NoError,
            final(self).spec_scanning() == old(self).spec_scanning(),
            final(self).spec_scan_result() is None,
    {
        self.current_phase = ScanPhase::Idle;
        self.last_error = ScanErrorCode::NoError;
        self.shared_buffer.reset();
        self.scan_result = None;
    }

    /// Accepts or refuses a new scan.  A busy coordinator refuses with
    /// `AlreadyScanning`; an empty region list refuses with
    /// `InvalidAddress`; otherwise the configuration is recorded and the
    /// coordinator enters the pointer-collection phase.
    pub fn start_scan_begin(
        &mut self,
        target_address: u64,
        max_depth: u32,
        max_offset: u32,
        align: u32,
        regions: &Vec<(u64, u64)>,
    ) -> (r: Result<(), ScanErrorCode>)
        requires
            old(self).wf(),
        ensures
            final(self).wf(),
            r is Ok <==> (!old(self).spec_scanning() && regions@.len() > 0),
            old(self).spec_scanning() ==> r == Err::<(), ScanErrorCode>(
                ScanErrorCode::AlreadyScanning,
            ) && final(self).spec_error() == ScanErrorCode::AlreadyScanning,
            !old(self).spec_scanning() && regions@.len() == 0 ==> r == Err::<(), ScanErrorCode>(
                ScanErrorCode::InvalidAddress,
            ) && final(self).spec_error() == ScanErrorCode::InvalidAddress,
            r is Ok ==> {
                &&& final(self).spec_scanning()
                &&& final(self).spec_phase() == ScanPhase::ScanningPointers
                &&& final(self).spec_config().target_address == target_address
                &&& final(self).spec_config().max_depth == max_depth
                &&& final(self).spec_config().max_offset == max_offset
                &&& final(self).spec_config().align == align
            },
            r is Ok && old(self).spec_status().spec_attached() ==> final(self).spec_status().spec_field_i32(OFFSET_PHASE as int)
                == ScanPhase::ScanningPointers.spec_to_id(),
            // a refusal leaves the previous scan untouched
            r is Err ==> {
                &&& final(self).spec_scanning() == old(self).spec_scanning()
                &&& final(self).spec_phase() == old(self).spec_phase()
                &&& final(self).spec_scan_result() == old(self).spec_scan_result()
                &&& final(self).spec_config() == old(self).spec_config()
                &&& final(self).spec_status() == old(self).spec_status()
            },
    {
        if self.scanning {
            self.last_error = ScanErrorCode::AlreadyScanning;
            return Err(ScanErrorCode::AlreadyScanning);
        }
        if regions.len() == 0 {
            self.last_error = ScanErrorCode::InvalidAddress;
            return Err(ScanErrorCode::InvalidAddress);
        }
        self.config = PointerScanConfig {
            target_address,
            max_depth,
            max_offset,
            align,
            is_layer_bfs: true,
            data_start: true,
            bss_start: false,
        };
        self.current_phase = ScanPhase::Idle;
        self.last_error = ScanErrorCode::NoError;
        self.shared_buffer.reset();
        self.scan_result = None;
        self.current_phase = ScanPhase::ScanningPointers;
        self.shared_buffer.write_phase(ScanPhase::ScanningPointers);
        self.scanning = true;
        Ok(())
    }

    /// Moves a running scan into the chain-building phase.
    pub fn begin_building(&mut self)
        requires
            old(self).wf(),
            old(self).spec_scanning(),
        ensures
            final(self).wf(),
            final(self).spec_scanning(),
            final(self).spec_phase() == ScanPhase::BuildingChains,
            old(self).spec_status().spec_attached() ==> final(self).spec_status().spec_field_i32(
                OFFSET_PHASE as int,
            ) == ScanPhase::BuildingChains.spec_to_id(),
    {
        self.current_phase = ScanPhase::BuildingChains;
        self.shared_buffer.write_phase(ScanPhase::BuildingChains);
    }

    /// Finishes a scan: records the unclamped chain total and the listing
    /// path, and publishes completion.
    pub fn commit_completed(&mut self, total_count: usize, output_file: String)
        requires
            old(self).wf(),
            old(self).spec_scanning(),
        ensures
            final(self).wf(),
            !final(self).spec_scanning(),
            final(self).spec_phase() == ScanPhase::Completed,
            (final(self).spec_scan_result() matches Some(held) && held.total_count == total_count
                && held.output_file == output_file),
            old(self).spec_status().spec_attached() ==> {
                &&& final(self).spec_status().spec_field_i32(OFFSET_PHASE as int)
                    == ScanPhase::Completed.spec_to_id()
                &&& final(self).spec_status().spec_field_i32(OFFSET_PROGRESS as int) == 100
                &&& final(self).spec_status().spec_field_i64(OFFSET_CHAINS_FOUND as int)
                    == (if total_count as u64 <= 0x7FFF_FFFF_FFFF_FFFF {
                    total_count as i64
                } else {
                    i64::MAX
                })
            },
    {
        self.scan_result = Some(ScanCompleteResult { total_count, output_file });
        self.current_phase = ScanPhase::Completed;
        let ghost b0 = self.shared_buffer.spec_bytes();
        self.shared_buffer.write_phase(ScanPhase::Completed);
        let ghost b1 = self.shared_buffer.spec_bytes();
        self.shared_buffer.write_progress(100);
        let ghost b2 = self.shared_buffer.spec_bytes();
        let reported: i64 = if total_count as u64 <= 0x7FFF_FFFF_FFFF_FFFF {
            total_count as i64
        } else {
            i64::MAX
        };
        self.shared_buffer.write_chains_found(reported);
        proof {
            if old(self).spec_status().spec_attached() {
                lemma_field_i32_frame(
                    b1,
                    b2,
                    OFFSET_PROGRESS as int,
                    4,
                    OFFSET_PHASE as int,
                );
                lemma_field_i32_frame(
                    b2,
                    self.shared_buffer.spec_bytes(),
                    OFFSET_CHAINS_FOUND as int,
                    8,
                    OFFSET_PHASE as int,
                );
                lemma_field_i32_frame(
                    b2,
                    self.shared_buffer.spec_bytes(),
                    OFFSET_CHAINS_FOUND as int,
                    8,
                    OFFSET_PROGRESS as int,
                );
            }
        }
        self.scanning = false;
    }

    /// Abandons a running scan.
    pub fn commit_cancelled(&mut self)
        requires
            old(self).wf(),
        ensures
            final(self).wf(),
            !final(self).spec_scanning(),
            final(self).spec_phase() == ScanPhase::Cancelled,
            old(self).spec_status().spec_attached() ==> final(self).spec_status().spec_field_i32(
                OFFSET_PHASE as int,
            ) == ScanPhase::Cancelled.spec_to_id(),
    {
        self.current_phase = ScanPhase::Cancelled;
        self.shared_buffer.write_phase(ScanPhase::Cancelled);
        self.scanning = false;
    }

    /// Fails a running scan with the given error.
    pub fn commit_error(&mut self, code: ScanErrorCode)
        requires
            old(self).wf(),
        ensures
            final(self).wf(),
            !final(self).spec_scanning(),
            final(self).spec_phase() == ScanPhase::Error,
            final(self).spec_error() == code,
            old(self).spec_status().spec_attached() ==> {
                &&& final(self).spec_status().spec_field_i32(OFFSET_PHASE as int)
                    == ScanPhase::Error.spec_to_id()
                &&& final(self).spec_status().spec_field_i32(
                    crate::status::OFFSET_ERROR_CODE as int,
                ) == code.spec_to_id()
            },
    {
        self.current_phase = ScanPhase::Error;
        self.last_error = code;
        let ghost b0 = self.shared_buffer.spec_bytes();
        self.shared_buffer.write_phase(ScanPhase::Error);
        let ghost b1 = self.shared_buffer.spec_bytes();
        self.shared_buffer.write_error_code(code);
        proof {
            if old(self).spec_status().spec_attached() {
                lemma_field_i32_frame(
                    b1,
                    self.shared_buffer.spec_bytes(),
                    crate::status::OFFSET_ERROR_CODE as int,
                    4,
                    OFFSET_PHASE as int,
                );
            }
        }
        self.scanning = false;
    }

    /// A copy of the published status image, for the application's shared
    /// region.
    pub fn status_image(&self) -> (r: Vec<u8>)
        requires
            self.wf(),
        ensures
            r@ =~= self.spec_status().spec_bytes(),
    {
        self.shared_buffer.image()
    }

    /// Whether the reader has raised the cancel flag on the status record.
    pub fn is_cancel_requested(&self) -> (r: bool)
        requires
            self.wf(),
        ensures
            self.spec_status().spec_attached() ==> r == (self.spec_status().spec_field_i32(
                OFFSET_CANCEL_FLAG as int,
            ) != 0),
            !self.spec_status().spec_attached() ==> r == false,
    {
        self.shared_buffer.is_cancel_requested()
    }
}

} // verus!
