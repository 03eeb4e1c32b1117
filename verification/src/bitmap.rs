//! Per-page read-status bitmap.
//!
//! A chunked kernel read reports which 4 KiB pages of the request it could
//! fill; one bit per page, packed into 64-bit words.  The matchers consult
//! the bitmap and skip every candidate whose page was not read.

use vstd::prelude::*;

verus! {

/// Bytes in one page of the scanned address space.
pub const PAGE_SIZE: usize = 4096;

/// Per-page success bits of one chunked read.
pub struct PageStatusBitmap {
    bitmap: Vec<u64>,
}

impl PageStatusBitmap {
    /// The packed words, one bit per page.
    pub closed spec fn words(&self) -> Seq<u64> {
        self.bitmap@
    }

    /// The words stay few enough that bit arithmetic on page counts
    /// cannot overflow.
    pub open spec fn wf(&self) -> bool {
        self.words().len() <= 0x100_0000
    }

    /// Whether page `j` of the read was reported filled.  Pages beyond the
    /// allocated words read as failed.
    pub open spec fn spec_page_success(&self, j: nat) -> bool {
        &&& j / 64 < self.words().len()
        &&& (self.words()[(j / 64) as int] >> ((j % 64) as u64)) & 1u64 == 1u64
    }

    /// Number of filled pages among the first `n`.
    pub open spec fn spec_success_count_upto(&self, n: nat) -> nat
        decreases n,
    {
        if n == 0 {
            0
        } else {
            self.spec_success_count_upto((n - 1) as nat) + if self.spec_page_success(
                (n - 1) as nat,
            ) {
                1nat
            } else {
                0nat
            }
        }
    }

    /// Allocates a cleared bitmap covering `size` bytes of a read that
    /// starts at `start_va` (the first page is partial when the address is
    /// unaligned).
    pub fn new(size: usize, start_va: usize) -> (r: Self)
        requires
            size <= 0x1000_0000,
        ensures
            r.wf(),
            r.words().len() == ((start_va % 4096 + size + 4095) / 4096 + 63) / 64,
            forall|j: nat| !r.spec_page_success(j),
    {
        let num_pages: usize = (start_va % PAGE_SIZE + size + (PAGE_SIZE - 1)) / PAGE_SIZE;
        let num_longs: usize = (num_pages + 63) / 64;
        let r = PageStatusBitmap { bitmap: vec![0u64; num_longs] };
        proof {
            assert forall|j: nat| !r.spec_page_success(j) by {
                if j / 64 < r.words().len() {
                    let w = r.words()[(j / 64) as int];
                    assert(w == 0);
                    let b = (j % 64) as u64;
                    assert((0u64 >> b) & 1u64 == 0u64) by (bit_vector);
                }
            }
        }
        r
    }

    /// Number of pages the bitmap can report: every bit of every word.
    pub fn num_pages(&self) -> (r: usize)
        requires
            self.wf(),
        ensures
            r == self.words().len() * 64,
    {
        self.bitmap.len() * 64
    }

    /// Marks every page filled.
    pub fn mark_all_success(&mut self)
        ensures
            final(self).wf() == old(self).wf(),
            final(self).words().len() == old(self).words().len(),
            forall|j: nat|
                final(self).spec_page_success(j) <==> j / 64 < final(self).words().len(),
    {
        let n: usize = self.bitmap.len();
        let mut i: usize = 0;
        while i < n
            invariant
                i <= n,
                n == self.bitmap@.len(),
                forall|k: int| 0 <= k < i ==> self.bitmap@[k] == !0u64,
                self.wf() == old(self).wf(),
            decreases n - i,
        {
            self.bitmap.set(i, !0u64);
            i += 1;
        }
        proof {
            assert forall|j: nat|
                #[trigger] self.spec_page_success(j) <==> j / 64 < self.words().len() by {
                if j / 64 < self.words().len() {
                    let b = (j % 64) as u64;
                    assert(b < 64 ==> ((!0u64) >> b) & 1u64 == 1u64) by (bit_vector);
                    assert(j % 64 < 64);
                }
            }
        }
    }

    /// Marks page `page_index` filled; an index beyond the words is
    /// ignored.
    pub fn mark_success(&mut self, page_index: usize)
        ensures
            final(self).words().len() == old(self).words().len(),
            forall|j: nat|
                final(self).spec_page_success(j) <==> (old(self).spec_page_success(j) || (j
                    == page_index && j / 64 < old(self).words().len())),
    {
        let long_idx: usize = page_index / 64;
        let bit_idx: u64 = (page_index % 64) as u64;
        if long_idx < self.bitmap.len() {
            let w: u64 = self.bitmap[long_idx];
            let w2: u64 = w | (1u64 << bit_idx);
            self.bitmap.set(long_idx, w2);
            proof {
                assert forall|j: nat|
                    self.spec_page_success(j) <==> (old(self).spec_page_success(j) || (j
                        == page_index && j / 64 < old(self).words().len())) by {
                    let b = (j % 64) as u64;
                    let bi = bit_idx;
                    if j / 64 < self.words().len() {
                        if j / 64 == long_idx {
                            assert(b < 64 && bi < 64 ==> ((((w | (1u64 << bi)) >> b) & 1u64
                                == 1u64) <==> (((w >> b) & 1u64 == 1u64) || b == bi)))
                                by (bit_vector);
                            assert(b < 64 && bi < 64);
                            if b == bi && !(j == page_index) {
                                assert(j == (j / 64) * 64 + j % 64);
                                assert(page_index == long_idx * 64 + (page_index % 64));
                                assert(false);
                            }
                        }
                    }
                }
            }
        }
    }

    /// Whether page `page_index` was reported filled.
    pub fn is_page_success(&self, page_index: usize) -> (r: bool)
        ensures
            r == self.spec_page_success(page_index as nat),
    {
        let long_idx: usize = page_index / 64;
        let bit_idx: u64 = (page_index % 64) as u64;
        if long_idx >= self.bitmap.len() {
            false
        } else {
            let w: u64 = self.bitmap[long_idx];
            (w >> bit_idx) & 1u64 == 1u64
        }
    }

    /// Number of filled pages.
    pub fn success_count(&self) -> (r: usize)
        requires
            self.wf(),
        ensures
            r == self.spec_success_count_upto((self.words().len() * 64) as nat),
    {
        let n: usize = self.num_pages();
        let mut count: usize = 0;
        let mut i: usize = 0;
        while i < n
            invariant
                i <= n,
                n == self.words().len() * 64,
                count == self.spec_success_count_upto(i as nat),
                count <= i,
            decreases n - i,
        {
            if self.is_page_success(i) {
                count += 1;
            }
            i += 1;
        }
        count
    }

    /// Number of pages not reported filled.
    pub fn failure_count(&self) -> (r: usize)
        requires
            self.wf(),
        ensures
            r == self.words().len() * 64 - self.spec_success_count_upto(
                (self.words().len() * 64) as nat,
            ),
    {
        proof {
            self.lemma_success_count_bounded((self.words().len() * 64) as nat);
        }
        let n: usize = self.num_pages();
        n - self.success_count()
    }

    /// The filled-page count never exceeds the page count.
    proof fn lemma_success_count_bounded(&self, n: nat)
        ensures
            self.spec_success_count_upto(n) <= n,
        decreases n,
    {
        if n > 0 {
            self.lemma_success_count_bounded((n - 1) as nat);
        }
    }

    /// The indices of all failed pages, in ascending order.
    pub fn failed_pages(&self) -> (r: Vec<usize>)
        requires
            self.wf(),
        ensures
            forall|k: int|
                0 <= k < r@.len() ==> r@[k] < self.words().len() * 64 && !self.spec_page_success(
                    #[trigger] r@[k] as nat,
                ),
            forall|j: usize|
                j < self.words().len() * 64 && !self.spec_page_success(j as nat) ==> r@.contains(
                    j,
                ),
            forall|k1: int, k2: int| 0 <= k1 < k2 < r@.len() ==> r@[k1] < r@[k2],
    {
        let n: usize = self.num_pages();
        let mut r: Vec<usize> = Vec::new();
        let mut i: usize = 0;
        while i < n
            invariant
                i <= n,
                n == self.words().len() * 64,
                forall|k: int|
                    0 <= k < r@.len() ==> r@[k] < i && !self.spec_page_success(
                        #[trigger] r@[k] as nat,
                    ),
                forall|j: usize|
                    j < i && !self.spec_page_success(j as nat) ==> r@.contains(j),
                forall|k1: int, k2: int| 0 <= k1 < k2 < r@.len() ==> r@[k1] < r@[k2],
            decreases n - i,
        {
            let ghost r0 = r@;
            if !self.is_page_success(i) {
                r.push(i);
                proof {
                    assert(r@[r@.len() - 1] == i);
                    assert forall|j: usize|
                        j < i + 1 && !self.spec_page_success(j as nat) implies r@.contains(j) by {
                        if j < i {
                            let k = choose|k: int| 0 <= k < r0.len() && r0[k] == j;
                            assert(r@[k] == j);
                        }
                    }
                }
            }
            i += 1;
        }
        r
    }

    /// Maximal runs `[start, end)` of consecutive filled pages, in order.
    pub fn get_success_page_ranges(&self) -> (r: Vec<(usize, usize)>)
        requires
            self.wf(),
        ensures
            forall|k: int|
                0 <= k < r@.len() ==> (#[trigger] r@[k]).0 < r@[k].1 <= self.words().len() * 64,
            forall|k: int, j: usize|
                #![trigger r@[k], self.spec_page_success(j as nat)]
                0 <= k < r@.len() && r@[k].0 <= j < r@[k].1 ==> self.spec_page_success(j as nat),
    {
        let n: usize = self.num_pages();
        let mut ranges: Vec<(usize, usize)> = Vec::new();
        let mut range_start: Option<usize> = None;
        let mut i: usize = 0;
        while i < n
            invariant
                i <= n,
                n == self.words().len() * 64,
                range_start matches Some(s) ==> s < i <= n,
                range_start matches Some(s) ==> forall|j: usize|
                    s <= j < i ==> self.spec_page_success(j as nat),
                forall|k: int|
                    0 <= k < ranges@.len() ==> (#[trigger] ranges@[k]).0 < ranges@[k].1 <= i,
                forall|k: int, j: usize|
                    #![trigger ranges@[k], self.spec_page_success(j as nat)]
                    0 <= k < ranges@.len() && ranges@[k].0 <= j < ranges@[k].1
                        ==> self.spec_page_success(j as nat),
            decreases n - i,
        {
            if self.is_page_success(i) {
                if range_start.is_none() {
                    range_start = Some(i);
                }
            } else {
                if let Some(start) = range_start {
                    ranges.push((start, i));
                    range_start = None;
                }
            }
            i += 1;
        }
        if let Some(start) = range_start {
            ranges.push((start, n));
        }
        ranges
    }
}

} // verus!
