//! Pointer collection: the first phase of the chain scan.
//!
//! The scanned regions are merged into a sorted, disjoint validity list;
//! each read chunk is then walked at the configured alignment, and every
//! aligned, readable eight-byte slot whose canonicalised value lands in a
//! scanned region is collected.

use vstd::prelude::*;
use vstd::arithmetic::div_mod::{lemma_fundamental_div_mod, lemma_mod_multiples_vanish};
use vstd::bytes::{u64_from_le_bytes, spec_u64_from_le_bytes};
use crate::ptypes::PointerData;
use crate::bitmap::PageStatusBitmap;
use crate::gateway::spec_canonical_address;

verus! {

/// Whether address `a` lies in some listed `[start, end)` range.
pub open spec fn spec_covered(ranges: Seq<(u64, u64)>, a: u64) -> bool {
    exists|k: int| 0 <= k < ranges.len() && (#[trigger] ranges[k]).0 <= a < ranges[k].1
}

/// A sorted, disjoint, gap-separated validity list.
pub open spec fn spec_ranges_wf(ranges: Seq<(u64, u64)>) -> bool {
    &&& forall|k: int| 0 <= k < ranges.len() ==> (#[trigger] ranges[k]).0 <= ranges[k].1
    &&& forall|k1: int, k2: int|
        0 <= k1 < k2 < ranges.len() ==> (#[trigger] ranges[k1]).1 < (#[trigger] ranges[k2]).0
}

/// Merges the scanned regions into a sorted, disjoint validity list that
/// covers exactly the same addresses.
#[verifier::loop_isolation(false)]
pub fn merge_regions(regions: &Vec<(u64, u64)>) -> (r: Vec<(u64, u64)>)
    requires
        forall|k: int| 0 <= k < regions@.len() ==> (#[trigger] regions@[k]).0 <= regions@[k].1,
    ensures
        spec_ranges_wf(r@),
        forall|a: u64| spec_covered(r@, a) == spec_covered(regions@, a),
{
    let n: usize = regions.len();
    // sort by start with an insertion pass
    let mut sorted: Vec<(u64, u64)> = Vec::new();
    let mut i: usize = 0;
    while i < n
        invariant
            i <= n,
            n == regions@.len(),
            sorted@.len() == i,
            forall|k: int|
                0 <= k < sorted@.len() ==> (#[trigger] sorted@[k]).0 <= sorted@[k].1,
            forall|k1: int, k2: int|
                0 <= k1 < k2 < sorted@.len() ==> (#[trigger] sorted@[k1]).0 <= (
                #[trigger] sorted@[k2]).0,
            forall|k: int|
                0 <= k < sorted@.len() ==> regions@.contains(#[trigger] sorted@[k]),
            forall|j: int| 0 <= j < i ==> sorted@.contains(#[trigger] regions@[j]),
        decreases n - i,
    {
        let x: (u64, u64) = regions[i];
        let m: usize = sorted.len();
        let mut pos: usize = 0;
        while pos < m && sorted[pos].0 <= x.0
            invariant
                pos <= m,
                m == sorted@.len(),
                forall|j: int| 0 <= j < pos ==> (#[trigger] sorted@[j]).0 <= x.0,
            decreases m - pos,
        {
            pos += 1;
        }
        let ghost s0 = sorted@;
        sorted.insert(pos, x);
        proof {
            assert(pos < s0.len() ==> x.0 < s0[pos as int].0);
            assert forall|k1: int, k2: int|
                0 <= k1 < k2 < sorted@.len() implies (#[trigger] sorted@[k1]).0 <= (
            #[trigger] sorted@[k2]).0 by {
                if k2 < pos {
                } else if k1 < pos && k2 == pos {
                    assert(sorted@[k1] == s0[k1] && sorted@[k2] == x);
                } else if k1 < pos {
                    assert(sorted@[k1] == s0[k1] && sorted@[k2] == s0[k2 - 1]);
                } else if k1 == pos {
                    assert(sorted@[k1] == x && sorted@[k2] == s0[k2 - 1]);
                } else {
                    assert(sorted@[k1] == s0[k1 - 1] && sorted@[k2] == s0[k2 - 1]);
                }
            }
            assert forall|k: int|
                0 <= k < sorted@.len() implies (#[trigger] sorted@[k]).0 <= sorted@[k].1 by {
                if k < pos {
                    assert(sorted@[k] == s0[k]);
                } else if k == pos {
                    assert(sorted@[k] == x);
                } else {
                    assert(sorted@[k] == s0[k - 1]);
                }
            }
            assert forall|k: int|
                0 <= k < sorted@.len() implies regions@.contains(#[trigger] sorted@[k]) by {
                if k < pos {
                    assert(sorted@[k] == s0[k]);
                } else if k == pos {
                    assert(sorted@[k] == regions@[i as int]);
                } else {
                    assert(sorted@[k] == s0[k - 1]);
                }
            }
            assert forall|j: int|
                0 <= j < i + 1 implies sorted@.contains(#[trigger] regions@[j]) by {
                if j < i {
                    let k = choose|k: int| 0 <= k < s0.len() && s0[k] == regions@[j];
                    if k < pos {
                        assert(sorted@[k] == regions@[j]);
                    } else {
                        assert(sorted@[k + 1] == regions@[j]);
                    }
                } else {
                    assert(sorted@[pos as int] == regions@[j]);
                }
            }
        }
        i += 1;
    }
    proof {
        assert forall|a: u64| spec_covered(sorted@, a) == spec_covered(regions@, a) by {
            if spec_covered(sorted@, a) {
                let k = choose|k: int|
                    0 <= k < sorted@.len() && (#[trigger] sorted@[k]).0 <= a < sorted@[k].1;
                assert(regions@.contains(sorted@[k]));
                let j = choose|j: int| 0 <= j < regions@.len() && regions@[j] == sorted@[k];
                assert((regions@[j]).0 <= a < regions@[j].1);
            }
            if spec_covered(regions@, a) {
                let j = choose|j: int|
                    0 <= j < regions@.len() && (#[trigger] regions@[j]).0 <= a < regions@[j].1;
                assert(sorted@.contains(regions@[j]));
                let k = choose|k: int| 0 <= k < sorted@.len() && sorted@[k] == regions@[j];
                assert((sorted@[k]).0 <= a < sorted@[k].1);
            }
        }
    }
    // merge overlapping neighbours
    let mut merged: Vec<(u64, u64)> = Vec::new();
    if sorted.len() == 0 {
        proof {
            assert forall|a: u64| !spec_covered(merged@, a) && !spec_covered(sorted@, a) by {}
        }
        return merged;
    }
    let mut cur: (u64, u64) = sorted[0];
    let sn: usize = sorted.len();
    let mut j: usize = 1;
    proof {
        assert forall|a: u64|
            (spec_covered(merged@, a) || cur.0 <= a < cur.1) == spec_covered(
                sorted@.take(1),
                a,
            ) by {
            let t = sorted@.take(1);
            if cur.0 <= a < cur.1 {
                assert((t[0]).0 <= a < t[0].1);
            }
            if spec_covered(t, a) {
                let k = choose|k: int| 0 <= k < t.len() && (#[trigger] t[k]).0 <= a < t[k].1;
                assert(k == 0);
            }
        }
    }
    while j < sn
        invariant
            1 <= j <= sn,
            sn == sorted@.len(),
            cur.0 <= cur.1,
            forall|k: int| 0 <= k < sorted@.len() ==> (#[trigger] sorted@[k]).0 <= sorted@[k].1,
            forall|k1: int, k2: int|
                0 <= k1 < k2 < sorted@.len() ==> (#[trigger] sorted@[k1]).0 <= (
                #[trigger] sorted@[k2]).0,
            forall|k: int| j <= k < sorted@.len() ==> cur.0 <= (#[trigger] sorted@[k]).0,
            spec_ranges_wf(merged@),
            forall|k: int| 0 <= k < merged@.len() ==> (#[trigger] merged@[k]).1 < cur.0,
            forall|a: u64|
                (spec_covered(merged@, a) || cur.0 <= a < cur.1) == spec_covered(
                    sorted@.take(j as int),
                    a,
                ),
        decreases sn - j,
    {
        let nxt: (u64, u64) = sorted[j];
        let ghost m0 = merged@;
        let ghost cur0 = cur;
        if nxt.0 <= cur.1 {
            if nxt.1 > cur.1 {
                cur = (cur.0, nxt.1);
            }
        } else {
            merged.push(cur);
            cur = nxt;
        }
        proof {
            assert(sorted@.take(j + 1).drop_last() =~= sorted@.take(j as int));
            assert(sorted@.take(j + 1).last() == sorted@[j as int]);
            assert forall|a: u64|
                (spec_covered(merged@, a) || cur.0 <= a < cur.1) == spec_covered(
                    sorted@.take(j + 1),
                    a,
                ) by {
                let t1 = sorted@.take(j + 1);
                let t0 = sorted@.take(j as int);
                assert(spec_covered(t0, a) ==> spec_covered(t1, a)) by {
                    if spec_covered(t0, a) {
                        let k = choose|k: int|
                            0 <= k < t0.len() && (#[trigger] t0[k]).0 <= a < t0[k].1;
                        assert((t1[k]).0 <= a < t1[k].1);
                    }
                }
                if sorted@[j as int].0 <= a < sorted@[j as int].1 {
                    assert((t1[j as int]).0 <= a < t1[j as int].1);
                    assert(spec_covered(t1, a));
                }
                if spec_covered(t1, a) {
                    let k = choose|k: int|
                        0 <= k < t1.len() && (#[trigger] t1[k]).0 <= a < t1[k].1;
                    if k < j {
                        assert((t0[k]).0 <= a < t0[k].1);
                        assert(spec_covered(t0, a));
                    }
                }
                if nxt.0 <= cur0.1 {
                    // absorbed: the window grew to cover both
                    assert(merged@ == m0);
                } else {
                    // the old window was sealed
                    if spec_covered(m0, a) {
                        let k = choose|k: int|
                            0 <= k < m0.len() && (#[trigger] m0[k]).0 <= a < m0[k].1;
                        assert(merged@[k] == m0[k]);
                        assert(spec_covered(merged@, a));
                    }
                    if cur0.0 <= a < cur0.1 {
                        assert(merged@[merged@.len() - 1] == cur0);
                        assert(spec_covered(merged@, a));
                    }
                    if spec_covered(merged@, a) {
                        let k = choose|k: int|
                            0 <= k < merged@.len() && (#[trigger] merged@[k]).0 <= a
                                < merged@[k].1;
                        if k < merged@.len() - 1 {
                            assert(m0[k] == merged@[k]);
                        }
                    }
                }
            }
        }
        j += 1;
    }
    let ghost mpre = merged@;
    merged.push(cur);
    proof {
        assert(sorted@.take(sn as int) =~= sorted@);
        assert forall|k1: int, k2: int|
            0 <= k1 < k2 < merged@.len() implies (#[trigger] merged@[k1]).1 < (
        #[trigger] merged@[k2]).0 by {
            if k2 < merged@.len() - 1 {
                assert(merged@[k1] == mpre[k1] && merged@[k2] == mpre[k2]);
            } else {
                assert(merged@[k2] == cur);
                assert(merged@[k1] == mpre[k1]);
            }
        }
        assert forall|k: int|
            0 <= k < merged@.len() implies (#[trigger] merged@[k]).0 <= merged@[k].1 by {
            if k < merged@.len() - 1 {
                assert(merged@[k] == mpre[k]);
            } else {
                assert(merged@[k] == cur);
            }
        }
        assert forall|a: u64| spec_covered(merged@, a) == spec_covered(sorted@, a) by {
            assert((spec_covered(mpre, a) || cur.0 <= a < cur.1) == spec_covered(sorted@, a));
            if spec_covered(merged@, a) {
                let k = choose|k: int|
                    0 <= k < merged@.len() && (#[trigger] merged@[k]).0 <= a < merged@[k].1;
                if k < merged@.len() - 1 {
                    assert(mpre[k] == merged@[k]);
                    assert(spec_covered(mpre, a));
                } else {
                    assert(merged@[k] == cur);
                    assert(cur.0 <= a < cur.1);
                }
            }
            if spec_covered(mpre, a) {
                let k = choose|k: int|
                    0 <= k < mpre.len() && (#[trigger] mpre[k]).0 <= a < mpre[k].1;
                assert(merged@[k] == mpre[k]);
                assert(spec_covered(merged@, a));
            }
            if cur.0 <= a < cur.1 {
                assert(merged@[merged@.len() - 1] == cur);
                assert(spec_covered(merged@, a));
            }
        }
    }
    merged
}

/// Whether a canonicalised value lands inside some scanned region, by
/// binary search over the merged validity list.
pub fn is_valid_pointer(masked: u64, valid_ranges: &Vec<(u64, u64)>) -> (r: bool)
    requires
        spec_ranges_wf(valid_ranges@),
    ensures
        r == spec_covered(valid_ranges@, masked),
{
    let mut lo: usize = 0;
    let mut hi: usize = valid_ranges.len();
    while lo < hi
        invariant
            lo <= hi <= valid_ranges@.len(),
            spec_ranges_wf(valid_ranges@),
            forall|k: int|
                0 <= k < valid_ranges@.len() && (#[trigger] valid_ranges@[k]).0 <= masked
                    < valid_ranges@[k].1 ==> lo <= k < hi,
        decreases hi - lo,
    {
        let mid: usize = lo + (hi - lo) / 2;
        let (s, e): (u64, u64) = valid_ranges[mid];
        if masked < s {
            proof {
                assert forall|k: int|
                    0 <= k < valid_ranges@.len() && (#[trigger] valid_ranges@[k]).0 <= masked
                        < valid_ranges@[k].1 implies lo <= k < mid by {
                    if k >= mid {
                        assert(valid_ranges@[mid as int].0 <= valid_ranges@[k].0);
                    }
                }
            }
            hi = mid;
        } else if masked >= e {
            proof {
                assert forall|k: int|
                    0 <= k < valid_ranges@.len() && (#[trigger] valid_ranges@[k]).0 <= masked
                        < valid_ranges@[k].1 implies mid + 1 <= k < hi by {
                    if k <= mid {
                        if k < mid {
                            assert(valid_ranges@[k].1 < valid_ranges@[mid as int].0);
                        }
                    }
                }
            }
            lo = mid + 1;
        } else {
            proof {
                assert(spec_covered(valid_ranges@, masked));
            }
            return true;
        }
    }
    proof {
        if spec_covered(valid_ranges@, masked) {
            let k = choose|k: int|
                0 <= k < valid_ranges@.len() && (#[trigger] valid_ranges@[k]).0 <= masked
                    < valid_ranges@[k].1;
            assert(lo <= k < hi);
            assert(false);
        }
    }
    false
}

/// Whether buffer offset `off` holds a collectable pointer: it sits on the
/// alignment stride, the whole eight-byte slot lies inside its own read
/// page, the page was filled, and the canonicalised value lands in a
/// scanned region.
pub open spec fn spec_pointer_at(
    buffer: Seq<u8>,
    align: nat,
    ranges: Seq<(u64, u64)>,
    bm: &PageStatusBitmap,
    off: int,
) -> bool {
    &&& 0 <= off
    &&& off % (align as int) == 0
    &&& off + 8 <= buffer.len()
    &&& off + 8 <= (off / 4096 + 1) * 4096
    &&& bm.spec_page_success((off / 4096) as nat)
    &&& spec_covered(
        ranges,
        spec_canonical_address(spec_u64_from_le_bytes(buffer.subrange(off, off + 8))),
    )
}

/// The canonicalised value an offset holds.
pub open spec fn spec_value_at(buffer: Seq<u8>, off: int) -> u64 {
    spec_canonical_address(spec_u64_from_le_bytes(buffer.subrange(off, off + 8)))
}

/// Whether `item` records some collectable offset of the chunk.
pub open spec fn spec_collected_item(
    buffer: Seq<u8>,
    buffer_addr: u64,
    align: nat,
    ranges: Seq<(u64, u64)>,
    bm: &PageStatusBitmap,
    item: PointerData,
) -> bool {
    exists|off: int|
        spec_pointer_at(buffer, align, ranges, bm, off) && item == (PointerData {
            address: (buffer_addr + off) as u64,
            value: spec_value_at(buffer, off),
        })
}

/// Collects every aligned, readable pointer of one read chunk whose value
/// lands in a scanned region, in ascending address order.
#[verifier::rlimit(80)]
pub fn collect_pointers_in_chunk(
    buffer: &[u8],
    buffer_addr: u64,
    align: usize,
    valid_ranges: &Vec<(u64, u64)>,
    page_status: &PageStatusBitmap,
    results: &mut Vec<PointerData>,
)
    requires
        align == 1 || align == 2 || align == 4 || align == 8,
        spec_ranges_wf(valid_ranges@),
        buffer@.len() <= 0x1000_0000,
        buffer_addr <= 0xFFFF_FFFF_0000_0000,
    ensures
        final(results)@.len() >= old(results)@.len(),
        final(results)@.subrange(0, old(results)@.len() as int) =~= old(results)@,
        forall|k: int|
            old(results)@.len() <= k < final(results)@.len() ==> #[trigger] spec_collected_item(
                buffer@,
                buffer_addr,
                align as nat,
                valid_ranges@,
                page_status,
                final(results)@[k],
            ),
        forall|off: int|
            #[trigger] spec_pointer_at(buffer@, align as nat, valid_ranges@, page_status, off)
                ==> exists|k: int|
                old(results)@.len() <= k < final(results)@.len() && (#[trigger] final(results)@[k]).address == buffer_addr + off,
        forall|k1: int, k2: int|
            old(results)@.len() <= k1 < k2 < final(results)@.len() ==> final(results)@[k1].address < final(results)@[k2].address,
{
    let ghost n0 = results@.len() as int;
    let buffer_len: usize = buffer.len();
    let mut off: usize = 0;
    if buffer_len < 8 {
        proof {
            assert(results@.subrange(0, n0) =~= old(results)@);
        }
        return ;
    }
    while off + 8 <= buffer_len
        invariant
            align == 1 || align == 2 || align == 4 || align == 8,
            spec_ranges_wf(valid_ranges@),
            buffer@.len() <= 0x1000_0000,
            buffer_len == buffer@.len(),
            buffer_addr <= 0xFFFF_FFFF_0000_0000,
            n0 == old(results)@.len(),
            off % align == 0,
            off <= buffer_len + 4096,
            results@.len() >= n0,
            results@.subrange(0, n0) =~= old(results)@,
            forall|k: int|
                n0 <= k < results@.len() ==> #[trigger] spec_collected_item(
                    buffer@,
                    buffer_addr,
                    align as nat,
                    valid_ranges@,
                    page_status,
                    results@[k],
                ),
            forall|o: int|
                #[trigger] spec_pointer_at(buffer@, align as nat, valid_ranges@, page_status, o)
                    && o < off ==> exists|k: int|
                    n0 <= k < results@.len() && (#[trigger] results@[k]).address == buffer_addr
                        + o,
            forall|k: int| n0 <= k < results@.len() ==> results@[k].address < buffer_addr + off,
            forall|k1: int, k2: int|
                n0 <= k1 < k2 < results@.len() ==> results@[k1].address < results@[k2].address,
        decreases buffer_len + 4096 - off,
    {
        let page: usize = off / 4096;
        let page_end: usize = (page + 1) * 4096;
        proof {
            lemma_fundamental_div_mod(off as int, 4096);
        }
        if !page_status.is_page_success(page) || off + 8 > page_end {
            // the slot's page failed, or the slot would cross into the
            // next page: skip to the next page start, which stays aligned
            proof {
                assert(page_end % align == 0) by {
                    let q: int = 4096int / (align as int);
                    lemma_mod_multiples_vanish((page + 1) * q, 0, align as int);
                    assert((align as int) * ((page + 1) * q) == (page + 1) * 4096)
                        by (nonlinear_arith)
                        requires
                            align == 1 || align == 2 || align == 4 || align == 8,
                            q == 4096int / (align as int),
                    ;
                }
                assert forall|o: int|
                    spec_pointer_at(buffer@, align as nat, valid_ranges@, page_status, o) && o
                        < page_end implies exists|k: int|
                    n0 <= k < results@.len() && (#[trigger] results@[k]).address == buffer_addr
                        + o by {
                    if o >= off {
                        assert(o / 4096 == page) by {
                            assert(page * 4096 <= o < (page + 1) * 4096);
                            lemma_fundamental_div_mod(o, 4096);
                        }
                        assert(false);
                    }
                }
            }
            off = page_end;
        } else {
            let sub: &[u8] = vstd::slice::slice_subrange(buffer, off, off + 8);
            let raw: u64 = u64_from_le_bytes(sub);
            let masked: u64 = crate::gateway::canonical_address(raw);
            proof {
                assert(sub@ =~= buffer@.subrange(off as int, off + 8));
                assert(masked == spec_value_at(buffer@, off as int));
            }
            let hit: bool = is_valid_pointer(masked, valid_ranges);
            if hit {
                let addr: u64 = buffer_addr + off as u64;
                let ghost r0 = results@;
                results.push(PointerData { address: addr, value: masked });
                proof {
                    assert(results@.subrange(0, n0) =~= old(results)@);
                    assert(spec_pointer_at(
                        buffer@,
                        align as nat,
                        valid_ranges@,
                        page_status,
                        off as int,
                    ));
                    assert(results@[results@.len() - 1] == (PointerData {
                        address: addr,
                        value: masked,
                    }));
                    assert(spec_collected_item(
                        buffer@,
                        buffer_addr,
                        align as nat,
                        valid_ranges@,
                        page_status,
                        results@[results@.len() - 1],
                    ));
                    assert forall|o: int|
                        spec_pointer_at(buffer@, align as nat, valid_ranges@, page_status, o)
                            && o < off + align implies exists|k: int|
                        n0 <= k < results@.len() && (#[trigger] results@[k]).address
                            == buffer_addr + o by {
                        if o < off {
                            let k = choose|k: int|
                                n0 <= k < r0.len() && (#[trigger] r0[k]).address == buffer_addr
                                    + o;
                            assert(results@[k].address == buffer_addr + o);
                        } else if o > off {
                            crate::matcher::lemma_aligned_gap(align as int, off as int, o);
                            assert(false);
                        } else {
                            assert(results@[results@.len() - 1].address == buffer_addr + o);
                        }
                    }
                }
            } else {
                proof {
                    assert forall|o: int|
                        spec_pointer_at(buffer@, align as nat, valid_ranges@, page_status, o)
                            && o < off + align implies exists|k: int|
                        n0 <= k < results@.len() && (#[trigger] results@[k]).address
                            == buffer_addr + o by {
                        if o == off {
                            assert(!spec_covered(valid_ranges@, spec_value_at(buffer@, o)));
                            assert(false);
                        } else if o > off {
                            crate::matcher::lemma_aligned_gap(align as int, off as int, o);
                            assert(false);
                        }
                    }
                }
            }
            proof {
                lemma_mod_multiples_vanish(1, off as int, align as int);
            }
            off += align;
        }
    }
    proof {
        assert forall|o: int|
            spec_pointer_at(buffer@, align as nat, valid_ranges@, page_status, o) implies exists|
            k: int,
        |
            n0 <= k < results@.len() && (#[trigger] results@[k]).address == buffer_addr + o by {
            assert(o + 8 <= buffer_len);
            assert(o < off);
        }
        assert(results@.subrange(0, n0) =~= old(results)@);
    }
}

} // verus!
