//! The search executor's decision core.
//!
//! Chunk reads and task scheduling live in the surrounding application;
//! this module owns everything the executor decides: submission checks,
//! result-set commit (sort and dedup), refine filtering, and the store and
//! status transitions around them.

use vstd::prelude::*;
use crate::values::{SearchQuery, SearchValue, ValueType};
use crate::matcher::ValuePair;
use crate::fuzzy::FuzzySearchResultItem;
use crate::store::{SearchResultManager, SearchResultItem, SearchResultMode};
use crate::status::{PointerScanSharedBuffer, ScanPhase, ScanErrorCode, OFFSET_PHASE,
    OFFSET_PROGRESS, OFFSET_CANCEL_FLAG, OFFSET_ERROR_CODE, lemma_field_i32_frame};

verus! {

/// Strict commit order of result pairs: by address, then by type
/// identifier.
pub open spec fn pair_lt(a: ValuePair, b: ValuePair) -> bool {
    ||| a.addr < b.addr
    ||| (a.addr == b.addr && a.value_type.spec_to_id() < b.value_type.spec_to_id())
}

/// Type identifiers are distinct, so the commit order is a strict total
/// order on `(address, type)` pairs.
proof fn lemma_pair_order(a: ValuePair, b: ValuePair)
    ensures
        pair_lt(a, b) || pair_lt(b, a) || a == b,
        !(pair_lt(a, b) && pair_lt(b, a)),
        a == b ==> !pair_lt(a, b),
{
    if a.value_type.spec_to_id() == b.value_type.spec_to_id() {
        assert(a.value_type == b.value_type);
    }
}

fn pair_lt_exec(a: &ValuePair, b: &ValuePair) -> (r: bool)
    ensures
        r == pair_lt(*a, *b),
{
    a.addr < b.addr || (a.addr == b.addr && a.value_type.to_id() < b.value_type.to_id())
}

/// Inserting keeps every element of a sequence present.
proof fn lemma_contains_insert(s: Seq<ValuePair>, pos: int, x: ValuePair, y: ValuePair)
    requires
        0 <= pos <= s.len(),
        s.contains(y),
    ensures
        s.insert(pos, x).contains(y),
{
    let k = choose|k: int| 0 <= k < s.len() && s[k] == y;
    if k < pos {
        assert(s.insert(pos, x)[k] == y);
    } else {
        assert(s.insert(pos, x)[k + 1] == y);
    }
}

/// The canonical commit of a search's raw findings: sorted by address
/// (then type), with duplicate `(address, type)` pairs dropped, and
/// holding exactly the set of pairs found.
pub fn sort_and_dedup_results(results: &Vec<ValuePair>) -> (r: Vec<ValuePair>)
    ensures
        r@.len() <= results@.len(),
        forall|k1: int, k2: int| 0 <= k1 < k2 < r@.len() ==> pair_lt(r@[k1], r@[k2]),
        forall|k1: int, k2: int|
            0 <= k1 < k2 < r@.len() ==> (#[trigger] r@[k1]).addr <= (#[trigger] r@[k2]).addr,
        forall|k1: int, k2: int|
            0 <= k1 < k2 < r@.len() ==> !((#[trigger] r@[k1]).addr == (#[trigger] r@[k2]).addr
                && r@[k1].value_type == r@[k2].value_type),
        forall|k: int| 0 <= k < r@.len() ==> results@.contains(#[trigger] r@[k]),
        forall|j: int| 0 <= j < results@.len() ==> r@.contains(#[trigger] results@[j]),
{
    let n: usize = results.len();
    let mut out: Vec<ValuePair> = Vec::new();
    let mut i: usize = 0;
    while i < n
        invariant
            i <= n,
            n == results@.len(),
            out@.len() <= i,
            forall|k1: int, k2: int| 0 <= k1 < k2 < out@.len() ==> pair_lt(out@[k1], out@[k2]),
            forall|k: int| 0 <= k < out@.len() ==> results@.contains(#[trigger] out@[k]),
            forall|j: int| 0 <= j < i ==> out@.contains(#[trigger] results@[j]),
        decreases n - i,
    {
        let x: ValuePair = results[i];
        let out_len: usize = out.len();
        let mut pos: usize = 0;
        while pos < out_len && pair_lt_exec(&out[pos], &x)
            invariant
                pos <= out_len,
                out_len == out@.len(),
                forall|j: int| 0 <= j < pos ==> pair_lt(out@[j], x),
            decreases out_len - pos,
        {
            pos += 1;
        }
        let duplicate: bool = pos < out_len && out[pos] == x;
        if duplicate {
            proof {
                assert(out@.contains(out@[pos as int]));
                assert(out@[pos as int] == x);
            }
        } else {
            let ghost o0 = out@;
            out.insert(pos, x);
            proof {
                if pos < o0.len() {
                    lemma_pair_order(o0[pos as int], x);
                    assert(pair_lt(x, o0[pos as int]));
                }
                assert forall|k1: int, k2: int|
                    0 <= k1 < k2 < out@.len() implies pair_lt(out@[k1], out@[k2]) by {
                    if k2 < pos {
                        assert(out@[k1] == o0[k1] && out@[k2] == o0[k2]);
                    } else if k1 < pos && k2 == pos {
                        assert(out@[k1] == o0[k1] && out@[k2] == x);
                    } else if k1 < pos && k2 > pos {
                        assert(out@[k1] == o0[k1] && out@[k2] == o0[k2 - 1]);
                        if k1 == k2 - 1 {
                            assert(false);
                        }
                    } else if k1 == pos {
                        assert(out@[k1] == x && out@[k2] == o0[k2 - 1]);
                        assert(pair_lt(x, o0[pos as int]));
                        if k2 - 1 > pos {
                            lemma_pair_order(o0[pos as int], o0[k2 - 1]);
                        }
                    } else {
                        assert(out@[k1] == o0[k1 - 1] && out@[k2] == o0[k2 - 1]);
                    }
                }
                assert forall|k: int|
                    0 <= k < out@.len() implies results@.contains(#[trigger] out@[k]) by {
                    if k < pos {
                        assert(out@[k] == o0[k]);
                    } else if k == pos {
                        assert(out@[k] == results@[i as int]);
                    } else {
                        assert(out@[k] == o0[k - 1]);
                    }
                }
                assert forall|j: int|
                    0 <= j < i + 1 implies out@.contains(#[trigger] results@[j]) by {
                    if j < i {
                        lemma_contains_insert(o0, pos as int, x, results@[j]);
                    } else {
                        assert(out@[pos as int] == results@[j]);
                    }
                }
            }
        }
        i += 1;
    }
    proof {
        assert forall|k1: int, k2: int|
            0 <= k1 < k2 < out@.len() implies !((#[trigger] out@[k1]).addr
            == (#[trigger] out@[k2]).addr && out@[k1].value_type == out@[k2].value_type) by {
            lemma_pair_order(out@[k1], out@[k2]);
            assert(pair_lt(out@[k1], out@[k2]));
        }
        assert forall|k1: int, k2: int|
            0 <= k1 < k2 < out@.len() implies (#[trigger] out@[k1]).addr <= (#[trigger] out@[k2]).addr by {
            assert(pair_lt(out@[k1], out@[k2]));
        }
    }
    out
}

/// Which pairs an exact refine keeps: those whose type is the query's and
/// whose freshly read bytes still satisfy the value.
pub open spec fn spec_refine_exact(
    pairs: Seq<(ValuePair, Seq<u8>)>,
    target: SearchValue,
) -> Seq<ValuePair>
    decreases pairs.len(),
{
    if pairs.len() == 0 {
        Seq::empty()
    } else {
        let rest = spec_refine_exact(pairs.drop_last(), target);
        let pair = pairs.last();
        if pair.0.value_type == target.spec_value_type() && target.spec_match_supported()
            && pair.1.len() >= target.spec_required_len() && target.spec_matched(pair.1) {
            rest.push(pair.0)
        } else {
            rest
        }
    }
}

/// Applies a new query value to surviving addresses paired with their
/// freshly read bytes, keeping exactly those that still match.
pub fn refine_exact_filter(pairs: &Vec<(ValuePair, Vec<u8>)>, target: &SearchValue) -> (r: Vec<
    ValuePair,
>)
    ensures
        r@ == spec_refine_exact(
            Seq::new(pairs@.len(), |i: int| (pairs@[i].0, pairs@[i].1@)),
            *target,
        ),
{
    let ghost ps = Seq::new(pairs@.len(), |i: int| (pairs@[i].0, pairs@[i].1@));
    let mut r: Vec<ValuePair> = Vec::new();
    let n: usize = pairs.len();
    let mut i: usize = 0;
    proof {
        assert(ps.take(0) =~= Seq::<(ValuePair, Seq<u8>)>::empty());
    }
    while i < n
        invariant
            i <= n,
            n == pairs@.len(),
            ps == Seq::new(pairs@.len(), |j: int| (pairs@[j].0, pairs@[j].1@)),
            r@ == spec_refine_exact(ps.take(i as int), *target),
        decreases n - i,
    {
        let pair_type: ValueType = pairs[i].0.value_type;
        let same_type: bool = pair_type.to_id() == target.value_type().to_id();
        let keep: bool = if same_type {
            match target.matched(pairs[i].1.as_slice()) {
                Ok(b) => b,
                Err(_) => false,
            }
        } else {
            false
        };
        proof {
            assert(ps.take(i + 1).drop_last() =~= ps.take(i as int));
            assert(ps.take(i + 1).last() == (pairs@[i as int].0, pairs@[i as int].1@));
            if pair_type.spec_to_id() == target.spec_value_type().spec_to_id() {
                assert(pair_type == target.spec_value_type());
            }
        }
        if keep {
            r.push(pairs[i].0);
        }
        i += 1;
    }
    proof {
        assert(ps.take(n as int) =~= ps);
    }
    r
}

/// An exact refine never invents a result: every kept pair was among the
/// refined ones.
pub proof fn lemma_refine_exact_subset(
    pairs: Seq<(ValuePair, Seq<u8>)>,
    target: SearchValue,
    k: int,
)
    requires
        0 <= k < spec_refine_exact(pairs, target).len(),
    ensures
        exists|j: int|
            0 <= j < pairs.len() && spec_refine_exact(pairs, target)[k] == (#[trigger] pairs[j]).0,
    decreases pairs.len(),
{
    if pairs.len() > 0 {
        let rest = spec_refine_exact(pairs.drop_last(), target);
        if k < rest.len() {
            lemma_refine_exact_subset(pairs.drop_last(), target, k);
            let j = choose|j: int|
                0 <= j < pairs.drop_last().len() && rest[k] == (#[trigger] pairs.drop_last()[j]).0;
            assert(pairs[j] == pairs.drop_last()[j]);
            assert(spec_refine_exact(pairs, target)[k] == pairs[j].0);
        } else {
            assert(spec_refine_exact(pairs, target)[k] == pairs[pairs.len() - 1].0);
        }
    }
}

/// Whether `pair` records a matching position of the chunk for `target`.
pub open spec fn spec_found_pair(
    buffer: Seq<u8>,
    buffer_addr: u64,
    region_start: u64,
    region_end: u64,
    target: SearchValue,
    bm: &crate::bitmap::PageStatusBitmap,
    pair: ValuePair,
) -> bool {
    exists|p: int|
        crate::matcher::spec_single_match(
            buffer,
            buffer_addr,
            region_start,
            region_end,
            target.spec_required_len(),
            target,
            bm,
            p,
        ) && pair.addr == buffer_addr + p
}

/// Runs one submitted query over one read chunk.
///
/// A query with a single value takes the single-value scan whatever its
/// group window and order say: the result is pinned by the value alone,
/// so a group submission with one value and a plain single-value search
/// are the same search.  Several values take the anchored group scan.
pub fn search_query_in_chunk(
    query: &SearchQuery,
    buffer: &[u8],
    buffer_addr: u64,
    region_start: u64,
    region_end: u64,
    page_status: &crate::bitmap::PageStatusBitmap,
    results: &mut Vec<ValuePair>,
)
    requires
        query.spec_valid(),
        crate::group::spec_values_scannable(query.values@),
        buffer@.len() <= 0x1000_0000,
        buffer_addr <= 0xFFFF_0000_0000_0000,
    ensures
        final(results)@.len() >= old(results)@.len(),
        final(results)@.subrange(0, old(results)@.len() as int) =~= old(results)@,
        query.values@.len() == 1 ==> forall|p: int|
            #[trigger] crate::matcher::spec_single_match(
                buffer@,
                buffer_addr,
                region_start,
                region_end,
                query.values@[0].spec_required_len(),
                query.values@[0],
                page_status,
                p,
            ) ==> crate::matcher::spec_emitted(
                final(results)@,
                old(results)@.len() as int,
                buffer_addr + p,
            ),
        query.values@.len() == 1 ==> forall|k: int|
            old(results)@.len() <= k < final(results)@.len() ==> #[trigger] spec_found_pair(
                buffer@,
                buffer_addr,
                region_start,
                region_end,
                query.values@[0],
                page_status,
                final(results)@[k],
            ),
        query.values@.len() > 1 ==> forall|k: int|
            old(results)@.len() <= k < final(results)@.len()
                ==> #[trigger] crate::group::spec_group_member(
                buffer@,
                buffer_addr,
                region_start,
                region_end,
                *query,
                page_status,
                final(results)@[k],
            ),
        query.values@.len() > 1 ==> forall|p0: int|
            #[trigger] crate::group::spec_covering_exists(
                buffer@,
                buffer_addr,
                region_start,
                region_end,
                *query,
                page_status,
                p0,
            ) ==> crate::matcher::spec_emitted(
                final(results)@,
                old(results)@.len() as int,
                buffer_addr + p0,
            ) && crate::group::spec_covering_emitted(
                buffer@,
                buffer_addr,
                region_start,
                region_end,
                *query,
                page_status,
                p0,
                final(results)@,
                old(results)@.len() as int,
            ),
{
    if query.values.len() > 1 {
        crate::group::search_in_buffer_group(
            buffer,
            buffer_addr,
            region_start,
            region_end,
            query,
            page_status,
            results,
        );
        return ;
    }
    let target: &SearchValue = &query.values[0];
    let element_size: usize = match target {
        SearchValue::FixedInt { value_type, .. } => value_type.size(),
        SearchValue::RangeInt { value_type, .. } => value_type.size(),
        SearchValue::Pattern { pattern } => pattern.len(),
    };
    let value_type: ValueType = target.value_type();
    crate::matcher::search_in_chunks_with_status(
        buffer,
        buffer_addr,
        region_start,
        region_end,
        element_size,
        target,
        value_type,
        page_status,
        results,
    );
    proof {
        assert forall|k: int|
            old(results)@.len() <= k < results@.len() implies #[trigger] spec_found_pair(
            buffer@,
            buffer_addr,
            region_start,
            region_end,
            query.values@[0],
            page_status,
            results@[k],
        ) by {
            assert(results@[k].value_type == value_type);
        }
    }
}

/// One coalesced read of a refine step: a run of nearby surviving
/// addresses served by a single kernel read of `total_size` bytes from
/// `start_addr`.
pub struct AddressBatch {
    pub start_addr: u64,
    pub total_size: usize,
    pub items: Vec<BatchItemRef>,
}

/// One surviving record inside a batch: where its bytes sit in the batch
/// buffer, which record it is, and how many bytes it reads.
#[derive(Debug, Clone, Copy, PartialEq, Eq, Structural)]
pub struct BatchItemRef {
    pub offset: usize,
    pub item_index: usize,
    pub value_size: usize,
}

/// The span the batch's first `t + 1` members cover from its start: the
/// running maximum of member end offsets, which is also the batch's
/// running read size.
pub open spec fn spec_running_span(refs: Seq<BatchItemRef>, t: int) -> int
    recommends
        0 <= t < refs.len(),
    decreases t,
{
    if t <= 0 {
        if refs.len() > 0 {
            refs[0].offset + refs[0].value_size
        } else {
            0
        }
    } else {
        let prev = spec_running_span(refs, t - 1);
        let e = refs[t].offset + refs[t].value_size;
        if e > prev {
            e
        } else {
            prev
        }
    }
}

/// Appending a member leaves the earlier running spans alone.
proof fn lemma_running_span_push(refs: Seq<BatchItemRef>, x: BatchItemRef, t: int)
    requires
        0 <= t < refs.len(),
    ensures
        spec_running_span(refs.push(x), t) == spec_running_span(refs, t),
    decreases t,
{
    if t > 0 {
        lemma_running_span_push(refs, x, t - 1);
        assert(refs.push(x)[t] == refs[t]);
    } else {
        assert(refs.push(x)[0] == refs[0]);
    }
}

/// Number of records in the batches before batch `b`.
pub open spec fn spec_batch_base(batches: Seq<AddressBatch>, b: int) -> int
    decreases b,
{
    if b <= 0 {
        0
    } else {
        spec_batch_base(batches, b - 1) + batches[b - 1].items@.len()
    }
}

/// Whether one batch correctly describes its records against the refined
/// set: each reference points back into `items`, its offset recovers its
/// record's address inside the read, and its bytes fit the read.
pub open spec fn spec_batch_wf(batch: AddressBatch, items: Seq<FuzzySearchResultItem>) -> bool {
    forall|t: int|
        0 <= t < batch.items@.len() ==> {
            let r = #[trigger] batch.items@[t];
            &&& r.item_index < items.len()
            &&& batch.start_addr + r.offset == items[r.item_index as int].address
            &&& r.value_size == items[r.item_index as int].value_type.spec_size()
            &&& r.offset + r.value_size <= batch.total_size
        }
}

/// Clusters the surviving records of a refine step into coalesced reads:
/// walking the address-sorted records, a record joins the open batch when
/// the gap to it is at most a page and the grown batch stays within the
/// read cap, and otherwise starts a new batch.
///
/// The batches cover the records exactly, in order: batch `b` holds the
/// records `base(b) .. base(b) + len(b)`, each described by its offset and
/// width inside the batch's read.
pub fn cluster_addresses(items: &Vec<FuzzySearchResultItem>) -> (r: Vec<AddressBatch>)
    requires
        forall|k1: int, k2: int|
            0 <= k1 < k2 < items@.len() ==> (#[trigger] items@[k1]).address <= (
            #[trigger] items@[k2]).address,
        forall|k: int|
            0 <= k < items@.len() ==> (#[trigger] items@[k]).address + items@[k].value_type.spec_size()
                <= 0xFFFF_FFFF_FFFF_FFFF,
    ensures
        forall|b: int| 0 <= b < r@.len() ==> (#[trigger] r@[b]).items@.len() >= 1,
        forall|b: int| 0 <= b < r@.len() ==> spec_batch_wf(#[trigger] r@[b], items@),
        forall|b: int, t: int|
            #![trigger r@[b].items@[t]]
            0 <= b < r@.len() && 0 <= t < r@[b].items@.len() ==> r@[b].items@[t].item_index
                == spec_batch_base(r@, b) + t,
        spec_batch_base(r@, r@.len() as int) == items@.len(),
        // merge caps: each coalesced read stays within the bound-path
        // limit, and a member joins only within a page of the covered span
        forall|b: int| 0 <= b < r@.len() ==> (#[trigger] r@[b]).total_size <= 0x1_0000,
        forall|b: int|
            0 <= b < r@.len() ==> (#[trigger] r@[b]).total_size == spec_running_span(
                r@[b].items@,
                r@[b].items@.len() - 1,
            ),
        forall|b: int, t: int|
            #![trigger r@[b].items@[t]]
            0 <= b < r@.len() && 1 <= t < r@[b].items@.len() ==> r@[b].items@[t].offset
                <= spec_running_span(r@[b].items@, t - 1) + 4096,
{
    let n: usize = items.len();
    let mut batches: Vec<AddressBatch> = Vec::new();
    let mut idx: usize = 0;
    while idx < n
        invariant
            idx <= n,
            n == items@.len(),
            forall|k1: int, k2: int|
                0 <= k1 < k2 < items@.len() ==> (#[trigger] items@[k1]).address <= (
                #[trigger] items@[k2]).address,
            forall|k: int|
                0 <= k < items@.len() ==> (#[trigger] items@[k]).address
                    + items@[k].value_type.spec_size() <= 0xFFFF_FFFF_FFFF_FFFF,
            forall|b: int| 0 <= b < batches@.len() ==> (#[trigger] batches@[b]).items@.len() >= 1,
            forall|b: int| 0 <= b < batches@.len() ==> spec_batch_wf(#[trigger] batches@[b], items@),
            forall|b: int, t: int|
                #![trigger batches@[b].items@[t]]
                0 <= b < batches@.len() && 0 <= t < batches@[b].items@.len()
                    ==> batches@[b].items@[t].item_index == spec_batch_base(batches@, b) + t,
            spec_batch_base(batches@, batches@.len() as int) == idx,
            forall|b: int| 0 <= b < batches@.len() ==> (#[trigger] batches@[b]).total_size <= 0x1_0000,
            forall|b: int|
                0 <= b < batches@.len() ==> (#[trigger] batches@[b]).total_size
                    == spec_running_span(batches@[b].items@, batches@[b].items@.len() - 1),
            forall|b: int, t: int|
                #![trigger batches@[b].items@[t]]
                0 <= b < batches@.len() && 1 <= t < batches@[b].items@.len()
                    ==> batches@[b].items@[t].offset <= spec_running_span(
                    batches@[b].items@,
                    t - 1,
                ) + 4096,
        decreases n - idx,
    {
        // open a new batch at the current record
        let ghost batches0 = batches@;
        let first_size: usize = items[idx].value_size();
        let start_addr: u64 = items[idx].address;
        let mut batch: AddressBatch = AddressBatch {
            start_addr,
            total_size: first_size,
            items: Vec::new(),
        };
        batch.items.push(BatchItemRef { offset: 0, item_index: idx, value_size: first_size });
        let base: usize = idx;
        idx += 1;
        // absorb following records while the gap and the cap allow
        while idx < n
            invariant
                base < idx <= n,
                n == items@.len(),
                forall|k1: int, k2: int|
                    0 <= k1 < k2 < items@.len() ==> (#[trigger] items@[k1]).address <= (
                    #[trigger] items@[k2]).address,
                forall|k: int|
                    0 <= k < items@.len() ==> (#[trigger] items@[k]).address
                        + items@[k].value_type.spec_size() <= 0xFFFF_FFFF_FFFF_FFFF,
                batch.start_addr == items@[base as int].address,
                batch.items@.len() == idx - base,
                batch.total_size <= 0x1_0000,
                batch.total_size == spec_running_span(
                    batch.items@,
                    batch.items@.len() - 1,
                ),
                forall|t: int|
                    1 <= t < batch.items@.len() ==> (#[trigger] batch.items@[t]).offset
                        <= spec_running_span(batch.items@, t - 1) + 4096,
                batch.start_addr + batch.total_size <= 0xFFFF_FFFF_FFFF_FFFF,
                spec_batch_wf(batch, items@),
                forall|t: int|
                    0 <= t < batch.items@.len() ==> (#[trigger] batch.items@[t]).item_index
                        == base + t,
            decreases n - idx,
        {
            let addr: u64 = items[idx].address;
            let size: usize = items[idx].value_size();
            let batch_end: u64 = batch.start_addr + batch.total_size as u64;
            if addr >= batch_end && addr - batch_end > 4096 {
                break ;
            }
            if addr < batch.start_addr {
                break ;
            }
            let span: u64 = addr - batch.start_addr + size as u64;
            let new_total: u64 = if span > batch.total_size as u64 {
                span
            } else {
                batch.total_size as u64
            };
            if new_total > 0x1_0000 {
                break ;
            }
            let ghost refs0 = batch.items@;
            let new_ref: BatchItemRef = BatchItemRef {
                offset: (addr - batch.start_addr) as usize,
                item_index: idx,
                value_size: size,
            };
            proof {
                // the gap rule holds of the newcomer, and earlier spans
                // are untouched by the push
                assert forall|t: int|
                    0 <= t < refs0.len() implies spec_running_span(refs0.push(new_ref), t)
                    == spec_running_span(refs0, t) by {
                    lemma_running_span_push(refs0, new_ref, t);
                }
                assert(spec_running_span(refs0.push(new_ref), refs0.len() as int)
                    == new_total);
            }
            batch.items.push(new_ref);
            batch.total_size = new_total as usize;
            idx += 1;
        }
        batches.push(batch);
        proof {
            assert(spec_batch_base(batches@, batches@.len() - 1) == spec_batch_base(
                batches0,
                batches0.len() as int,
            )) by {
                lemma_batch_base_push(batches0, batches@[batches@.len() - 1]);
            }
            assert forall|b: int, t: int|
                #![trigger batches@[b].items@[t]]
                0 <= b < batches@.len() && 0 <= t < batches@[b].items@.len()
                    implies batches@[b].items@[t].item_index == spec_batch_base(batches@, b)
                + t by {
                lemma_batch_base_push(batches0, batches@[batches@.len() - 1]);
                if b < batches@.len() - 1 {
                    assert(batches@[b] == batches0[b]);
                    lemma_batch_base_push_prefix(batches0, batches@[batches@.len() - 1], b);
                } else {
                    assert(spec_batch_base(batches@, b) == base);
                }
            }
            assert forall|b: int|
                0 <= b < batches@.len() implies spec_batch_wf(
                #[trigger] batches@[b],
                items@,
            ) by {
                if b < batches@.len() - 1 {
                    assert(batches@[b] == batches0[b]);
                }
            }
            assert forall|b: int|
                0 <= b < batches@.len() implies (#[trigger] batches@[b]).total_size
                == spec_running_span(batches@[b].items@, batches@[b].items@.len() - 1)
                && batches@[b].total_size <= 0x1_0000 by {
                if b < batches@.len() - 1 {
                    assert(batches@[b] == batches0[b]);
                }
            }
            assert forall|b: int, t: int|
                #![trigger batches@[b].items@[t]]
                0 <= b < batches@.len() && 1 <= t < batches@[b].items@.len()
                    implies batches@[b].items@[t].offset <= spec_running_span(
                batches@[b].items@,
                t - 1,
            ) + 4096 by {
                if b < batches@.len() - 1 {
                    assert(batches@[b] == batches0[b]);
                }
            }
            lemma_batch_base_push(batches0, batches@[batches@.len() - 1]);
        }
    }
    batches
}

/// Appending a batch extends the record count by the batch's length.
proof fn lemma_batch_base_push(batches: Seq<AddressBatch>, x: AddressBatch)
    ensures
        spec_batch_base(batches.push(x), batches.len() as int) == spec_batch_base(
            batches,
            batches.len() as int,
        ),
        spec_batch_base(batches.push(x), batches.len() as int + 1) == spec_batch_base(
            batches,
            batches.len() as int,
        ) + x.items@.len(),
    decreases batches.len(),
{
    lemma_batch_base_push_prefix(batches, x, batches.len() as int);
}

/// Appending a batch leaves the bases of the earlier batches alone.
proof fn lemma_batch_base_push_prefix(batches: Seq<AddressBatch>, x: AddressBatch, b: int)
    requires
        0 <= b <= batches.len(),
    ensures
        spec_batch_base(batches.push(x), b) == spec_batch_base(batches, b),
    decreases b,
{
    if b > 0 {
        lemma_batch_base_push_prefix(batches, x, b - 1);
        assert(batches.push(x)[b - 1] == batches[b - 1]);
    }
}

/// Converts kept fuzzy records to exact ones when a new exact search
/// wants to keep the previous result set: the remembered bytes are
/// dropped, address and type stay.
pub fn fuzzy_results_to_exact(items: &Vec<FuzzySearchResultItem>) -> (r: Vec<SearchResultItem>)
    ensures
        r@.len() == items@.len(),
        forall|k: int|
            0 <= k < r@.len() ==> (#[trigger] r@[k]).address == items@[k].address && r@[k].typ
                == items@[k].value_type,
{
    let n: usize = items.len();
    let mut r: Vec<SearchResultItem> = Vec::new();
    let mut i: usize = 0;
    while i < n
        invariant
            i <= n,
            n == items@.len(),
            r@.len() == i,
            forall|k: int|
                0 <= k < i ==> (#[trigger] r@[k]).address == items@[k].address && r@[k].typ
                    == items@[k].value_type,
        decreases n - i,
    {
        r.push(SearchResultItem { address: items[i].address, typ: items[i].value_type });
        i += 1;
    }
    r
}

/// Whether some stored record carries the pair's address and type.
pub open spec fn spec_stored_pair(view: Seq<SearchResultItem>, p: ValuePair) -> bool {
    exists|k: int|
        0 <= k < view.len() && (#[trigger] view[k]).address == p.addr && view[k].typ
            == p.value_type
}

/// The search executor's state: the result store, the chunk size of the
/// read loop, the status record, and the submission flags.
pub struct SearchEngineManager {
    result_manager: Option<SearchResultManager>,
    chunk_size: usize,
    shared_buffer: PointerScanSharedBuffer,
    compatibility_mode: bool,
    searching: bool,
}

impl SearchEngineManager {
    pub closed spec fn spec_initialized(&self) -> bool {
        self.result_manager is Some
    }

    pub closed spec fn spec_searching(&self) -> bool {
        self.searching
    }

    pub closed spec fn spec_chunk_size(&self) -> usize {
        self.chunk_size
    }

    pub closed spec fn spec_compatibility_mode(&self) -> bool {
        self.compatibility_mode
    }

    pub closed spec fn spec_mode(&self) -> SearchResultMode {
        match self.result_manager {
            Some(m) => m.spec_mode(),
            None => SearchResultMode::Exact,
        }
    }

    pub closed spec fn spec_exact_view(&self) -> Seq<SearchResultItem> {
        match self.result_manager {
            Some(m) => m.exact_view(),
            None => Seq::empty(),
        }
    }

    pub closed spec fn spec_fuzzy_view(&self) -> Seq<FuzzySearchResultItem> {
        match self.result_manager {
            Some(m) => m.fuzzy_view(),
            None => Seq::empty(),
        }
    }

    pub closed spec fn wf(&self) -> bool {
        &&& match self.result_manager {
            Some(m) => m.wf(),
            None => true,
        }
        &&& self.shared_buffer.wf()
    }

    /// The status record the engine publishes through.
    pub closed spec fn spec_status(&self) -> PointerScanSharedBuffer {
        self.shared_buffer
    }

    /// A fresh, uninitialized executor with the default half-megabyte
    /// chunk.
    pub fn new() -> (r: Self)
        ensures
            r.wf(),
            !r.spec_initialized(),
            !r.spec_searching(),
            !r.spec_compatibility_mode(),
            r.spec_chunk_size() == 512 * 1024,
    {
        SearchEngineManager {
            result_manager: None,
            chunk_size: 512 * 1024,
            shared_buffer: PointerScanSharedBuffer::new(),
            compatibility_mode: false,
            searching: false,
        }
    }

    /// Creates the result store with the given memory budget and chunk
    /// size; zero asks for the default chunk.  The spill directory itself
    /// belongs to the surrounding application.
    pub fn init(&mut self, memory_buffer_size: usize, chunk_size: usize) -> (r: Result<(), ()>)
        requires
            old(self).wf(),
        ensures
            final(self).wf(),
            r is Ok,
            final(self).spec_initialized(),
            !final(self).spec_searching(),
            final(self).spec_mode() == SearchResultMode::Exact,
            final(self).spec_exact_view() =~= Seq::<SearchResultItem>::empty(),
            final(self).spec_fuzzy_view() =~= Seq::<FuzzySearchResultItem>::empty(),
            final(self).spec_chunk_size() == if chunk_size == 0 {
                512 * 1024int
            } else {
                chunk_size as int
            },
    {
        self.result_manager = Some(SearchResultManager::new(memory_buffer_size));
        self.chunk_size = if chunk_size == 0 {
            512 * 1024
        } else {
            chunk_size
        };
        self.searching = false;
        Ok(())
    }

    pub fn is_initialized(&self) -> (r: bool)
        ensures
            r == self.spec_initialized(),
    {
        self.result_manager.is_some()
    }

    pub fn is_searching(&self) -> (r: bool)
        ensures
            r == self.spec_searching(),
    {
        self.searching
    }

    pub fn set_compatibility_mode(&mut self, enabled: bool)
        requires
            old(self).wf(),
        ensures
            final(self).wf(),
            final(self).spec_compatibility_mode() == enabled,
            final(self).spec_initialized() == old(self).spec_initialized(),
            final(self).spec_searching() == old(self).spec_searching(),
    {
        self.compatibility_mode = enabled;
    }

    pub fn get_compatibility_mode(&self) -> (r: bool)
        ensures
            r == self.spec_compatibility_mode(),
    {
        self.compatibility_mode
    }

    /// Attaches a status record of `len` bytes.
    pub fn set_shared_buffer(&mut self, len: usize) -> (r: bool)
        requires
            old(self).wf(),
            len < 0x1_0000_0000,
        ensures
            final(self).wf(),
            r == (len >= 48),
            final(self).spec_initialized() == old(self).spec_initialized(),
            final(self).spec_searching() == old(self).spec_searching(),
    {
        self.shared_buffer.set(len)
    }

    /// Accepts or refuses a new exact search.  On acceptance the store is
    /// cleared into exact mode and the engine is marked busy.
    pub fn start_search_begin(&mut self, query: &SearchQuery) -> (r: Result<(), ScanErrorCode>)
        requires
            old(self).wf(),
        ensures
            final(self).wf(),
            r is Ok <==> (old(self).spec_initialized() && !old(self).spec_searching()
                && query.spec_valid()),
            !old(self).spec_initialized() ==> r == Err::<(), ScanErrorCode>(
                ScanErrorCode::NotInitialized,
            ),
            old(self).spec_initialized() && old(self).spec_searching() ==> r == Err::<
                (),
                ScanErrorCode,
            >(ScanErrorCode::AlreadyScanning),
            old(self).spec_initialized() && !old(self).spec_searching() && !query.spec_valid()
                ==> r == Err::<(), ScanErrorCode>(ScanErrorCode::InvalidAddress),
            final(self).spec_status().spec_attached() == old(self).spec_status().spec_attached(),
            r is Ok ==> {
                &&& final(self).spec_searching()
                &&& final(self).spec_mode() == SearchResultMode::Exact
                &&& final(self).spec_exact_view() =~= Seq::<SearchResultItem>::empty()
                &&& final(self).spec_fuzzy_view() =~= Seq::<FuzzySearchResultItem>::empty()
            },
            r is Ok && old(self).spec_status().spec_attached() ==> {
                &&& final(self).spec_status().spec_field_i32(OFFSET_PHASE as int)
                    == ScanPhase::Searching.spec_to_id()
                &&& final(self).spec_status().spec_field_i32(OFFSET_PROGRESS as int) == 0
                &&& final(self).spec_status().spec_field_i32(OFFSET_CANCEL_FLAG as int) == 0
            },
            r matches Err(code) ==> (old(self).spec_status().spec_attached() ==> final(self).spec_status().spec_field_i32(OFFSET_PHASE as int) == ScanPhase::Error.spec_to_id()
                && final(self).spec_status().spec_field_i32(OFFSET_ERROR_CODE as int)
                == code.spec_to_id()),
            r is Err ==> final(self).spec_searching() == old(self).spec_searching(),
            final(self).spec_initialized() == old(self).spec_initialized(),
    {
        if self.result_manager.is_none() {
            self.publish_error(ScanErrorCode::NotInitialized);
            return Err(ScanErrorCode::NotInitialized);
        }
        if self.searching {
            self.publish_error(ScanErrorCode::AlreadyScanning);
            return Err(ScanErrorCode::AlreadyScanning);
        }
        if query.validate().is_err() {
            self.publish_error(ScanErrorCode::InvalidAddress);
            return Err(ScanErrorCode::InvalidAddress);
        }
        let mgr: &mut SearchResultManager = self.result_manager.as_mut().unwrap();
        mgr.set_mode(SearchResultMode::Exact);
        self.publish_searching();
        self.searching = true;
        Ok(())
    }

    /// Publishes a refusal: the phase becomes `Error` and the error code
    /// names the cause.
    fn publish_error(&mut self, code: ScanErrorCode)
        requires
            old(self).wf(),
        ensures
            final(self).wf(),
            final(self).result_manager == old(self).result_manager,
            final(self).spec_searching() == old(self).spec_searching(),
            final(self).spec_initialized() == old(self).spec_initialized(),
            final(self).spec_chunk_size() == old(self).spec_chunk_size(),
            final(self).spec_compatibility_mode() == old(self).spec_compatibility_mode(),
            final(self).spec_mode() == old(self).spec_mode(),
            final(self).spec_exact_view() == old(self).spec_exact_view(),
            final(self).spec_fuzzy_view() == old(self).spec_fuzzy_view(),
            final(self).spec_status().spec_attached() == old(self).spec_status().spec_attached(),
            old(self).spec_status().spec_attached() ==> {
                &&& final(self).spec_status().spec_field_i32(OFFSET_PHASE as int)
                    == ScanPhase::Error.spec_to_id()
                &&& final(self).spec_status().spec_field_i32(OFFSET_ERROR_CODE as int)
                    == code.spec_to_id()
            },
    {
        let ghost b0 = self.shared_buffer.spec_bytes();
        self.shared_buffer.write_phase(ScanPhase::Error);
        let ghost b1 = self.shared_buffer.spec_bytes();
        self.shared_buffer.write_error_code(code);
        proof {
            if old(self).spec_status().spec_attached() {
                lemma_field_i32_frame(
                    b1,
                    self.shared_buffer.spec_bytes(),
                    OFFSET_ERROR_CODE as int,
                    4,
                    OFFSET_PHASE as int,
                );
            }
        }
    }

    /// Publishes an accepted submission: the record is zeroed, the cancel
    /// flag cleared, the bar reset and the phase set to `Searching`.
    fn publish_searching(&mut self)
        requires
            old(self).wf(),
        ensures
            final(self).wf(),
            final(self).result_manager == old(self).result_manager,
            final(self).spec_searching() == old(self).spec_searching(),
            final(self).spec_initialized() == old(self).spec_initialized(),
            final(self).spec_chunk_size() == old(self).spec_chunk_size(),
            final(self).spec_compatibility_mode() == old(self).spec_compatibility_mode(),
            final(self).spec_mode() == old(self).spec_mode(),
            final(self).spec_exact_view() == old(self).spec_exact_view(),
            final(self).spec_fuzzy_view() == old(self).spec_fuzzy_view(),
            final(self).spec_status().spec_attached() == old(self).spec_status().spec_attached(),
            old(self).spec_status().spec_attached() ==> {
                &&& final(self).spec_status().spec_field_i32(OFFSET_PHASE as int)
                    == ScanPhase::Searching.spec_to_id()
                &&& final(self).spec_status().spec_field_i32(OFFSET_PROGRESS as int) == 0
                &&& final(self).spec_status().spec_field_i32(OFFSET_CANCEL_FLAG as int) == 0
            },
    {
        self.shared_buffer.reset();
        self.shared_buffer.clear_cancel_flag();
        let ghost b1 = self.shared_buffer.spec_bytes();
        self.shared_buffer.write_progress(0);
        let ghost b2 = self.shared_buffer.spec_bytes();
        self.shared_buffer.write_phase(ScanPhase::Searching);
        proof {
            if old(self).spec_status().spec_attached() {
                lemma_field_i32_frame(
                    b1,
                    b2,
                    OFFSET_PROGRESS as int,
                    4,
                    OFFSET_CANCEL_FLAG as int,
                );
                lemma_field_i32_frame(
                    b2,
                    self.shared_buffer.spec_bytes(),
                    OFFSET_PHASE as int,
                    4,
                    OFFSET_CANCEL_FLAG as int,
                );
                lemma_field_i32_frame(
                    b2,
                    self.shared_buffer.spec_bytes(),
                    OFFSET_PHASE as int,
                    4,
                    OFFSET_PROGRESS as int,
                );
            }
        }
    }

    /// Publishes completion after the store is already consistent: the
    /// bar is full and the phase becomes `Completed`.
    fn publish_completed(&mut self)
        requires
            old(self).wf(),
        ensures
            final(self).wf(),
            final(self).result_manager == old(self).result_manager,
            final(self).spec_searching() == old(self).spec_searching(),
            final(self).spec_initialized() == old(self).spec_initialized(),
            final(self).spec_chunk_size() == old(self).spec_chunk_size(),
            final(self).spec_compatibility_mode() == old(self).spec_compatibility_mode(),
            final(self).spec_mode() == old(self).spec_mode(),
            final(self).spec_exact_view() == old(self).spec_exact_view(),
            final(self).spec_fuzzy_view() == old(self).spec_fuzzy_view(),
            final(self).spec_status().spec_attached() == old(self).spec_status().spec_attached(),
            old(self).spec_status().spec_attached() ==> {
                &&& final(self).spec_status().spec_field_i32(OFFSET_PHASE as int)
                    == ScanPhase::Completed.spec_to_id()
                &&& final(self).spec_status().spec_field_i32(OFFSET_PROGRESS as int) == 100
            },
    {
        let ghost b0 = self.shared_buffer.spec_bytes();
        self.shared_buffer.write_progress(100);
        let ghost b1 = self.shared_buffer.spec_bytes();
        self.shared_buffer.write_phase(ScanPhase::Completed);
        proof {
            if old(self).spec_status().spec_attached() {
                lemma_field_i32_frame(
                    b1,
                    self.shared_buffer.spec_bytes(),
                    OFFSET_PHASE as int,
                    4,
                    OFFSET_PROGRESS as int,
                );
            }
        }
    }

    /// Accepts or refuses a new fuzzy initial scan; on acceptance the
    /// store is cleared into fuzzy mode and the engine is marked busy.
    pub fn start_fuzzy_search_begin(&mut self) -> (r: Result<(), ScanErrorCode>)
        requires
            old(self).wf(),
        ensures
            final(self).wf(),
            r is Ok <==> (old(self).spec_initialized() && !old(self).spec_searching()),
            !old(self).spec_initialized() ==> r == Err::<(), ScanErrorCode>(
                ScanErrorCode::NotInitialized,
            ),
            old(self).spec_initialized() && old(self).spec_searching() ==> r == Err::<
                (),
                ScanErrorCode,
            >(ScanErrorCode::AlreadyScanning),
            final(self).spec_status().spec_attached() == old(self).spec_status().spec_attached(),
            r is Ok ==> {
                &&& final(self).spec_searching()
                &&& final(self).spec_mode() == SearchResultMode::Fuzzy
                &&& final(self).spec_exact_view() =~= Seq::<SearchResultItem>::empty()
                &&& final(self).spec_fuzzy_view() =~= Seq::<FuzzySearchResultItem>::empty()
            },
            r is Ok && old(self).spec_status().spec_attached() ==> {
                &&& final(self).spec_status().spec_field_i32(OFFSET_PHASE as int)
                    == ScanPhase::Searching.spec_to_id()
                &&& final(self).spec_status().spec_field_i32(OFFSET_PROGRESS as int) == 0
                &&& final(self).spec_status().spec_field_i32(OFFSET_CANCEL_FLAG as int) == 0
            },
            r matches Err(code) ==> (old(self).spec_status().spec_attached() ==> final(self).spec_status().spec_field_i32(OFFSET_PHASE as int) == ScanPhase::Error.spec_to_id()
                && final(self).spec_status().spec_field_i32(OFFSET_ERROR_CODE as int)
                == code.spec_to_id()),
            r is Err ==> final(self).spec_searching() == old(self).spec_searching(),
            final(self).spec_initialized() == old(self).spec_initialized(),
    {
        if self.result_manager.is_none() {
            self.publish_error(ScanErrorCode::NotInitialized);
            return Err(ScanErrorCode::NotInitialized);
        }
        if self.searching {
            self.publish_error(ScanErrorCode::AlreadyScanning);
            return Err(ScanErrorCode::AlreadyScanning);
        }
        let mgr: &mut SearchResultManager = self.result_manager.as_mut().unwrap();
        mgr.set_mode(SearchResultMode::Fuzzy);
        self.publish_searching();
        self.searching = true;
        Ok(())
    }

    /// Commits a finished exact search: the raw findings are sorted by
    /// address and deduplicated by `(address, type)`, stored, and the
    /// engine is released before the terminal status is published.
    pub fn commit_search_results(&mut self, found: Vec<ValuePair>) -> (count: usize)
        requires
            old(self).wf(),
            old(self).spec_initialized(),
            old(self).spec_searching(),
            old(self).spec_mode() == SearchResultMode::Exact,
            old(self).spec_exact_view().len() == 0,
            found@.len() < 0x4000_0000,
        ensures
            final(self).wf(),
            final(self).spec_initialized(),
            !final(self).spec_searching(),
            final(self).spec_mode() == SearchResultMode::Exact,
            count == final(self).spec_exact_view().len(),
            forall|k1: int, k2: int|
                0 <= k1 < k2 < final(self).spec_exact_view().len() ==> (#[trigger] final(self).spec_exact_view()[k1]).address <= (#[trigger] final(self).spec_exact_view()[k2]).address,
            forall|k1: int, k2: int|
                0 <= k1 < k2 < final(self).spec_exact_view().len() ==> !((#[trigger] final(self).spec_exact_view()[k1]).address == (#[trigger] final(self).spec_exact_view()[k2]).address && final(self).spec_exact_view()[k1].typ == final(self).spec_exact_view()[k2].typ),
            forall|k: int|
                0 <= k < final(self).spec_exact_view().len() ==> exists|j: int|
                    0 <= j < found@.len() && (#[trigger] final(self).spec_exact_view()[k]).address
                        == found@[j].addr && final(self).spec_exact_view()[k].typ
                        == found@[j].value_type,
            forall|j: int|
                0 <= j < found@.len() ==> #[trigger] spec_stored_pair(
                    final(self).spec_exact_view(),
                    found@[j],
                ),
            final(self).spec_status().spec_attached() == old(self).spec_status().spec_attached(),
            old(self).spec_status().spec_attached() ==> {
                &&& final(self).spec_status().spec_field_i32(OFFSET_PHASE as int)
                    == ScanPhase::Completed.spec_to_id()
                &&& final(self).spec_status().spec_field_i32(OFFSET_PROGRESS as int) == 100
            },
    {
        let deduped: Vec<ValuePair> = sort_and_dedup_results(&found);
        let mut converted: Vec<SearchResultItem> = Vec::new();
        let n: usize = deduped.len();
        let mut i: usize = 0;
        while i < n
            invariant
                i <= n,
                n == deduped@.len(),
                converted@.len() == i,
                forall|k: int|
                    0 <= k < i ==> (#[trigger] converted@[k]).address == deduped@[k].addr
                        && converted@[k].typ == deduped@[k].value_type,
            decreases n - i,
        {
            converted.push(SearchResultItem { address: deduped[i].addr, typ: deduped[i].value_type });
            i += 1;
        }
        let count: usize = converted.len();
        let mgr: &mut SearchResultManager = self.result_manager.as_mut().unwrap();
        proof {
            assert(mgr.exact_view() + converted@ =~= converted@);
        }
        mgr.add_results_batch(converted);
        self.searching = false;
        self.publish_completed();
        proof {
            assert forall|k: int|
                0 <= k < self.spec_exact_view().len() implies exists|j: int|
                0 <= j < found@.len() && (#[trigger] self.spec_exact_view()[k]).address
                    == found@[j].addr && self.spec_exact_view()[k].typ == found@[j].value_type by {
                assert(self.spec_exact_view()[k].address == deduped@[k].addr
                    && self.spec_exact_view()[k].typ == deduped@[k].value_type);
                assert(found@.contains(deduped@[k]));
                let j = choose|j: int| 0 <= j < found@.len() && found@[j] == deduped@[k];
                assert(found@[j].addr == self.spec_exact_view()[k].address);
            }
            // nothing found is lost: every pair survives into the store
            assert forall|j: int|
                0 <= j < found@.len() implies #[trigger] spec_stored_pair(
                self.spec_exact_view(),
                found@[j],
            ) by {
                assert(deduped@.contains(found@[j]));
                let k = choose|k: int| 0 <= k < deduped@.len() && deduped@[k] == found@[j];
                assert(self.spec_exact_view()[k].address == found@[j].addr
                    && self.spec_exact_view()[k].typ == found@[j].value_type);
            }
        }
        count
    }

    /// Commits a batch of fuzzy records from a finished initial scan and
    /// releases the engine.  Batches arrive in region order, each sorted,
    /// so the store keeps its ascending address order.
    pub fn commit_fuzzy_results(&mut self, items: Vec<FuzzySearchResultItem>) -> (count: usize)
        requires
            old(self).wf(),
            old(self).spec_initialized(),
            old(self).spec_searching(),
            old(self).spec_mode() == SearchResultMode::Fuzzy,
            old(self).spec_fuzzy_view().len() + items@.len() < 0x4000_0000,
            forall|k1: int, k2: int|
                0 <= k1 < k2 < items@.len() ==> (#[trigger] items@[k1]).address < (
                #[trigger] items@[k2]).address,
            old(self).spec_fuzzy_view().len() > 0 && items@.len() > 0 ==> old(self).spec_fuzzy_view().last().address < items@[0].address,
        ensures
            final(self).wf(),
            final(self).spec_initialized(),
            !final(self).spec_searching(),
            final(self).spec_mode() == SearchResultMode::Fuzzy,
            final(self).spec_fuzzy_view() =~= old(self).spec_fuzzy_view() + items@,
            // the ascending order of the store survives the append
            (forall|k1: int, k2: int|
                0 <= k1 < k2 < old(self).spec_fuzzy_view().len()
                    ==> (#[trigger] old(self).spec_fuzzy_view()[k1]).address
                    < (#[trigger] old(self).spec_fuzzy_view()[k2]).address)
                ==> forall|k1: int, k2: int|
                0 <= k1 < k2 < final(self).spec_fuzzy_view().len()
                    ==> (#[trigger] final(self).spec_fuzzy_view()[k1]).address
                    < (#[trigger] final(self).spec_fuzzy_view()[k2]).address,
            count == final(self).spec_fuzzy_view().len(),
            final(self).spec_status().spec_attached() == old(self).spec_status().spec_attached(),
            old(self).spec_status().spec_attached() ==> {
                &&& final(self).spec_status().spec_field_i32(OFFSET_PHASE as int)
                    == ScanPhase::Completed.spec_to_id()
                &&& final(self).spec_status().spec_field_i32(OFFSET_PROGRESS as int) == 100
            },
    {
        let mgr: &mut SearchResultManager = self.result_manager.as_mut().unwrap();
        mgr.add_fuzzy_results_batch(items);
        let count: usize = mgr.total_count();
        self.searching = false;
        self.publish_completed();
        count
    }

    /// Replaces the fuzzy record set after a refine step and releases the
    /// engine.
    pub fn commit_fuzzy_refine(&mut self, survivors: Vec<FuzzySearchResultItem>) -> (count: usize)
        requires
            old(self).wf(),
            old(self).spec_initialized(),
            old(self).spec_searching(),
            old(self).spec_mode() == SearchResultMode::Fuzzy,
            survivors@.len() < 0x4000_0000,
        ensures
            final(self).wf(),
            final(self).spec_initialized(),
            !final(self).spec_searching(),
            final(self).spec_mode() == SearchResultMode::Fuzzy,
            final(self).spec_fuzzy_view() =~= survivors@,
            count == final(self).spec_fuzzy_view().len(),
            final(self).spec_status().spec_attached() == old(self).spec_status().spec_attached(),
            old(self).spec_status().spec_attached() ==> {
                &&& final(self).spec_status().spec_field_i32(OFFSET_PHASE as int)
                    == ScanPhase::Completed.spec_to_id()
                &&& final(self).spec_status().spec_field_i32(OFFSET_PROGRESS as int) == 100
            },
    {
        let mgr: &mut SearchResultManager = self.result_manager.as_mut().unwrap();
        mgr.replace_all_fuzzy_results(survivors);
        let count: usize = mgr.total_count();
        self.searching = false;
        self.publish_completed();
        count
    }

    /// Begins a refine pass over the stored exact records: the engine must
    /// be initialized and idle.  Returns the stored pairs to re-read; an
    /// empty store completes at once with nothing to re-read, and the
    /// engine stays idle.
    pub fn start_refine_begin(&mut self) -> (r: Result<Vec<ValuePair>, ScanErrorCode>)
        requires
            old(self).wf(),
            old(self).spec_mode() == SearchResultMode::Exact,
        ensures
            final(self).wf(),
            final(self).spec_initialized() == old(self).spec_initialized(),
            final(self).spec_mode() == old(self).spec_mode(),
            final(self).spec_exact_view() == old(self).spec_exact_view(),
            final(self).spec_fuzzy_view() == old(self).spec_fuzzy_view(),
            final(self).spec_status().spec_attached() == old(self).spec_status().spec_attached(),
            r is Ok <==> (old(self).spec_initialized() && !old(self).spec_searching()),
            !old(self).spec_initialized() ==> r == Err::<Vec<ValuePair>, ScanErrorCode>(
                ScanErrorCode::NotInitialized,
            ),
            old(self).spec_initialized() && old(self).spec_searching() ==> r == Err::<
                Vec<ValuePair>,
                ScanErrorCode,
            >(ScanErrorCode::AlreadyScanning),
            r matches Err(code) ==> (old(self).spec_status().spec_attached() ==> final(self).spec_status().spec_field_i32(OFFSET_PHASE as int) == ScanPhase::Error.spec_to_id()
                && final(self).spec_status().spec_field_i32(OFFSET_ERROR_CODE as int)
                == code.spec_to_id()),
            r is Err ==> final(self).spec_searching() == old(self).spec_searching(),
            // the snapshot mirrors the store, pair by pair
            r matches Ok(v) ==> v@.len() == old(self).spec_exact_view().len() && forall|k: int|
                0 <= k < v@.len() ==> (#[trigger] v@[k]).addr == old(
                    self,
                ).spec_exact_view()[k].address && v@[k].value_type == old(
                    self,
                ).spec_exact_view()[k].typ,
            // something to refine: the engine is busy and says so
            r matches Ok(v) && v@.len() > 0 ==> final(self).spec_searching() && (old(self).spec_status().spec_attached() ==> final(self).spec_status().spec_field_i32(OFFSET_PHASE as int)
                == ScanPhase::Searching.spec_to_id() && final(self).spec_status().spec_field_i32(
                OFFSET_PROGRESS as int,
            ) == 0 && final(self).spec_status().spec_field_i32(OFFSET_CANCEL_FLAG as int) == 0),
            // nothing to refine: done at once, the engine stays idle
            r matches Ok(v) && v@.len() == 0 ==> !final(self).spec_searching() && (old(self).spec_status().spec_attached() ==> final(self).spec_status().spec_field_i32(OFFSET_PHASE as int)
                == ScanPhase::Completed.spec_to_id()),
    {
        if self.result_manager.is_none() {
            self.publish_error(ScanErrorCode::NotInitialized);
            return Err(ScanErrorCode::NotInitialized);
        }
        if self.searching {
            self.publish_error(ScanErrorCode::AlreadyScanning);
            return Err(ScanErrorCode::AlreadyScanning);
        }
        let mgr: &SearchResultManager = self.result_manager.as_ref().unwrap();
        let stored: Vec<SearchResultItem> = mgr.get_all_exact_results();
        let mut snapshot: Vec<ValuePair> = Vec::new();
        let n: usize = stored.len();
        let mut i: usize = 0;
        while i < n
            invariant
                i <= n,
                n == stored@.len(),
                snapshot@.len() == i,
                forall|k: int|
                    0 <= k < i ==> (#[trigger] snapshot@[k]).addr == stored@[k].address
                        && snapshot@[k].value_type == stored@[k].typ,
            decreases n - i,
        {
            snapshot.push(ValuePair { addr: stored[i].address, value_type: stored[i].typ });
            i += 1;
        }
        if snapshot.is_empty() {
            self.publish_completed();
            return Ok(snapshot);
        }
        self.publish_searching();
        self.searching = true;
        Ok(snapshot)
    }

    /// Commits a finished refine pass: the surviving pairs replace the
    /// exact records, sorted by address and deduplicated by
    /// `(address, type)`, and the engine is released before the terminal
    /// status is published.
    pub fn commit_refine_results(&mut self, survivors: Vec<ValuePair>) -> (count: usize)
        requires
            old(self).wf(),
            old(self).spec_initialized(),
            old(self).spec_searching(),
            survivors@.len() < 0x4000_0000,
        ensures
            final(self).wf(),
            final(self).spec_initialized(),
            !final(self).spec_searching(),
            final(self).spec_mode() == SearchResultMode::Exact,
            count == final(self).spec_exact_view().len(),
            forall|k1: int, k2: int|
                0 <= k1 < k2 < final(self).spec_exact_view().len() ==> (#[trigger] final(self).spec_exact_view()[k1]).address <= (#[trigger] final(self).spec_exact_view()[k2]).address,
            forall|k1: int, k2: int|
                0 <= k1 < k2 < final(self).spec_exact_view().len() ==> !((#[trigger] final(self).spec_exact_view()[k1]).address == (#[trigger] final(self).spec_exact_view()[k2]).address && final(self).spec_exact_view()[k1].typ == final(self).spec_exact_view()[k2].typ),
            forall|k: int|
                0 <= k < final(self).spec_exact_view().len() ==> exists|j: int|
                    0 <= j < survivors@.len() && (#[trigger] final(self).spec_exact_view()[k]).address
                        == survivors@[j].addr && final(self).spec_exact_view()[k].typ
                        == survivors@[j].value_type,
            forall|j: int|
                0 <= j < survivors@.len() ==> #[trigger] spec_stored_pair(
                    final(self).spec_exact_view(),
                    survivors@[j],
                ),
            final(self).spec_status().spec_attached() == old(self).spec_status().spec_attached(),
            old(self).spec_status().spec_attached() ==> {
                &&& final(self).spec_status().spec_field_i32(OFFSET_PHASE as int)
                    == ScanPhase::Completed.spec_to_id()
                &&& final(self).spec_status().spec_field_i32(OFFSET_PROGRESS as int) == 100
            },
    {
        let mgr: &mut SearchResultManager = self.result_manager.as_mut().unwrap();
        mgr.set_mode(SearchResultMode::Exact);
        self.commit_search_results(survivors)
    }

    /// Abandons the running operation: the store keeps its last state and
    /// the terminal status is `Cancelled`.
    pub fn commit_cancelled(&mut self)
        requires
            old(self).wf(),
        ensures
            final(self).wf(),
            !final(self).spec_searching(),
            final(self).spec_exact_view() =~= old(self).spec_exact_view(),
            final(self).spec_fuzzy_view() =~= old(self).spec_fuzzy_view(),
            final(self).spec_status().spec_attached() == old(self).spec_status().spec_attached(),
            old(self).spec_status().spec_attached() ==> final(self).spec_status().spec_field_i32(
                OFFSET_PHASE as int,
            ) == ScanPhase::Cancelled.spec_to_id(),
    {
        self.searching = false;
        self.shared_buffer.write_phase(ScanPhase::Cancelled);
    }

    pub fn get_total_count(&self) -> (r: Result<usize, ()>)
        requires
            self.wf(),
        ensures
            r is Ok <==> self.spec_initialized(),
            r matches Ok(c) ==> (self.spec_mode() == SearchResultMode::Exact ==> c
                == self.spec_exact_view().len()) && (self.spec_mode() == SearchResultMode::Fuzzy
                ==> c == self.spec_fuzzy_view().len()),
    {
        match &self.result_manager {
            Some(mgr) => Ok(mgr.total_count()),
            None => Err(()),
        }
    }

    pub fn get_current_mode(&self) -> (r: Result<SearchResultMode, ()>)
        requires
            self.wf(),
        ensures
            r is Ok <==> self.spec_initialized(),
            r matches Ok(m) ==> m == self.spec_mode(),
    {
        match &self.result_manager {
            Some(mgr) => Ok(mgr.get_mode()),
            None => Err(()),
        }
    }

    /// A page of exact records, clamped to the store.
    pub fn get_results(&self, start: usize, size: usize) -> (r: Result<
        Vec<SearchResultItem>,
        ScanErrorCode,
    >)
        requires
            self.wf(),
        ensures
            r is Ok <==> (self.spec_initialized() && self.spec_mode() == SearchResultMode::Exact),
            !self.spec_initialized() ==> r == Err::<Vec<SearchResultItem>, ScanErrorCode>(
                ScanErrorCode::NotInitialized,
            ),
            self.spec_initialized() && self.spec_mode() != SearchResultMode::Exact ==> r == Err::<
                Vec<SearchResultItem>,
                ScanErrorCode,
            >(ScanErrorCode::InternalError),
            r matches Ok(v) ==> v@ =~= (if start as int <= self.spec_exact_view().len() {
                self.spec_exact_view().subrange(
                    start as int,
                    if start + size <= self.spec_exact_view().len() {
                        start + size
                    } else {
                        self.spec_exact_view().len() as int
                    },
                )
            } else {
                Seq::<SearchResultItem>::empty()
            }),
    {
        match &self.result_manager {
            Some(mgr) => {
                if matches!(mgr.get_mode(), SearchResultMode::Exact) {
                    Ok(mgr.get_results(start, size))
                } else {
                    Err(ScanErrorCode::InternalError)
                }
            },
            None => Err(ScanErrorCode::NotInitialized),
        }
    }

    /// Every exact record, in store order.
    pub fn get_all_exact_results(&self) -> (r: Result<Vec<SearchResultItem>, ScanErrorCode>)
        requires
            self.wf(),
        ensures
            r is Ok <==> self.spec_initialized(),
            !self.spec_initialized() ==> r == Err::<Vec<SearchResultItem>, ScanErrorCode>(
                ScanErrorCode::NotInitialized,
            ),
            r matches Ok(v) ==> v@ =~= self.spec_exact_view(),
    {
        match &self.result_manager {
            Some(mgr) => Ok(mgr.get_all_exact_results()),
            None => Err(ScanErrorCode::NotInitialized),
        }
    }

    /// Every fuzzy record, in store order.
    pub fn get_all_fuzzy_results(&self) -> (r: Result<
        Vec<FuzzySearchResultItem>,
        ScanErrorCode,
    >)
        requires
            self.wf(),
        ensures
            r is Ok <==> self.spec_initialized(),
            !self.spec_initialized() ==> r == Err::<Vec<FuzzySearchResultItem>, ScanErrorCode>(
                ScanErrorCode::NotInitialized,
            ),
            r matches Ok(v) ==> v@ =~= self.spec_fuzzy_view(),
    {
        match &self.result_manager {
            Some(mgr) => Ok(mgr.get_all_fuzzy_results()),
            None => Err(ScanErrorCode::NotInitialized),
        }
    }

    /// Drops every stored record without changing the schema.
    pub fn clear_results(&mut self) -> (r: Result<(), ScanErrorCode>)
        requires
            old(self).wf(),
        ensures
            final(self).wf(),
            r is Ok <==> old(self).spec_initialized(),
            !old(self).spec_initialized() ==> r == Err::<(), ScanErrorCode>(
                ScanErrorCode::NotInitialized,
            ),
            final(self).spec_initialized() == old(self).spec_initialized(),
            final(self).spec_searching() == old(self).spec_searching(),
            final(self).spec_status() == old(self).spec_status(),
            final(self).spec_mode() == old(self).spec_mode(),
            r is Ok ==> final(self).spec_exact_view() =~= Seq::<SearchResultItem>::empty()
                && final(self).spec_fuzzy_view() =~= Seq::<FuzzySearchResultItem>::empty(),
            r is Err ==> final(self).spec_exact_view() == old(self).spec_exact_view()
                && final(self).spec_fuzzy_view() == old(self).spec_fuzzy_view(),
    {
        match self.result_manager.as_mut() {
            Some(mgr) => {
                mgr.clear();
                Ok(())
            },
            None => Err(ScanErrorCode::NotInitialized),
        }
    }

    /// Switches the store's schema, clearing all contents.
    pub fn set_result_mode(&mut self, mode: SearchResultMode) -> (r: Result<(), ScanErrorCode>)
        requires
            old(self).wf(),
        ensures
            final(self).wf(),
            r is Ok <==> old(self).spec_initialized(),
            !old(self).spec_initialized() ==> r == Err::<(), ScanErrorCode>(
                ScanErrorCode::NotInitialized,
            ),
            final(self).spec_initialized() == old(self).spec_initialized(),
            final(self).spec_searching() == old(self).spec_searching(),
            final(self).spec_status() == old(self).spec_status(),
            r is Ok ==> final(self).spec_mode() == mode && final(self).spec_exact_view() =~= Seq::<
                SearchResultItem,
            >::empty() && final(self).spec_fuzzy_view() =~= Seq::<
                FuzzySearchResultItem,
            >::empty(),
            r is Err ==> final(self).spec_mode() == old(self).spec_mode() && final(self).spec_exact_view() == old(self).spec_exact_view() && final(self).spec_fuzzy_view()
                == old(self).spec_fuzzy_view(),
    {
        match self.result_manager.as_mut() {
            Some(mgr) => {
                mgr.set_mode(mode);
                Ok(())
            },
            None => Err(ScanErrorCode::NotInitialized),
        }
    }

    /// Removes the record of the current schema at `index`.
    pub fn remove_result(&mut self, index: usize) -> (r: Result<(), ScanErrorCode>)
        requires
            old(self).wf(),
        ensures
            final(self).wf(),
            !old(self).spec_initialized() ==> r == Err::<(), ScanErrorCode>(
                ScanErrorCode::NotInitialized,
            ),
            final(self).spec_initialized() == old(self).spec_initialized(),
            final(self).spec_searching() == old(self).spec_searching(),
            final(self).spec_status() == old(self).spec_status(),
            final(self).spec_mode() == old(self).spec_mode(),
            old(self).spec_initialized() ==> {
                &&& (old(self).spec_mode() == SearchResultMode::Exact ==> {
                    &&& (r is Ok <==> index < old(self).spec_exact_view().len())
                    &&& (r is Ok ==> final(self).spec_exact_view() =~= old(self).spec_exact_view().remove(index as int))
                    &&& (r is Err ==> final(self).spec_exact_view() =~= old(self).spec_exact_view())
                    &&& final(self).spec_fuzzy_view() =~= old(self).spec_fuzzy_view()
                })
                &&& (old(self).spec_mode() == SearchResultMode::Fuzzy ==> {
                    &&& (r is Ok <==> index < old(self).spec_fuzzy_view().len())
                    &&& (r is Ok ==> final(self).spec_fuzzy_view() =~= old(self).spec_fuzzy_view().remove(index as int))
                    &&& (r is Err ==> final(self).spec_fuzzy_view() =~= old(self).spec_fuzzy_view())
                    &&& final(self).spec_exact_view() =~= old(self).spec_exact_view()
                })
            },
    {
        match self.result_manager.as_mut() {
            Some(mgr) => {
                match mgr.remove_result(index) {
                    Ok(()) => Ok(()),
                    Err(()) => Err(ScanErrorCode::InvalidAddress),
                }
            },
            None => Err(ScanErrorCode::NotInitialized),
        }
    }

    /// Removes the listed positions of the current schema.
    pub fn remove_results_batch(&mut self, indices: Vec<usize>) -> (r: Result<(), ScanErrorCode>)
        requires
            old(self).wf(),
        ensures
            final(self).wf(),
            r is Ok <==> old(self).spec_initialized(),
            !old(self).spec_initialized() ==> r == Err::<(), ScanErrorCode>(
                ScanErrorCode::NotInitialized,
            ),
            final(self).spec_initialized() == old(self).spec_initialized(),
            final(self).spec_searching() == old(self).spec_searching(),
            final(self).spec_status() == old(self).spec_status(),
            final(self).spec_mode() == old(self).spec_mode(),
            r is Ok ==> {
                &&& (old(self).spec_mode() == SearchResultMode::Exact ==> final(self).spec_exact_view() =~= crate::store::spec_remove_indices(
                    old(self).spec_exact_view(),
                    indices@,
                ))
                &&& (old(self).spec_mode() == SearchResultMode::Fuzzy ==> final(self).spec_fuzzy_view() =~= crate::store::spec_remove_indices(
                    old(self).spec_fuzzy_view(),
                    indices@,
                ))
            },
    {
        match self.result_manager.as_mut() {
            Some(mgr) => {
                mgr.remove_results_batch(indices);
                Ok(())
            },
            None => Err(ScanErrorCode::NotInitialized),
        }
    }

    /// Keeps only the listed positions of the current schema, in order.
    pub fn keep_only_results(&mut self, keep_indices: Vec<usize>) -> (r: Result<
        (),
        ScanErrorCode,
    >)
        requires
            old(self).wf(),
        ensures
            final(self).wf(),
            r is Ok <==> old(self).spec_initialized(),
            !old(self).spec_initialized() ==> r == Err::<(), ScanErrorCode>(
                ScanErrorCode::NotInitialized,
            ),
            final(self).spec_initialized() == old(self).spec_initialized(),
            final(self).spec_searching() == old(self).spec_searching(),
            final(self).spec_status() == old(self).spec_status(),
            final(self).spec_mode() == old(self).spec_mode(),
            r is Ok ==> {
                &&& (old(self).spec_mode() == SearchResultMode::Exact ==> final(self).spec_exact_view() =~= crate::store::spec_keep_indices(
                    old(self).spec_exact_view(),
                    keep_indices@,
                ))
                &&& (old(self).spec_mode() == SearchResultMode::Fuzzy ==> final(self).spec_fuzzy_view() =~= crate::store::spec_keep_indices(
                    old(self).spec_fuzzy_view(),
                    keep_indices@,
                ))
            },
    {
        match self.result_manager.as_mut() {
            Some(mgr) => {
                mgr.keep_only_results(keep_indices);
                Ok(())
            },
            None => Err(ScanErrorCode::NotInitialized),
        }
    }

    /// A copy of the published status image, for the application's shared
    /// region.
    pub fn status_image(&self) -> (r: Vec<u8>)
        requires
            self.wf(),
        ensures
            r@ =~= self.spec_status().spec_bytes(),
    {
        self.shared_buffer.image()
    }

    /// Whether the reader has raised the cancel flag on the status record.
    pub fn is_cancel_requested(&self) -> (r: bool)
        requires
            self.wf(),
        ensures
            self.spec_status().spec_attached() ==> r == (self.spec_status().spec_field_i32(
                OFFSET_CANCEL_FLAG as int,
            ) != 0),
            !self.spec_status().spec_attached() ==> r == false,
    {
        self.shared_buffer.is_cancel_requested()
    }
}

} // verus!
