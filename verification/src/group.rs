//! Group search: several values looked for near one another.
//!
//! Every position matching the query's first value anchors a byte band —
//! both sides of the anchor when unordered, only after it when ordered.
//! A depth-first pass then assigns each remaining value a distinct
//! matching address inside the band (in ascending order when ordered),
//! and a successful covering emits every covering address.  A group query
//! with a single value is the plain single-value scan.

use vstd::prelude::*;
use crate::values::{SearchQuery, SearchValue, SearchMode, is_scan_width};
use crate::bitmap::PageStatusBitmap;
use crate::matcher::{search_in_chunks_with_status, spec_single_match, spec_emitted, ValuePair};
use crate::engine::spec_found_pair;

verus! {

/// The low edge of an anchor's band: `range` bytes before it when
/// unordered, the anchor itself when ordered, clamped at the bottom.
pub open spec fn spec_band_lo(anchor: u64, range: u16, mode: SearchMode) -> u64 {
    if mode == SearchMode::Unordered {
        if anchor >= range {
            (anchor - range) as u64
        } else {
            0u64
        }
    } else {
        anchor
    }
}

/// One past the high edge of an anchor's band for a value of width
/// `size`: elements may start up to `range` bytes after the anchor.
pub open spec fn spec_band_end(anchor: u64, range: u16, size: nat) -> int {
    anchor + range + size
}

/// Whether `pair` starts inside the band of some anchor of the query's
/// first value and matches the query value it was assigned: the anchor
/// itself, or one of the remaining values within the anchor's band.
pub open spec fn spec_group_member(
    buffer: Seq<u8>,
    buffer_addr: u64,
    region_start: u64,
    region_end: u64,
    query: SearchQuery,
    bm: &PageStatusBitmap,
    pair: ValuePair,
) -> bool {
    exists|p0: int|
        #[trigger] spec_single_match(
            buffer,
            buffer_addr,
            region_start,
            region_end,
            query.values@[0].spec_required_len(),
            query.values@[0],
            bm,
            p0,
        ) && (pair.addr == buffer_addr + p0 || exists|j: int|
            1 <= j < query.values@.len() && spec_found_pair(
                buffer,
                buffer_addr,
                spec_band_lo((buffer_addr + p0) as u64, query.range, query.mode),
                spec_band_end((buffer_addr + p0) as u64, query.range, (#[trigger] query.values@[j]).spec_required_len()) as u64,
                query.values@[j],
                bm,
                pair,
            ))
}

/// Whether every value of the query can be scanned: an integer form of a
/// machine width.
pub open spec fn spec_values_scannable(values: Seq<SearchValue>) -> bool {
    forall|j: int|
        0 <= j < values.len() ==> (#[trigger] values[j]).spec_match_supported() && is_scan_width(
            values[j].spec_required_len(),
        )
}

/// Whether the pairs carry pairwise distinct addresses, ascending when
/// ordered.
pub open spec fn spec_distinct_ordered(s: Seq<ValuePair>, ordered: bool) -> bool {
    &&& forall|k1: int, k2: int|
        0 <= k1 < k2 < s.len() ==> (#[trigger] s[k1]).addr != (#[trigger] s[k2]).addr
    &&& ordered ==> forall|k1: int, k2: int|
        0 <= k1 < k2 < s.len() ==> (#[trigger] s[k1]).addr < (#[trigger] s[k2]).addr
}

/// The per-value candidate lists as plain sequences.
pub open spec fn spec_cands_model(cs: Seq<Vec<ValuePair>>) -> Seq<Seq<ValuePair>> {
    Seq::new(cs.len(), |t: int| cs[t]@)
}

/// Whether `ext` completes the chosen prefix: one pair from each
/// remaining candidate list, all addresses distinct (and ascending when
/// ordered) together with the prefix.
pub open spec fn spec_valid_extension(
    cands: Seq<Seq<ValuePair>>,
    j: int,
    ordered: bool,
    chosen: Seq<ValuePair>,
    ext: Seq<ValuePair>,
) -> bool {
    &&& ext.len() == cands.len() - j
    &&& forall|t: int| 0 <= t < ext.len() ==> cands[j + t].contains(#[trigger] ext[t])
    &&& spec_distinct_ordered(chosen + ext, ordered)
}

/// Whether the chosen prefix can be completed at all.
pub open spec fn spec_extension_exists(
    cands: Seq<Seq<ValuePair>>,
    j: int,
    ordered: bool,
    chosen: Seq<ValuePair>,
) -> bool {
    exists|ext: Seq<ValuePair>| spec_valid_extension(cands, j, ordered, chosen, ext)
}

/// Whether some completion starts with the given pair.
pub open spec fn spec_ext_starting(
    cands: Seq<Seq<ValuePair>>,
    j: int,
    ordered: bool,
    chosen: Seq<ValuePair>,
    head: ValuePair,
) -> bool {
    exists|ext: Seq<ValuePair>|
        spec_valid_extension(cands, j, ordered, chosen, ext) && ext[0] == head
}

/// Whether `addr` appears among the first `a` anchors.
pub open spec fn spec_addr_in_prefix(anchors: Seq<ValuePair>, a: int, addr: int) -> bool {
    exists|k: int| 0 <= k < a && (#[trigger] anchors[k]).addr == addr
}

/// One complete covering of an anchor: one matching address per remaining
/// value inside the anchor's band, all distinct from each other and from
/// the anchor, each past the anchor and ascending when ordered.
pub open spec fn spec_group_covering(
    buffer: Seq<u8>,
    buffer_addr: u64,
    region_start: u64,
    region_end: u64,
    query: SearchQuery,
    bm: &PageStatusBitmap,
    p0: int,
    addrs: Seq<u64>,
) -> bool {
    &&& spec_single_match(
        buffer,
        buffer_addr,
        region_start,
        region_end,
        query.values@[0].spec_required_len(),
        query.values@[0],
        bm,
        p0,
    )
    &&& addrs.len() == query.values@.len() - 1
    &&& forall|t: int|
        0 <= t < addrs.len() ==> spec_found_pair(
            buffer,
            buffer_addr,
            spec_band_lo((buffer_addr + p0) as u64, query.range, query.mode),
            spec_band_end(
                (buffer_addr + p0) as u64,
                query.range,
                (#[trigger] query.values@[t + 1]).spec_required_len(),
            ) as u64,
            query.values@[t + 1],
            bm,
            ValuePair { addr: addrs[t], value_type: query.values@[t + 1].spec_value_type() },
        )
    &&& forall|t: int| 0 <= t < addrs.len() ==> (#[trigger] addrs[t]) != buffer_addr + p0
    &&& forall|t1: int, t2: int|
        0 <= t1 < t2 < addrs.len() ==> (#[trigger] addrs[t1]) != (#[trigger] addrs[t2])
    &&& query.mode == SearchMode::Ordered ==> (forall|t: int|
        0 <= t < addrs.len() ==> (#[trigger] addrs[t]) > buffer_addr + p0) && (forall|
        t1: int,
        t2: int,
    |
        0 <= t1 < t2 < addrs.len() ==> (#[trigger] addrs[t1]) < (#[trigger] addrs[t2]))
}

/// Whether the anchor at `p0` has any complete covering.
pub open spec fn spec_covering_exists(
    buffer: Seq<u8>,
    buffer_addr: u64,
    region_start: u64,
    region_end: u64,
    query: SearchQuery,
    bm: &PageStatusBitmap,
    p0: int,
) -> bool {
    exists|addrs: Seq<u64>|
        spec_group_covering(buffer, buffer_addr, region_start, region_end, query, bm, p0, addrs)
}

/// Whether some covering of the anchor at `p0` is wholly emitted past
/// `from`: the anchor and every address of that covering appear.
pub open spec fn spec_covering_emitted(
    buffer: Seq<u8>,
    buffer_addr: u64,
    region_start: u64,
    region_end: u64,
    query: SearchQuery,
    bm: &PageStatusBitmap,
    p0: int,
    rs: Seq<ValuePair>,
    from: int,
) -> bool {
    exists|addrs: Seq<u64>|
        #[trigger] spec_group_covering(
            buffer,
            buffer_addr,
            region_start,
            region_end,
            query,
            bm,
            p0,
            addrs,
        ) && spec_emitted(rs, from, buffer_addr + p0) && (forall|t: int|
            0 <= t < addrs.len() ==> spec_emitted(rs, from, (#[trigger] addrs[t]) as int))
}

/// A wholly-emitted covering stays wholly emitted as the results grow.
proof fn lemma_covering_emitted_grows(
    buffer: Seq<u8>,
    buffer_addr: u64,
    region_start: u64,
    region_end: u64,
    query: SearchQuery,
    bm: &PageStatusBitmap,
    p0: int,
    r1: Seq<ValuePair>,
    r2: Seq<ValuePair>,
    from: int,
)
    requires
        0 <= from,
        r2.len() >= r1.len(),
        r2.subrange(0, r1.len() as int) == r1,
        spec_covering_emitted(
            buffer,
            buffer_addr,
            region_start,
            region_end,
            query,
            bm,
            p0,
            r1,
            from,
        ),
    ensures
        spec_covering_emitted(
            buffer,
            buffer_addr,
            region_start,
            region_end,
            query,
            bm,
            p0,
            r2,
            from,
        ),
{
    let addrs = choose|addrs: Seq<u64>|
        #[trigger] spec_group_covering(
            buffer,
            buffer_addr,
            region_start,
            region_end,
            query,
            bm,
            p0,
            addrs,
        ) && spec_emitted(r1, from, buffer_addr + p0) && (forall|t: int|
            0 <= t < addrs.len() ==> spec_emitted(r1, from, (#[trigger] addrs[t]) as int));
    assert(spec_emitted(r2, from, buffer_addr + p0)) by {
        let ke = choose|ke: int| from <= ke < r1.len() && r1[ke].addr == buffer_addr + p0;
        assert(r2.subrange(0, r1.len() as int)[ke] == r2[ke]);
    }
    assert forall|t: int|
        0 <= t < addrs.len() implies spec_emitted(r2, from, (#[trigger] addrs[t]) as int) by {
        assert(spec_emitted(r1, from, addrs[t] as int));
        let ke = choose|ke: int| from <= ke < r1.len() && r1[ke].addr == addrs[t] as int;
        assert(r2.subrange(0, r1.len() as int)[ke] == r2[ke]);
    }
}

/// Whether `addr` already appears among the chosen pairs.
fn addr_taken(chosen: &Vec<ValuePair>, addr: u64) -> (r: bool)
    ensures
        r == exists|k: int| 0 <= k < chosen@.len() && (#[trigger] chosen@[k]).addr == addr,
{
    let n: usize = chosen.len();
    let mut i: usize = 0;
    while i < n
        invariant
            i <= n,
            n == chosen@.len(),
            forall|k: int| 0 <= k < i ==> (#[trigger] chosen@[k]).addr != addr,
        decreases n - i,
    {
        if chosen[i].addr == addr {
            return true;
        }
        i += 1;
    }
    false
}

/// Depth-first assignment of the remaining values: starting from the
/// anchor in `chosen`, each candidate list in turn contributes one pair
/// whose address is new (and, in ordered mode, past every earlier one).
/// On success `chosen` grows by one pair per candidate list; on failure it
/// is left as it was.
fn assign_values(
    cands: &Vec<Vec<ValuePair>>,
    j: usize,
    ordered: bool,
    chosen: &mut Vec<ValuePair>,
) -> (ok: bool)
    requires
        j <= cands@.len(),
        old(chosen)@.len() >= 1,
        forall|k1: int, k2: int|
            0 <= k1 < k2 < old(chosen)@.len() ==> (#[trigger] old(chosen)@[k1]).addr != (
            #[trigger] old(chosen)@[k2]).addr,
        ordered ==> forall|k1: int, k2: int|
            0 <= k1 < k2 < old(chosen)@.len() ==> (#[trigger] old(chosen)@[k1]).addr < (
            #[trigger] old(chosen)@[k2]).addr,
    ensures
        ok == spec_extension_exists(spec_cands_model(cands@), j as int, ordered, old(chosen)@),
        !ok ==> final(chosen)@ == old(chosen)@,
        ok ==> {
            &&& final(chosen)@.len() == old(chosen)@.len() + (cands@.len() - j)
            &&& final(chosen)@.subrange(0, old(chosen)@.len() as int) =~= old(chosen)@
            &&& forall|i: int|
                old(chosen)@.len() <= i < final(chosen)@.len() ==> cands@[j + i - old(chosen)@.len()]@.contains(#[trigger] final(chosen)@[i])
            &&& forall|k1: int, k2: int|
                0 <= k1 < k2 < final(chosen)@.len() ==> (#[trigger] final(chosen)@[k1]).addr != (
                #[trigger] final(chosen)@[k2]).addr
            &&& ordered ==> forall|k1: int, k2: int|
                0 <= k1 < k2 < final(chosen)@.len() ==> (#[trigger] final(chosen)@[k1]).addr < (
                #[trigger] final(chosen)@[k2]).addr
        },
    decreases cands@.len() - j,
{
    let ghost model = spec_cands_model(cands@);
    if j == cands.len() {
        proof {
            assert(chosen@.subrange(0, chosen@.len() as int) =~= chosen@);
            let ext = Seq::<ValuePair>::empty();
            assert(chosen@ + ext =~= chosen@);
            assert(spec_valid_extension(model, j as int, ordered, chosen@, ext));
        }
        return true;
    }
    let total: usize = cands.len();
    let list: &Vec<ValuePair> = &cands[j];
    let n: usize = list.len();
    let mut c: usize = 0;
    while c < n
        invariant
            c <= n,
            n == cands@[j as int]@.len(),
            j < total,
            total == cands@.len(),
            model == spec_cands_model(cands@),
            chosen@ == old(chosen)@,
            forall|c2: int|
                0 <= c2 < c ==> !#[trigger] spec_ext_starting(
                    model,
                    j as int,
                    ordered,
                    chosen@,
                    model[j as int][c2],
                ),
            chosen@.len() >= 1,
            forall|k1: int, k2: int|
                0 <= k1 < k2 < chosen@.len() ==> (#[trigger] chosen@[k1]).addr != (
                #[trigger] chosen@[k2]).addr,
            ordered ==> forall|k1: int, k2: int|
                0 <= k1 < k2 < chosen@.len() ==> (#[trigger] chosen@[k1]).addr < (
                #[trigger] chosen@[k2]).addr,
        decreases n - c,
    {
        let cand: ValuePair = cands[j][c];
        let fresh: bool = !addr_taken(chosen, cand.addr);
        let in_order: bool = if ordered {
            cand.addr > chosen[chosen.len() - 1].addr
        } else {
            true
        };
        if fresh && in_order {
            let ghost before = chosen@;
            chosen.push(cand);
            proof {
                assert(chosen@.drop_last() =~= before);
                assert(cands@[j as int]@.contains(chosen@[chosen@.len() - 1]));
                if ordered {
                    assert forall|k1: int, k2: int|
                        0 <= k1 < k2 < chosen@.len() implies (#[trigger] chosen@[k1]).addr < (
                    #[trigger] chosen@[k2]).addr by {
                        if k2 == chosen@.len() - 1 {
                            assert(before[k1].addr <= before[before.len() - 1].addr);
                        }
                    }
                }
                assert forall|k1: int, k2: int|
                    0 <= k1 < k2 < chosen@.len() implies (#[trigger] chosen@[k1]).addr != (
                #[trigger] chosen@[k2]).addr by {
                    if k2 == chosen@.len() - 1 {
                        assert(!(exists|k: int|
                            0 <= k < before.len() && (#[trigger] before[k]).addr == cand.addr));
                        assert(before[k1].addr != cand.addr);
                    }
                }
            }
            let deeper: bool = assign_values(cands, j + 1, ordered, chosen);
            if deeper {
                proof {
                    let base = old(chosen)@.len() as int;
                    assert(chosen@.subrange(0, base) =~= before.push(cand).subrange(0, base));
                    assert(before.push(cand).subrange(0, base) =~= before);
                    assert forall|i: int|
                        base <= i < chosen@.len() implies cands@[j + i - base]@.contains(
                        #[trigger] chosen@[i],
                    ) by {
                        if i == base {
                            assert(chosen@[i] == before.push(cand)[i]);
                            assert(chosen@[i] == cand);
                        }
                    }
                    // the deeper completion, headed by this candidate,
                    // completes the original prefix
                    let ext2 = choose|ext2: Seq<ValuePair>|
                        #[trigger] spec_valid_extension(
                            model,
                            j + 1,
                            ordered,
                            before.push(cand),
                            ext2,
                        );
                    let ext = seq![cand] + ext2;
                    assert(before + ext =~= before.push(cand) + ext2);
                    assert(model[j as int].contains(cand)) by {
                        assert(model[j as int][c as int] == cand);
                    }
                    assert forall|t: int|
                        0 <= t < ext.len() implies model[j + t].contains(#[trigger] ext[t]) by {
                        if t > 0 {
                            assert(ext[t] == ext2[t - 1]);
                            assert(model[(j + 1) + (t - 1)].contains(ext2[t - 1]));
                        }
                    }
                    assert(spec_valid_extension(model, j as int, ordered, before, ext));
                }
                return true;
            }
            let popped: Option<ValuePair> = chosen.pop();
            proof {
                assert(chosen@ =~= before);
                // no completion starts with this candidate: it would hand
                // the deeper call a completion it ruled out
                assert forall|ext: Seq<ValuePair>|
                    spec_valid_extension(model, j as int, ordered, before, ext) implies ext[0]
                    != cand by {
                    if ext[0] == cand {
                        let ext2 = ext.drop_first();
                        assert((before.push(cand)) + ext2 =~= before + ext);
                        assert forall|t: int|
                            0 <= t < ext2.len() implies model[(j + 1) + t].contains(
                            #[trigger] ext2[t],
                        ) by {
                            assert(ext2[t] == ext[t + 1]);
                            assert(model[j + (t + 1)].contains(ext[t + 1]));
                        }
                        assert(spec_valid_extension(
                            model,
                            j + 1,
                            ordered,
                            before.push(cand),
                            ext2,
                        ));
                        assert(spec_extension_exists(model, j + 1, ordered, before.push(cand)));
                        assert(false);
                    }
                }
            }
        } else {
            proof {
                // a skipped candidate heads no completion: its address
                // repeats the prefix, or breaks the ascending order
                assert forall|ext: Seq<ValuePair>|
                    spec_valid_extension(model, j as int, ordered, chosen@, ext) implies ext[0]
                    != cand by {
                    if ext[0] == cand {
                        let joined = chosen@ + ext;
                        if !fresh {
                            let k = choose|k: int|
                                0 <= k < chosen@.len() && (#[trigger] chosen@[k]).addr
                                    == cand.addr;
                            assert(joined[k].addr == joined[chosen@.len() as int].addr);
                            assert(false);
                        } else {
                            assert(ordered && cand.addr <= chosen@[chosen@.len() - 1].addr);
                            assert(joined[chosen@.len() - 1].addr
                                < joined[chosen@.len() as int].addr);
                            assert(false);
                        }
                    }
                }
            }
        }
        proof {
            assert forall|c2: int|
                0 <= c2 < c + 1 implies !#[trigger] spec_ext_starting(
                model,
                j as int,
                ordered,
                chosen@,
                model[j as int][c2],
            ) by {
                if c2 == c {
                    if spec_ext_starting(model, j as int, ordered, chosen@, model[j as int][c2]) {
                        let ext = choose|ext: Seq<ValuePair>|
                            #[trigger] spec_valid_extension(model, j as int, ordered, chosen@, ext)
                                && ext[0] == model[j as int][c2];
                        assert(false);
                    }
                }
            }
        }
        c += 1;
    }
    proof {
        // every candidate was ruled out, so no completion exists
        if spec_extension_exists(model, j as int, ordered, chosen@) {
            let ext = choose|ext: Seq<ValuePair>|
                #[trigger] spec_valid_extension(model, j as int, ordered, chosen@, ext);
            assert(ext.len() == model.len() - j >= 1);
            assert(model[j as int].contains(ext[0]));
            let c2 = choose|c2: int|
                0 <= c2 < model[j as int].len() && model[j as int][c2] == ext[0];
            assert(spec_ext_starting(model, j as int, ordered, chosen@, model[j as int][c2]));
            assert(false);
        }
    }
    false
}

/// Scans one read chunk for a group query.
///
/// A query with one value is exactly the single-value scan, whatever its
/// band width or order mode say.  With several values, every emitted pair
/// belongs to a successful covering: it matches the value it was assigned,
/// at the anchor or inside the anchor's band.
pub fn search_in_buffer_group(
    buffer: &[u8],
    buffer_addr: u64,
    region_start: u64,
    region_end: u64,
    query: &SearchQuery,
    page_status: &PageStatusBitmap,
    results: &mut Vec<ValuePair>,
)
    requires
        query.spec_valid(),
        spec_values_scannable(query.values@),
        buffer@.len() <= 0x1000_0000,
        buffer_addr <= 0xFFFF_0000_0000_0000,
    ensures
        final(results)@.len() >= old(results)@.len(),
        final(results)@.subrange(0, old(results)@.len() as int) =~= old(results)@,
        forall|k: int|
            old(results)@.len() <= k < final(results)@.len() ==> #[trigger] spec_group_member(
                buffer@,
                buffer_addr,
                region_start,
                region_end,
                *query,
                page_status,
                final(results)@[k],
            ),
        query.values@.len() == 1 ==> {
            &&& forall|p: int|
                #[trigger] spec_single_match(
                    buffer@,
                    buffer_addr,
                    region_start,
                    region_end,
                    query.values@[0].spec_required_len(),
                    query.values@[0],
                    page_status,
                    p,
                ) ==> spec_emitted(final(results)@, old(results)@.len() as int, buffer_addr + p)
            &&& forall|k1: int, k2: int|
                old(results)@.len() <= k1 < k2 < final(results)@.len() ==> final(results)@[k1].addr < final(results)@[k2].addr
        },
        // every anchor that has a complete covering is emitted, with its
        // covering, by the depth-first pass
        query.values@.len() > 1 ==> forall|p0: int|
            #[trigger] spec_covering_exists(
                buffer@,
                buffer_addr,
                region_start,
                region_end,
                *query,
                page_status,
                p0,
            ) ==> spec_emitted(final(results)@, old(results)@.len() as int, buffer_addr + p0)
                && spec_covering_emitted(
                buffer@,
                buffer_addr,
                region_start,
                region_end,
                *query,
                page_status,
                p0,
                final(results)@,
                old(results)@.len() as int,
            ),
{
    let ghost n0 = results@.len() as int;
    let nvals: usize = query.values.len();
    let first: &SearchValue = &query.values[0];
    let first_size: usize = first.value_type().size();
    let mut anchors: Vec<ValuePair> = Vec::new();
    search_in_chunks_with_status(
        buffer,
        buffer_addr,
        region_start,
        region_end,
        first_size,
        first,
        query.values[0].value_type(),
        page_status,
        &mut anchors,
    );
    proof {
        assert forall|k: int|
            0 <= k < anchors@.len() implies #[trigger] spec_group_member(
            buffer@,
            buffer_addr,
            region_start,
            region_end,
            *query,
            page_status,
            anchors@[k],
        ) by {
            assert(anchors@[k].value_type == query.values@[0].spec_value_type());
            let p0 = choose|p: int|
                spec_single_match(
                    buffer@,
                    buffer_addr,
                    region_start,
                    region_end,
                    query.values@[0].spec_required_len(),
                    query.values@[0],
                    page_status,
                    p,
                ) && anchors@[k].addr == buffer_addr + p;
            assert(spec_single_match(
                buffer@,
                buffer_addr,
                region_start,
                region_end,
                query.values@[0].spec_required_len(),
                query.values@[0],
                page_status,
                p0,
            ) && (anchors@[k].addr == buffer_addr + p0 || false));
        }
        assert forall|k: int|
            0 <= k < anchors@.len() implies #[trigger] spec_found_pair(
            buffer@,
            buffer_addr,
            region_start,
            region_end,
            query.values@[0],
            page_status,
            anchors@[k],
        ) by {
            assert(anchors@[k].value_type == query.values@[0].spec_value_type());
        }
    }
    if nvals == 1 {
        // the single-value scan, untouched by band or order parameters
        let n: usize = anchors.len();
        let mut i: usize = 0;
        while i < n
            invariant
                i <= n,
                n == anchors@.len(),
                n0 == old(results)@.len(),
                results@.len() == n0 + i,
                results@.subrange(0, n0) =~= old(results)@,
                forall|k: int| 0 <= k < i ==> results@[n0 + k] == anchors@[k],
                forall|k: int|
                    0 <= k < anchors@.len() ==> #[trigger] spec_group_member(
                        buffer@,
                        buffer_addr,
                        region_start,
                        region_end,
                        *query,
                        page_status,
                        anchors@[k],
                    ),
            decreases n - i,
        {
            let ghost r0 = results@;
            results.push(anchors[i]);
            proof {
                assert(results@.subrange(0, n0) =~= r0.subrange(0, n0));
            }
            i += 1;
        }
        proof {
            assert forall|p: int|
                #[trigger] spec_single_match(
                    buffer@,
                    buffer_addr,
                    region_start,
                    region_end,
                    query.values@[0].spec_required_len(),
                    query.values@[0],
                    page_status,
                    p,
                ) implies spec_emitted(results@, n0, buffer_addr + p) by {
                assert(spec_emitted(anchors@, 0, buffer_addr + p));
                let k = choose|k: int|
                    0 <= k < anchors@.len() && anchors@[k].addr == buffer_addr + p;
                assert(results@[n0 + k].addr == buffer_addr + p);
            }
            assert forall|k: int|
                n0 <= k < results@.len() implies #[trigger] spec_group_member(
                buffer@,
                buffer_addr,
                region_start,
                region_end,
                *query,
                page_status,
                results@[k],
            ) by {
                assert(results@[k] == anchors@[k - n0]);
            }
            assert forall|k1: int, k2: int|
                n0 <= k1 < k2 < results@.len() implies results@[k1].addr < results@[k2].addr by {
                assert(results@[k1] == anchors@[k1 - n0]);
                assert(results@[k2] == anchors@[k2 - n0]);
            }
        }
        return ;
    }
    // several values: try each anchor's band
    let ordered: bool = matches!(query.mode, SearchMode::Ordered);
    let anchor_count: usize = anchors.len();
    let mut a: usize = 0;
    while a < anchor_count
        invariant
            a <= anchor_count,
            anchor_count == anchors@.len(),
            ordered == (query.mode == SearchMode::Ordered),
            n0 == old(results)@.len(),
            2 <= nvals == query.values@.len() <= 64,
            query.spec_valid(),
            spec_values_scannable(query.values@),
            buffer@.len() <= 0x1000_0000,
            buffer_addr <= 0xFFFF_0000_0000_0000,
            results@.len() >= n0,
            results@.subrange(0, n0) =~= old(results)@,
            forall|k: int|
                0 <= k < anchors@.len() ==> #[trigger] spec_group_member(
                    buffer@,
                    buffer_addr,
                    region_start,
                    region_end,
                    *query,
                    page_status,
                    anchors@[k],
                ),
            forall|k: int|
                0 <= k < anchors@.len() ==> #[trigger] spec_found_pair(
                    buffer@,
                    buffer_addr,
                    region_start,
                    region_end,
                    query.values@[0],
                    page_status,
                    anchors@[k],
                ),
            forall|k: int|
                n0 <= k < results@.len() ==> #[trigger] spec_group_member(
                    buffer@,
                    buffer_addr,
                    region_start,
                    region_end,
                    *query,
                    page_status,
                    results@[k],
                ),
            forall|px: int|
                #[trigger] spec_covering_exists(
                    buffer@,
                    buffer_addr,
                    region_start,
                    region_end,
                    *query,
                    page_status,
                    px,
                ) && spec_addr_in_prefix(anchors@, a as int, buffer_addr + px) ==> spec_emitted(
                    results@,
                    n0,
                    buffer_addr + px,
                ) && spec_covering_emitted(
                    buffer@,
                    buffer_addr,
                    region_start,
                    region_end,
                    *query,
                    page_status,
                    px,
                    results@,
                    n0,
                ),
        decreases anchor_count - a,
    {
        let ghost rstart = results@;
        let anchor: ValuePair = anchors[a];
        proof {
            assert(spec_found_pair(
                buffer@,
                buffer_addr,
                region_start,
                region_end,
                query.values@[0],
                page_status,
                anchors@[a as int],
            ));
        }
        let ghost p0: int = choose|p: int|
            spec_single_match(
                buffer@,
                buffer_addr,
                region_start,
                region_end,
                query.values@[0].spec_required_len(),
                query.values@[0],
                page_status,
                p,
            ) && anchors@[a as int].addr == buffer_addr + p;
        proof {
            assert(anchor.addr == buffer_addr + p0);
            assert(p0 + query.values@[0].spec_required_len() <= buffer@.len());
        }
        let band_lo: u64 = if ordered {
            anchor.addr
        } else {
            if anchor.addr >= query.range as u64 {
                anchor.addr - query.range as u64
            } else {
                0
            }
        };
        // candidate lists, one per remaining value, scanned inside the band
        let mut cands: Vec<Vec<ValuePair>> = Vec::new();
        let mut j: usize = 1;
        while j < nvals
            invariant
                1 <= j <= nvals,
                nvals == query.values@.len(),
                spec_values_scannable(query.values@),
                buffer@.len() <= 0x1000_0000,
                buffer_addr <= 0xFFFF_0000_0000_0000,
                anchor.addr <= 0xFFFF_0000_1000_0000,
                band_lo == spec_band_lo(anchor.addr, query.range, query.mode),
                ordered == (query.mode == SearchMode::Ordered),
                cands@.len() == j - 1,
                forall|jj: int|
                    0 <= jj < cands@.len() ==> forall|k: int|
                        0 <= k < (#[trigger] cands@[jj])@.len() ==> #[trigger] spec_found_pair(
                            buffer@,
                            buffer_addr,
                            spec_band_lo(anchor.addr, query.range, query.mode),
                            spec_band_end(
                                anchor.addr,
                                query.range,
                                query.values@[jj + 1].spec_required_len(),
                            ) as u64,
                            query.values@[jj + 1],
                            page_status,
                            cands@[jj]@[k],
                        ),
                forall|jj: int, k: int|
                    #![trigger cands@[jj]@[k]]
                    0 <= jj < cands@.len() && 0 <= k < cands@[jj]@.len() ==> cands@[jj]@[k].value_type == query.values@[jj + 1].spec_value_type(),
                forall|jj: int, p: int|
                    #![trigger spec_single_match(
                        buffer@,
                        buffer_addr,
                        spec_band_lo(anchor.addr, query.range, query.mode),
                        spec_band_end(
                            anchor.addr,
                            query.range,
                            query.values@[jj + 1].spec_required_len(),
                        ) as u64,
                        query.values@[jj + 1].spec_required_len(),
                        query.values@[jj + 1],
                        page_status,
                        p,
                    )]
                    0 <= jj < cands@.len() && spec_single_match(
                        buffer@,
                        buffer_addr,
                        spec_band_lo(anchor.addr, query.range, query.mode),
                        spec_band_end(
                            anchor.addr,
                            query.range,
                            query.values@[jj + 1].spec_required_len(),
                        ) as u64,
                        query.values@[jj + 1].spec_required_len(),
                        query.values@[jj + 1],
                        page_status,
                        p,
                    ) ==> spec_emitted(cands@[jj]@, 0, buffer_addr + p),
            decreases nvals - j,
        {
            let value: &SearchValue = &query.values[j];
            let size: usize = value.value_type().size();
            let band_end: u64 = {
                let widened: u64 = anchor.addr;
                widened + query.range as u64 + size as u64
            };
            let mut list: Vec<ValuePair> = Vec::new();
            search_in_chunks_with_status(
                buffer,
                buffer_addr,
                band_lo,
                band_end,
                size,
                value,
                query.values[j].value_type(),
                page_status,
                &mut list,
            );
            proof {
                assert(band_end == spec_band_end(
                    anchor.addr,
                    query.range,
                    query.values@[j as int].spec_required_len(),
                ));
                assert forall|k: int|
                    0 <= k < list@.len() implies #[trigger] spec_found_pair(
                    buffer@,
                    buffer_addr,
                    spec_band_lo(anchor.addr, query.range, query.mode),
                    spec_band_end(
                        anchor.addr,
                        query.range,
                        query.values@[j as int].spec_required_len(),
                    ) as u64,
                    query.values@[j as int],
                    page_status,
                    list@[k],
                ) by {
                    assert(list@[k].value_type == query.values@[j as int].spec_value_type());
                }
            }
            cands.push(list);
            j += 1;
        }
        let mut chosen: Vec<ValuePair> = Vec::new();
        chosen.push(anchor);
        let ghost chosen0 = chosen@;
        let ok: bool = assign_values(&cands, 0, ordered, &mut chosen);
        proof {
            // if this anchor has any covering, the candidate lists can be
            // completed, so the depth-first pass succeeds
            if spec_covering_exists(
                buffer@,
                buffer_addr,
                region_start,
                region_end,
                *query,
                page_status,
                p0,
            ) {
                let addrs = choose|addrs: Seq<u64>|
                    #[trigger] spec_group_covering(
                        buffer@,
                        buffer_addr,
                        region_start,
                        region_end,
                        *query,
                        page_status,
                        p0,
                        addrs,
                    );
                let model = spec_cands_model(cands@);
                let ext = Seq::new(
                    addrs.len(),
                    |t: int|
                        ValuePair {
                            addr: addrs[t],
                            value_type: query.values@[t + 1].spec_value_type(),
                        },
                );
                assert forall|t: int|
                    0 <= t < ext.len() implies model[t].contains(#[trigger] ext[t]) by {
                    assert(spec_found_pair(
                        buffer@,
                        buffer_addr,
                        spec_band_lo(anchor.addr, query.range, query.mode),
                        spec_band_end(
                            anchor.addr,
                            query.range,
                            query.values@[t + 1].spec_required_len(),
                        ) as u64,
                        query.values@[t + 1],
                        page_status,
                        ValuePair {
                            addr: addrs[t],
                            value_type: query.values@[t + 1].spec_value_type(),
                        },
                    ));
                    let p = choose|p: int|
                        #[trigger] spec_single_match(
                            buffer@,
                            buffer_addr,
                            spec_band_lo(anchor.addr, query.range, query.mode),
                            spec_band_end(
                                anchor.addr,
                                query.range,
                                query.values@[t + 1].spec_required_len(),
                            ) as u64,
                            query.values@[t + 1].spec_required_len(),
                            query.values@[t + 1],
                            page_status,
                            p,
                        ) && addrs[t] == buffer_addr + p;
                    assert(spec_emitted(cands@[t]@, 0, buffer_addr + p));
                    let k = choose|k: int|
                        0 <= k < cands@[t]@.len() && cands@[t]@[k].addr == buffer_addr + p;
                    assert(cands@[t]@[k].value_type == query.values@[t + 1].spec_value_type());
                    assert(cands@[t]@[k] == ext[t]);
                    assert(model[t][k] == ext[t]);
                }
                assert(spec_distinct_ordered(chosen0 + ext, ordered)) by {
                    let joined = chosen0 + ext;
                    assert(joined[0] == anchor);
                    assert forall|k1: int, k2: int|
                        0 <= k1 < k2 < joined.len() implies (#[trigger] joined[k1]).addr != (
                    #[trigger] joined[k2]).addr by {
                        if k1 == 0 {
                            assert(joined[k2] == ext[k2 - 1]);
                            assert(addrs[k2 - 1] != buffer_addr + p0);
                        } else {
                            assert(joined[k1] == ext[k1 - 1] && joined[k2] == ext[k2 - 1]);
                            assert(addrs[k1 - 1] != addrs[k2 - 1]);
                        }
                    }
                    if ordered {
                        assert forall|k1: int, k2: int|
                            0 <= k1 < k2 < joined.len() implies (#[trigger] joined[k1]).addr < (
                        #[trigger] joined[k2]).addr by {
                            if k1 == 0 {
                                assert(joined[k2] == ext[k2 - 1]);
                                assert(addrs[k2 - 1] > buffer_addr + p0);
                            } else {
                                assert(joined[k1] == ext[k1 - 1] && joined[k2] == ext[k2 - 1]);
                                assert(addrs[k1 - 1] < addrs[k2 - 1]);
                            }
                        }
                    }
                }
                assert(spec_valid_extension(model, 0, ordered, chosen0, ext));
                assert(spec_extension_exists(model, 0, ordered, chosen0));
                assert(ok);
            }
        }
        let ghost remit = results@.len() as int;
        if ok {
            proof {
                assert(chosen@.subrange(0, 1)[0] == chosen@[0]);
                assert(chosen@[0] == anchor);
            }
            // the covering is complete: emit every covering address
            let m: usize = chosen.len();
            let mut t: usize = 0;
            while t < m
                invariant
                    t <= m,
                    m == chosen@.len(),
                    m == cands@.len() + 1,
                    n0 == old(results)@.len(),
                    chosen@[0] == anchors@[a as int],
                    a < anchors@.len(),
                    cands@.len() == nvals - 1,
                    nvals == query.values@.len(),
                    forall|i: int|
                        1 <= i < chosen@.len() ==> cands@[i - 1]@.contains(
                            #[trigger] chosen@[i],
                        ),
                    forall|jj: int|
                        0 <= jj < cands@.len() ==> forall|k: int|
                            0 <= k < (#[trigger] cands@[jj])@.len()
                                ==> #[trigger] spec_found_pair(
                                buffer@,
                                buffer_addr,
                                spec_band_lo(anchor.addr, query.range, query.mode),
                                spec_band_end(
                                    anchor.addr,
                                    query.range,
                                    query.values@[jj + 1].spec_required_len(),
                                ) as u64,
                                query.values@[jj + 1],
                                page_status,
                                cands@[jj]@[k],
                            ),
                    anchor == anchors@[a as int],
                    band_lo == spec_band_lo(anchor.addr, query.range, query.mode),
                    spec_single_match(
                        buffer@,
                        buffer_addr,
                        region_start,
                        region_end,
                        query.values@[0].spec_required_len(),
                        query.values@[0],
                        page_status,
                        p0,
                    ) && anchor.addr == buffer_addr + p0,
                    results@.len() >= n0,
                    results@.subrange(0, n0) =~= old(results)@,
                    remit == rstart.len(),
                    rstart.len() >= n0,
                    results@.len() >= rstart.len(),
                    results@.subrange(0, rstart.len() as int) =~= rstart,
                    t == 0 ==> results@ == rstart,
                    t >= 1 ==> remit < results@.len() && results@[remit].addr == anchor.addr,
                    results@.len() == rstart.len() + t,
                    forall|tt: int| 0 <= tt < t ==> #[trigger] results@[remit + tt] == chosen@[tt],
                    forall|k: int|
                        0 <= k < anchors@.len() ==> #[trigger] spec_group_member(
                            buffer@,
                            buffer_addr,
                            region_start,
                            region_end,
                            *query,
                            page_status,
                            anchors@[k],
                        ),
                    forall|k: int|
                        n0 <= k < results@.len() ==> #[trigger] spec_group_member(
                            buffer@,
                            buffer_addr,
                            region_start,
                            region_end,
                            *query,
                            page_status,
                            results@[k],
                        ),
                decreases m - t,
            {
                let ghost r0 = results@;
                let item: ValuePair = chosen[t];
                proof {
                    if t == 0 {
                        assert(spec_group_member(
                            buffer@,
                            buffer_addr,
                            region_start,
                            region_end,
                            *query,
                            page_status,
                            item,
                        ));
                    } else {
                        let jj = t - 1;
                        assert(cands@[jj as int]@.contains(chosen@[t as int]));
                        let k = choose|k: int|
                            0 <= k < cands@[jj as int]@.len() && cands@[jj as int]@[k]
                                == chosen@[t as int];
                        assert(spec_found_pair(
                            buffer@,
                            buffer_addr,
                            spec_band_lo(anchor.addr, query.range, query.mode),
                            spec_band_end(
                                anchor.addr,
                                query.range,
                                query.values@[jj + 1].spec_required_len(),
                            ) as u64,
                            query.values@[jj + 1],
                            page_status,
                            cands@[jj as int]@[k],
                        ));
                        assert(spec_found_pair(
                            buffer@,
                            buffer_addr,
                            spec_band_lo(anchor.addr, query.range, query.mode),
                            spec_band_end(
                                anchor.addr,
                                query.range,
                                query.values@[jj + 1].spec_required_len(),
                            ) as u64,
                            query.values@[jj + 1],
                            page_status,
                            item,
                        ));
                        assert(1 <= jj + 1 < query.values@.len());
                        assert(spec_group_member(
                            buffer@,
                            buffer_addr,
                            region_start,
                            region_end,
                            *query,
                            page_status,
                            item,
                        ));
                    }
                }
                results.push(item);
                proof {
                    assert(results@.subrange(0, n0) =~= r0.subrange(0, n0));
                    assert(results@.subrange(0, rstart.len() as int) =~= r0.subrange(
                        0,
                        rstart.len() as int,
                    ));
                    if t == 0 {
                        assert(results@[remit] == anchor);
                    } else {
                        assert(results@[remit] == r0[remit]);
                    }
                }
                t += 1;
            }
        }
        proof {
            // coverings among the anchors handled so far stay wholly emitted
            assert forall|px: int|
                #[trigger] spec_covering_exists(
                    buffer@,
                    buffer_addr,
                    region_start,
                    region_end,
                    *query,
                    page_status,
                    px,
                ) && spec_addr_in_prefix(anchors@, a + 1, buffer_addr + px) implies spec_emitted(
                results@,
                n0,
                buffer_addr + px,
            ) && spec_covering_emitted(
                buffer@,
                buffer_addr,
                region_start,
                region_end,
                *query,
                page_status,
                px,
                results@,
                n0,
            ) by {
                let k = choose|k: int|
                    0 <= k < a + 1 && (#[trigger] anchors@[k]).addr == buffer_addr + px;
                if k < a {
                    assert(spec_addr_in_prefix(anchors@, a as int, buffer_addr + px));
                    assert(spec_emitted(rstart, n0, buffer_addr + px));
                    let ke = choose|ke: int|
                        n0 <= ke < rstart.len() && rstart[ke].addr == buffer_addr + px;
                    assert(results@.subrange(0, rstart.len() as int)[ke] == rstart[ke]);
                    assert(results@[ke].addr == buffer_addr + px);
                    assert(results@.subrange(0, rstart.len() as int) =~= rstart);
                    assert(results@.subrange(0, rstart.len() as int) == rstart);
                    lemma_covering_emitted_grows(
                        buffer@,
                        buffer_addr,
                        region_start,
                        region_end,
                        *query,
                        page_status,
                        px,
                        rstart,
                        results@,
                        n0,
                    );
                } else {
                    // this very anchor: its address fixes the position, a
                    // covering forces the pass to succeed and the whole
                    // chosen block was pushed, itself a covering
                    assert(anchors@[a as int].addr == buffer_addr + px);
                    assert(buffer_addr + p0 == buffer_addr + px);
                    assert(p0 == px);
                    assert(ok);
                    assert(results@[remit].addr == anchor.addr);
                    assert(remit >= n0);
                    let m = chosen@.len();
                    let addrs_c = Seq::new((m - 1) as nat, |t: int| chosen@[t + 1].addr);
                    assert((buffer_addr + p0) as u64 == anchor.addr);
                    assert forall|t: int|
                        0 <= t < addrs_c.len() implies spec_found_pair(
                        buffer@,
                        buffer_addr,
                        spec_band_lo((buffer_addr + p0) as u64, query.range, query.mode),
                        spec_band_end(
                            (buffer_addr + p0) as u64,
                            query.range,
                            (#[trigger] query.values@[t + 1]).spec_required_len(),
                        ) as u64,
                        query.values@[t + 1],
                        page_status,
                        ValuePair {
                            addr: addrs_c[t],
                            value_type: query.values@[t + 1].spec_value_type(),
                        },
                    ) by {
                        assert(cands@[t]@.contains(chosen@[t + 1]));
                        let kc = choose|kc: int|
                            0 <= kc < cands@[t]@.len() && cands@[t]@[kc] == chosen@[t + 1];
                        assert(cands@[t]@[kc].value_type == query.values@[t
                            + 1].spec_value_type());
                        assert(chosen@[t + 1] == (ValuePair {
                            addr: addrs_c[t],
                            value_type: query.values@[t + 1].spec_value_type(),
                        }));
                        assert(spec_found_pair(
                            buffer@,
                            buffer_addr,
                            spec_band_lo(anchor.addr, query.range, query.mode),
                            spec_band_end(
                                anchor.addr,
                                query.range,
                                query.values@[t + 1].spec_required_len(),
                            ) as u64,
                            query.values@[t + 1],
                            page_status,
                            cands@[t]@[kc],
                        ));
                    }
                    assert forall|t1: int, t2: int|
                        0 <= t1 < t2 < addrs_c.len() implies (#[trigger] addrs_c[t1]) != (
                    #[trigger] addrs_c[t2]) by {
                        assert(chosen@[t1 + 1].addr != chosen@[t2 + 1].addr);
                    }
                    assert forall|t: int|
                        0 <= t < addrs_c.len() implies (#[trigger] addrs_c[t]) != buffer_addr
                        + p0 by {
                        assert(chosen@[t + 1].addr != chosen@[0].addr);
                    }
                    if query.mode == SearchMode::Ordered {
                        assert forall|t: int|
                            0 <= t < addrs_c.len() implies (#[trigger] addrs_c[t]) > buffer_addr
                            + p0 by {
                            assert(chosen@[0].addr < chosen@[t + 1].addr);
                        }
                        assert forall|t1: int, t2: int|
                            0 <= t1 < t2 < addrs_c.len() implies (#[trigger] addrs_c[t1]) < (
                        #[trigger] addrs_c[t2]) by {
                            assert(chosen@[t1 + 1].addr < chosen@[t2 + 1].addr);
                        }
                    }
                    assert(spec_group_covering(
                        buffer@,
                        buffer_addr,
                        region_start,
                        region_end,
                        *query,
                        page_status,
                        p0,
                        addrs_c,
                    ));
                    assert forall|t: int|
                        0 <= t < addrs_c.len() implies spec_emitted(
                        results@,
                        n0,
                        (#[trigger] addrs_c[t]) as int,
                    ) by {
                        let tt = t + 1;
                        assert(results@[remit + tt] == chosen@[tt]);
                        assert(results@[remit + tt].addr == addrs_c[t]);
                    }
                    assert(spec_emitted(results@, n0, buffer_addr + p0));
                    assert(spec_covering_emitted(
                        buffer@,
                        buffer_addr,
                        region_start,
                        region_end,
                        *query,
                        page_status,
                        p0,
                        results@,
                        n0,
                    ));
                }
            }
        }
        a += 1;
    }
    proof {
        assert(results@.subrange(0, n0) =~= old(results)@);
        // every covered anchor was scanned, so its chain block is present
        assert forall|px: int|
            #[trigger] spec_covering_exists(
                buffer@,
                buffer_addr,
                region_start,
                region_end,
                *query,
                page_status,
                px,
            ) implies spec_emitted(results@, n0, buffer_addr + px) && spec_covering_emitted(
            buffer@,
            buffer_addr,
            region_start,
            region_end,
            *query,
            page_status,
            px,
            results@,
            n0,
        ) by {
            let addrs = choose|addrs: Seq<u64>|
                #[trigger] spec_group_covering(
                    buffer@,
                    buffer_addr,
                    region_start,
                    region_end,
                    *query,
                    page_status,
                    px,
                    addrs,
                );
            assert(spec_emitted(anchors@, 0, buffer_addr + px));
            let k = choose|k: int|
                0 <= k < anchors@.len() && anchors@[k].addr == buffer_addr + px;
            assert(spec_addr_in_prefix(anchors@, anchor_count as int, buffer_addr + px));
        }
    }
}

} // verus!
