//! Single-value chunk matcher.
//!
//! One chunked kernel read hands the engine a page-aligned buffer and a
//! per-page status bitmap; the matcher enumerates every aligned, readable
//! position inside the requested region whose bytes satisfy the query
//! value, in ascending address order.  One-byte exact values ride a
//! vectorised byte search.

use vstd::prelude::*;
use vstd::arithmetic::div_mod::{lemma_fundamental_div_mod, lemma_mod_multiples_vanish};
use crate::values::{SearchValue, ValueType, is_scan_width};
use crate::bitmap::PageStatusBitmap;

verus! {

/// An address paired with the value type that matched there.
#[derive(Debug, Clone, Copy, PartialEq, Eq, Structural)]
pub struct ValuePair {
    pub addr: u64,
    pub value_type: ValueType,
}

impl ValuePair {
    pub fn new(addr: u64, value_type: ValueType) -> (r: Self)
        ensures
            r == (ValuePair { addr, value_type }),
    {
        Self { addr, value_type }
    }
}

/// Relies on `memchr::memchr`: returns the index of the first occurrence
/// of `needle` within `haystack[start..end]`, if any.
#[verifier::external_body]
pub(crate) fn find_byte_in_range(haystack: &[u8], start: usize, end: usize, needle: u8) -> (r:
    Option<usize>)
    requires
        start <= end <= haystack@.len(),
    ensures
        r matches Some(i) ==> start <= i < end && haystack@[i as int] == needle && forall|k: int|
            start <= k < i ==> haystack@[k] != needle,
        r is None ==> forall|k: int| start <= k < end ==> haystack@[k] != needle,
{
    memchr::memchr(needle, &haystack[start..end]).map(|i| i + start)
}

/// The smallest position at or after `start_pos` whose absolute address
/// `base_addr + pos` is a multiple of `align`.
pub fn first_aligned_pos(base_addr: u64, start_pos: usize, align: usize) -> (r: usize)
    requires
        0 < align <= 16,
        base_addr + start_pos + align <= u64::MAX,
        start_pos + align <= usize::MAX,
    ensures
        start_pos <= r < start_pos + align,
        (base_addr + r) % (align as int) == 0,
        forall|p: int| start_pos <= p < r ==> #[trigger] ((base_addr + p) % (align as int)) != 0,
{
    let a: u64 = align as u64;
    let cur: u64 = base_addr + start_pos as u64;
    let rem: usize = (cur % a) as usize;
    if rem == 0 {
        start_pos
    } else {
        let r: usize = start_pos + (align - rem);
        proof {
            let ai = align as int;
            lemma_fundamental_div_mod(cur as int, ai);
            assert((base_addr + r) % ai == 0) by {
                assert(base_addr + r == cur + (ai - cur as int % ai));
                lemma_mod_multiples_vanish((cur as int / ai) + 1, 0, ai);
                assert(ai * ((cur as int / ai) + 1) == ai * (cur as int / ai) + ai)
                    by (nonlinear_arith);
                assert((ai * ((cur as int / ai) + 1)) % ai == 0);
            }
            assert forall|p: int| start_pos <= p < r implies #[trigger] ((base_addr + p) % ai) != 0 by {
                let x = base_addr + p;
                lemma_mod_multiples_vanish(cur as int / ai, x - ai * (cur as int / ai), ai);
                vstd::arithmetic::div_mod::lemma_small_mod(
                    (x - ai * (cur as int / ai)) as nat,
                    ai as nat,
                );
            }
        }
        r
    }
}

/// Two positions aligned to the same stride are at least a stride apart.
pub proof fn lemma_aligned_gap(n: int, x: int, y: int)
    requires
        n > 0,
        x % n == 0,
        y % n == 0,
        x < y,
    ensures
        x + n <= y,
{
    lemma_fundamental_div_mod(x, n);
    lemma_fundamental_div_mod(y, n);
    assert(x == n * (x / n) && y == n * (y / n));
    assert(x / n < y / n) by (nonlinear_arith)
        requires
            n > 0 && x == n * (x / n) && y == n * (y / n) && x < y,
    ;
    assert(n * (x / n) + n <= n * (y / n)) by (nonlinear_arith)
        requires
            n > 0 && x / n < y / n,
    ;
}

/// Whether position `p` of the buffer is a match the single-value scan
/// must emit: the element lies inside the buffer and the requested region,
/// sits on a stride boundary of the absolute address, its page was read,
/// and its bytes satisfy the query value.
pub open spec fn spec_single_match(
    buffer: Seq<u8>,
    buffer_addr: u64,
    region_start: u64,
    region_end: u64,
    esize: nat,
    target: SearchValue,
    bm: &PageStatusBitmap,
    p: int,
) -> bool {
    &&& 0 <= p
    &&& p + esize <= buffer.len()
    &&& (buffer_addr + p) % (esize as int) == 0
    &&& region_start <= buffer_addr + p
    &&& buffer_addr + p + esize <= region_end
    &&& bm.spec_page_success((p / 4096) as nat)
    &&& target.spec_matched(buffer.skip(p))
}

/// Matching only reads the element's own bytes.
proof fn lemma_matched_on_prefix(target: SearchValue, s1: Seq<u8>, s2: Seq<u8>)
    requires
        target.spec_match_supported(),
        s1.len() >= target.spec_required_len(),
        s2.len() >= target.spec_required_len(),
        s1.subrange(0, target.spec_required_len() as int) =~= s2.subrange(
            0,
            target.spec_required_len() as int,
        ),
    ensures
        target.spec_matched(s1) == target.spec_matched(s2),
{
}

/// Whether some element of `results[from..]` carries address `addr`.
pub open spec fn spec_emitted(results: Seq<ValuePair>, from: int, addr: int) -> bool {
    exists|k: int| from <= k < results.len() && results[k].addr == addr
}

/// Appending keeps every already-emitted address emitted.
proof fn lemma_emitted_push(s: Seq<ValuePair>, x: ValuePair, from: int, addr: int)
    requires
        0 <= from,
        spec_emitted(s, from, addr),
    ensures
        spec_emitted(s.push(x), from, addr),
{
    let k = choose|k: int| from <= k < s.len() && s[k].addr == addr;
    assert(s.push(x)[k] == s[k]);
    assert(from <= k < s.push(x).len() && s.push(x)[k].addr == addr);
}

/// Appending keeps the front of the vector as it was.
proof fn lemma_subrange_push(s: Seq<ValuePair>, x: ValuePair, n: int)
    requires
        0 <= n <= s.len(),
    ensures
        s.push(x).subrange(0, n) =~= s.subrange(0, n),
{
}


/// One-byte exact scan of a chunk, riding the vectorised byte search page
/// by page.  Same contract as [`search_in_chunks_with_status`] for a
/// one-byte exact value.
fn search_bytes_with_status(
    buffer: &[u8],
    buffer_addr: u64,
    region_start: u64,
    region_end: u64,
    target: &SearchValue,
    value_type: ValueType,
    page_status: &PageStatusBitmap,
    results: &mut Vec<ValuePair>,
)
    requires
        target matches SearchValue::FixedInt { .. },
        target.spec_required_len() == 1,
        buffer@.len() <= 0x1000_0000,
        buffer_addr <= 0xFFFF_FFFF_0000_0000,
    ensures
        final(results)@.len() >= old(results)@.len(),
        final(results)@.subrange(0, old(results)@.len() as int) =~= old(results)@,
        forall|k: int|
            old(results)@.len() <= k < final(results)@.len() ==> (#[trigger] final(results)@[k]).value_type == value_type && exists|p: int|
                spec_single_match(
                    buffer@,
                    buffer_addr,
                    region_start,
                    region_end,
                    1,
                    *target,
                    page_status,
                    p,
                ) && final(results)@[k].addr == buffer_addr + p,
        forall|p: int|
            #[trigger] spec_single_match(
                buffer@,
                buffer_addr,
                region_start,
                region_end,
                1,
                *target,
                page_status,
                p,
            ) ==> spec_emitted(final(results)@, old(results)@.len() as int, buffer_addr + p),
        forall|k1: int, k2: int|
            old(results)@.len() <= k1 < k2 < final(results)@.len() ==> final(results)@[k1].addr
                < final(results)@[k2].addr,
{
    let ghost n0 = results@.len() as int;
    let needle: u8 = match target {
        SearchValue::FixedInt { value, .. } => value[0],
        _ => 0,
    };
    proof {
        // A one-byte exact value matches a position exactly when the byte
        // there is the needle.
        assert forall|p: int|
            0 <= p < buffer@.len() implies (target.spec_matched(buffer@.skip(p)) <==> buffer@[p]
            == needle) by {
            assert(buffer@.skip(p).subrange(0, 1) =~= seq![buffer@[p]]);
            match target {
                SearchValue::FixedInt { value, value_type: vt } => {
                    assert(value@.subrange(0, 1) =~= seq![value@[0]]);
                    assert(seq![buffer@[p]][0] == buffer@[p]);
                },
                _ => {},
            }
        }
    }
    let buffer_len: usize = buffer.len();
    let buffer_end: u64 = buffer_addr + buffer_len as u64;
    let search_start: u64 = if region_start > buffer_addr {
        region_start
    } else {
        buffer_addr
    };
    let search_end: u64 = if region_end < buffer_end {
        region_end
    } else {
        buffer_end
    };
    if search_start >= search_end {
        proof {
            assert(results@.subrange(0, n0) =~= old(results)@);
        }
        return ;
    }
    let scan_start_pos: usize = (search_start - buffer_addr) as usize;
    let scan_end_pos: usize = (search_end - buffer_addr) as usize;
    let mut cur: usize = scan_start_pos;
    while cur < scan_end_pos
        invariant
            target matches SearchValue::FixedInt { .. },
            target.spec_required_len() == 1,
            n0 == old(results)@.len(),
            buffer@.len() <= 0x1000_0000,
            buffer_addr <= 0xFFFF_FFFF_0000_0000,
            scan_end_pos <= buffer@.len(),
            buffer_addr + scan_end_pos <= region_end,
            region_start <= buffer_addr + scan_start_pos,
            scan_start_pos <= cur <= scan_end_pos + 4096,
            results@.len() >= n0,
            results@.subrange(0, n0) =~= old(results)@,
            forall|p: int|
                0 <= p < buffer@.len() ==> (target.spec_matched(#[trigger] buffer@.skip(p)) <==> buffer@[p] == needle),
            forall|k: int|
                n0 <= k < results@.len() ==> (#[trigger] results@[k]).value_type == value_type
                    && exists|p: int|
                    spec_single_match(
                        buffer@,
                        buffer_addr,
                        region_start,
                        region_end,
                        1,
                        *target,
                        page_status,
                        p,
                    ) && results@[k].addr == buffer_addr + p,
            forall|p: int|
                #[trigger] spec_single_match(
                    buffer@,
                    buffer_addr,
                    region_start,
                    region_end,
                    1,
                    *target,
                    page_status,
                    p,
                ) && p < cur ==> spec_emitted(results@, n0, buffer_addr + p),
            forall|p: int|
                #[trigger] spec_single_match(
                    buffer@,
                    buffer_addr,
                    region_start,
                    region_end,
                    1,
                    *target,
                    page_status,
                    p,
                ) ==> scan_start_pos <= p && p + 1 <= scan_end_pos,
            forall|k: int| n0 <= k < results@.len() ==> results@[k].addr < buffer_addr + cur,
            forall|k1: int, k2: int|
                n0 <= k1 < k2 < results@.len() ==> results@[k1].addr < results@[k2].addr,
        decreases scan_end_pos + 4096 - cur,
    {
        let page: usize = cur / 4096;
        let page_end: usize = {
            let pe: usize = (page + 1) * 4096;
            if pe < scan_end_pos {
                pe
            } else {
                scan_end_pos
            }
        };
        proof {
            lemma_fundamental_div_mod(cur as int, 4096);
        }
        if !page_status.is_page_success(page) {
            proof {
                assert forall|p: int|
                    spec_single_match(
                        buffer@,
                        buffer_addr,
                        region_start,
                        region_end,
                        1,
                        *target,
                        page_status,
                        p,
                    ) && p < (page + 1) * 4096 implies spec_emitted(results@, n0, buffer_addr + p)
                    by {
                    if p >= cur {
                        assert(p / 4096 == page) by {
                            assert(page * 4096 <= p < (page + 1) * 4096);
                            lemma_fundamental_div_mod(p, 4096);
                        }
                        assert(false);
                    }
                }
            }
            cur = (page + 1) * 4096;
        } else {
            match find_byte_in_range(buffer, cur, page_end, needle) {
                None => {
                    proof {
                        assert forall|p: int|
                            spec_single_match(
                                buffer@,
                                buffer_addr,
                                region_start,
                                region_end,
                                1,
                                *target,
                                page_status,
                                p,
                            ) && p < page_end implies spec_emitted(results@, n0, buffer_addr + p)
                            by {
                            if p >= cur {
                                assert(buffer@[p] != needle);
                                assert(!target.spec_matched(buffer@.skip(p)));
                                assert(false);
                            }
                        }
                    }
                    cur = page_end;
                },
                Some(i) => {
                    let addr: u64 = buffer_addr + i as u64;
                    let ghost r0 = results@;
                    results.push(ValuePair { addr, value_type });
                    proof {
                        assert(0 <= n0 <= r0.len());
                        lemma_subrange_push(r0, ValuePair { addr, value_type }, n0);
                        assert(results@.subrange(0, n0) =~= old(results)@);
                        assert(i / 4096 == page) by {
                            assert(page * 4096 <= i < (page + 1) * 4096);
                            lemma_fundamental_div_mod(i as int, 4096);
                        }
                        assert((buffer_addr + i) % 1int == 0);
                        assert(spec_single_match(
                            buffer@,
                            buffer_addr,
                            region_start,
                            region_end,
                            1,
                            *target,
                            page_status,
                            i as int,
                        ));
                        assert(results@[results@.len() - 1].addr == buffer_addr + i);
                        assert forall|p: int|
                            spec_single_match(
                                buffer@,
                                buffer_addr,
                                region_start,
                                region_end,
                                1,
                                *target,
                                page_status,
                                p,
                            ) && p < i + 1 implies spec_emitted(results@, n0, buffer_addr + p)
                            by {
                            if p < cur {
                                assert(spec_emitted(r0, n0, buffer_addr + p));
                                lemma_emitted_push(
                                    r0,
                                    ValuePair { addr, value_type },
                                    n0,
                                    buffer_addr + p,
                                );
                            } else if p < i {
                                assert(buffer@[p] != needle);
                                assert(!target.spec_matched(buffer@.skip(p)));
                                assert(false);
                            } else {
                                assert(results@[results@.len() - 1].addr == buffer_addr + p);
                            }
                        }
                    }
                    cur = i + 1;
                },
            }
        }
    }
    proof {
        assert forall|p: int|
            spec_single_match(
                buffer@,
                buffer_addr,
                region_start,
                region_end,
                1,
                *target,
                page_status,
                p,
            ) implies spec_emitted(results@, n0, buffer_addr + p) by {
            assert(p + 1 <= scan_end_pos && p < cur);
        }
        assert(results@.subrange(0, n0) =~= old(results)@);
    }
}

/// Scans one read chunk for a single query value.
///
/// Appends to `results` exactly one `(address, value_type)` pair for every
/// matching position, in strictly ascending address order; earlier entries
/// are kept.  In particular no emitted address lies in a page whose bitmap
/// bit is clear.
pub fn search_in_chunks_with_status(
    buffer: &[u8],
    buffer_addr: u64,
    region_start: u64,
    region_end: u64,
    element_size: usize,
    target: &SearchValue,
    value_type: ValueType,
    page_status: &PageStatusBitmap,
    results: &mut Vec<ValuePair>,
)
    requires
        target.spec_match_supported(),
        element_size == target.spec_required_len(),
        is_scan_width(element_size as nat),
        buffer@.len() <= 0x1000_0000,
        buffer_addr <= 0xFFFF_FFFF_0000_0000,
    ensures
        final(results)@.len() >= old(results)@.len(),
        final(results)@.subrange(0, old(results)@.len() as int) =~= old(results)@,
        forall|k: int|
            old(results)@.len() <= k < final(results)@.len() ==> (#[trigger] final(results)@[k]).value_type == value_type && exists|p: int|
                spec_single_match(
                    buffer@,
                    buffer_addr,
                    region_start,
                    region_end,
                    element_size as nat,
                    *target,
                    page_status,
                    p,
                ) && final(results)@[k].addr == buffer_addr + p,
        forall|p: int|
            #[trigger] spec_single_match(
                buffer@,
                buffer_addr,
                region_start,
                region_end,
                element_size as nat,
                *target,
                page_status,
                p,
            ) ==> spec_emitted(final(results)@, old(results)@.len() as int, buffer_addr + p),
        forall|k1: int, k2: int|
            old(results)@.len() <= k1 < k2 < final(results)@.len() ==> final(results)@[k1].addr
                < final(results)@[k2].addr,
{
    if element_size == 1 && target.is_fixed_int() {
        search_bytes_with_status(
            buffer,
            buffer_addr,
            region_start,
            region_end,
            target,
            value_type,
            page_status,
            results,
        );
        return ;
    }
    let ghost n0 = results@.len() as int;
    let ghost esz = element_size as nat;
    let buffer_len: usize = buffer.len();
    let buffer_end: u64 = buffer_addr + buffer_len as u64;
    let search_start: u64 = if region_start > buffer_addr {
        region_start
    } else {
        buffer_addr
    };
    let search_end: u64 = if region_end < buffer_end {
        region_end
    } else {
        buffer_end
    };
    if search_start >= search_end {
        proof {
            assert forall|p: int|
                !spec_single_match(
                    buffer@,
                    buffer_addr,
                    region_start,
                    region_end,
                    esz,
                    *target,
                    page_status,
                    p,
                ) by {}
            assert(results@.subrange(0, n0) =~= old(results)@);
        }
        return ;
    }
    let scan_start_pos: usize = (search_start - buffer_addr) as usize;
    let scan_end_pos: usize = (search_end - buffer_addr) as usize;
    let mut pos: usize = first_aligned_pos(buffer_addr, scan_start_pos, element_size);
    proof {
        // Every matching position is at least `pos`: below `scan_start_pos`
        // the region bound fails, between it and `pos` alignment fails.
        assert forall|p: int|
            spec_single_match(
                buffer@,
                buffer_addr,
                region_start,
                region_end,
                esz,
                *target,
                page_status,
                p,
            ) implies p >= pos by {
            if p < scan_start_pos {
                assert(buffer_addr + p < search_start);
            } else if p < pos {
                assert((buffer_addr + p) % (element_size as int) != 0);
                assert(false);
            }
        }
    }
    while pos + element_size <= scan_end_pos
        invariant
            target.spec_match_supported(),
            element_size == target.spec_required_len(),
            is_scan_width(esz),
            esz == element_size as nat,
            buffer@.len() <= 0x1000_0000,
            buffer_addr <= 0xFFFF_FFFF_0000_0000,
            scan_end_pos <= buffer@.len(),
            buffer_addr + scan_end_pos <= region_end,
            n0 == old(results)@.len(),
            results@.len() >= n0,
            results@.subrange(0, n0) =~= old(results)@,
            (buffer_addr + pos) % (element_size as int) == 0,
            scan_start_pos <= pos <= scan_end_pos + 4096 + 16,
            region_start <= buffer_addr + scan_start_pos,
            forall|k: int|
                n0 <= k < results@.len() ==> (#[trigger] results@[k]).value_type == value_type
                    && exists|p: int|
                    spec_single_match(
                        buffer@,
                        buffer_addr,
                        region_start,
                        region_end,
                        esz,
                        *target,
                        page_status,
                        p,
                    ) && results@[k].addr == buffer_addr + p,
            forall|p: int|
                #[trigger] spec_single_match(
                    buffer@,
                    buffer_addr,
                    region_start,
                    region_end,
                    esz,
                    *target,
                    page_status,
                    p,
                ) && p < pos ==> spec_emitted(results@, n0, buffer_addr + p),
            forall|p: int|
                #[trigger] spec_single_match(
                    buffer@,
                    buffer_addr,
                    region_start,
                    region_end,
                    esz,
                    *target,
                    page_status,
                    p,
                ) ==> p + esz <= scan_end_pos,
            forall|k: int| n0 <= k < results@.len() ==> results@[k].addr < buffer_addr + pos,
            forall|k1: int, k2: int|
                n0 <= k1 < k2 < results@.len() ==> results@[k1].addr < results@[k2].addr,
        decreases scan_end_pos + 4096 + 16 - pos,
    {
        let page: usize = pos / 4096;
        if !page_status.is_page_success(page) {
            // skip the whole failed page, re-aligning past its end
            let next_page_start: usize = (page + 1) * 4096;
            let next: usize = first_aligned_pos(buffer_addr, next_page_start, element_size);
            proof {
                assert forall|p: int|
                    spec_single_match(
                        buffer@,
                        buffer_addr,
                        region_start,
                        region_end,
                        esz,
                        *target,
                        page_status,
                        p,
                    ) && p < next implies spec_emitted(results@, n0, buffer_addr + p) by {
                    if p >= pos {
                        if p < next_page_start {
                            assert(p / 4096 == page) by {
                                assert(page * 4096 <= p < (page + 1) * 4096);
                                lemma_fundamental_div_mod(p, 4096);
                            }
                            assert(false);
                        } else {
                            assert((buffer_addr + p) % (element_size as int) != 0);
                            assert(false);
                        }
                    }
                }
            }
            pos = next;
        } else {
            let sub: &[u8] = vstd::slice::slice_subrange(buffer, pos, pos + element_size);
            let ok: bool = match target.matched(sub) {
                Ok(b) => b,
                Err(_) => false,
            };
            proof {
                assert(sub@ =~= buffer@.subrange(pos as int, pos + element_size));
                assert(buffer@.skip(pos as int).subrange(0, element_size as int) =~= buffer@
                    .subrange(pos as int, pos + element_size));
                assert(sub@.subrange(0, element_size as int) =~= sub@);
                lemma_matched_on_prefix(*target, sub@, buffer@.skip(pos as int));
            }
            if ok {
                let addr: u64 = buffer_addr + pos as u64;
                let ghost r0 = results@;
                results.push(ValuePair { addr, value_type });
                proof {
                    assert(0 <= n0 <= r0.len());
                    lemma_subrange_push(r0, ValuePair { addr, value_type }, n0);
                    assert(results@ == r0.push(ValuePair { addr, value_type }));
                    assert(results@.subrange(0, n0) =~= old(results)@);
                    assert(results@[results@.len() - 1].addr == buffer_addr + pos);
                    assert(spec_single_match(
                        buffer@,
                        buffer_addr,
                        region_start,
                        region_end,
                        esz,
                        *target,
                        page_status,
                        pos as int,
                    ));
                    assert forall|p: int|
                        spec_single_match(
                            buffer@,
                            buffer_addr,
                            region_start,
                            region_end,
                            esz,
                            *target,
                            page_status,
                            p,
                        ) && p < pos + element_size implies spec_emitted(
                        results@,
                        n0,
                        buffer_addr + p,
                    ) by {
                        if p < pos {
                            assert(spec_emitted(r0, n0, buffer_addr + p));
                            lemma_emitted_push(
                                r0,
                                ValuePair { addr, value_type },
                                n0,
                                buffer_addr + p,
                            );
                        } else if p > pos {
                            lemma_aligned_gap(
                                element_size as int,
                                buffer_addr + pos,
                                buffer_addr + p,
                            );
                        } else {
                            assert(results@[results@.len() - 1].addr == buffer_addr + p);
                        }
                    }
                }
            } else {
                proof {
                    assert forall|p: int|
                        spec_single_match(
                            buffer@,
                            buffer_addr,
                            region_start,
                            region_end,
                            esz,
                            *target,
                            page_status,
                            p,
                        ) && p < pos + element_size implies spec_emitted(
                        results@,
                        n0,
                        buffer_addr + p,
                    ) by {
                        if p == pos {
                            assert(!target.spec_matched(buffer@.skip(pos as int)));
                            assert(false);
                        } else if p > pos {
                            lemma_aligned_gap(
                                element_size as int,
                                buffer_addr + pos,
                                buffer_addr + p,
                            );
                        }
                    }
                }
            }
            proof {
                lemma_mod_multiples_vanish(1, buffer_addr + pos, element_size as int);
            }
            pos += element_size;
        }
    }
    proof {
        assert forall|p: int|
            spec_single_match(
                buffer@,
                buffer_addr,
                region_start,
                region_end,
                esz,
                *target,
                page_status,
                p,
            ) implies spec_emitted(results@, n0, buffer_addr + p) by {
            assert(p + esz <= scan_end_pos);
            assert(p < pos);
        }
        assert(results@.subrange(0, n0) =~= old(results)@);
    }
}

} // verus!
