//! Masked byte-pattern chunk matcher.
//!
//! Enumerates every readable position of a read chunk where the needle's
//! kept bits agree with memory, in ascending address order.  When the
//! needle has a fully-kept byte the scan anchors on it with the vectorised
//! byte search; an all-wildcard needle degrades to a position-by-position
//! walk.

use vstd::prelude::*;
use vstd::arithmetic::div_mod::lemma_fundamental_div_mod;
use crate::values::spec_pattern_matches;
use crate::values::pattern_matches_at;
use crate::bitmap::PageStatusBitmap;

verus! {

/// Whether position `p` of the buffer is a pattern match the scan must
/// emit: the whole needle fits inside the buffer and the requested region,
/// the page holding the match address was read, and every needle byte
/// agrees on its kept bits.
pub open spec fn spec_pattern_match_at(
    buffer: Seq<u8>,
    buffer_addr: u64,
    region_start: u64,
    region_end: u64,
    pat: Seq<(u8, u8)>,
    bm: &PageStatusBitmap,
    p: int,
) -> bool {
    &&& 0 <= p
    &&& p + pat.len() <= buffer.len()
    &&& region_start <= buffer_addr + p
    &&& buffer_addr + p + pat.len() <= region_end
    &&& bm.spec_page_success((p / 4096) as nat)
    &&& spec_pattern_matches(pat, buffer.skip(p))
}

/// Whether `a` is the address of some matching position.
pub open spec fn spec_found_addr(
    buffer: Seq<u8>,
    buffer_addr: u64,
    region_start: u64,
    region_end: u64,
    pat: Seq<(u8, u8)>,
    bm: &PageStatusBitmap,
    a: u64,
) -> bool {
    exists|p: int|
        spec_pattern_match_at(buffer, buffer_addr, region_start, region_end, pat, bm, p) && a
            == buffer_addr + p
}

/// Whether some element of `results[from..]` equals `addr`.
pub open spec fn spec_addr_emitted(results: Seq<u64>, from: int, addr: int) -> bool {
    exists|k: int| from <= k < results.len() && results[k] == addr
}

/// Appending keeps every already-emitted address emitted.
proof fn lemma_addr_emitted_push(s: Seq<u64>, x: u64, from: int, addr: int)
    requires
        0 <= from,
        spec_addr_emitted(s, from, addr),
    ensures
        spec_addr_emitted(s.push(x), from, addr),
{
    let k = choose|k: int| from <= k < s.len() && s[k] == addr;
    assert(s.push(x)[k] == s[k]);
    assert(from <= k < s.push(x).len() && s.push(x)[k] == addr);
}

/// The index of the first needle byte whose mask keeps the whole byte.
fn find_anchor(pat: &[(u8, u8)]) -> (r: Option<usize>)
    ensures
        r matches Some(k) ==> k < pat@.len() && pat@[k as int].1 == 0xFF,
        r is None ==> forall|j: int| 0 <= j < pat@.len() ==> pat@[j].1 != 0xFF,
{
    let n: usize = pat.len();
    let mut i: usize = 0;
    while i < n
        invariant
            i <= n,
            n == pat@.len(),
            forall|j: int| 0 <= j < i ==> pat@[j].1 != 0xFF,
        decreases n - i,
    {
        let (_, m): (u8, u8) = *vstd::slice::slice_index_get(pat, i);
        if m == 0xFF {
            return Some(i);
        }
        i += 1;
    }
    None
}

/// A position where the needle's anchor byte disagrees is no match.
proof fn lemma_anchor_excludes(buffer: Seq<u8>, pat: Seq<(u8, u8)>, p: int, ai: int, needle: u8)
    requires
        0 <= p,
        p + pat.len() <= buffer.len(),
        0 <= ai < pat.len(),
        pat[ai].1 == 0xFF,
        pat[ai].0 == needle,
        buffer[p + ai] != needle,
    ensures
        !spec_pattern_matches(pat, buffer.skip(p)),
{
    let d = buffer.skip(p)[ai];
    let v = needle;
    assert(d != v);
    assert((d & 0xFFu8) == d) by (bit_vector);
    assert((v & 0xFFu8) == v) by (bit_vector);
    if spec_pattern_matches(pat, buffer.skip(p)) {
        assert((buffer.skip(p)[ai] & pat[ai].1) == (pat[ai].0 & pat[ai].1));
        assert(false);
    }
}

/// Scans one read chunk for a masked byte needle.
///
/// Appends to `results` exactly the address of every matching position, in
/// strictly ascending order; earlier entries are kept.  No emitted address
/// lies in a page whose bitmap bit is clear.
#[verifier::loop_isolation(false)]
pub fn search_pattern_in_buffer(
    buffer: &[u8],
    buffer_addr: u64,
    region_start: u64,
    region_end: u64,
    pattern: &[(u8, u8)],
    page_status: &PageStatusBitmap,
    results: &mut Vec<u64>,
)
    requires
        1 <= pattern@.len() <= 4096,
        buffer@.len() <= 0x1000_0000,
        buffer_addr <= 0xFFFF_FFFF_0000_0000,
    ensures
        final(results)@.len() >= old(results)@.len(),
        final(results)@.subrange(0, old(results)@.len() as int) =~= old(results)@,
        forall|k: int|
            old(results)@.len() <= k < final(results)@.len() ==> #[trigger] spec_found_addr(
                buffer@,
                buffer_addr,
                region_start,
                region_end,
                pattern@,
                page_status,
                final(results)@[k],
            ),
        forall|p: int|
            #[trigger] spec_pattern_match_at(
                buffer@,
                buffer_addr,
                region_start,
                region_end,
                pattern@,
                page_status,
                p,
            ) ==> spec_addr_emitted(final(results)@, old(results)@.len() as int, buffer_addr + p),
        forall|k1: int, k2: int|
            old(results)@.len() <= k1 < k2 < final(results)@.len() ==> final(results)@[k1]
                < final(results)@[k2],
{
    let ghost n0 = results@.len() as int;
    let plen: usize = pattern.len();
    let buffer_len: usize = buffer.len();
    let buffer_end: u64 = buffer_addr + buffer_len as u64;
    let search_start: u64 = if region_start > buffer_addr {
        region_start
    } else {
        buffer_addr
    };
    let search_end: u64 = if region_end < buffer_end {
        region_end
    } else {
        buffer_end
    };
    if search_start >= search_end {
        proof {
            assert(results@.subrange(0, n0) =~= old(results)@);
        }
        return ;
    }
    let scan_start_pos: usize = (search_start - buffer_addr) as usize;
    let scan_end_pos: usize = (search_end - buffer_addr) as usize;
    if scan_end_pos < plen || scan_end_pos - plen < scan_start_pos {
        proof {
            assert forall|p: int|
                spec_pattern_match_at(
                    buffer@,
                    buffer_addr,
                    region_start,
                    region_end,
                    pattern@,
                    page_status,
                    p,
                ) implies false by {
                assert(region_start <= buffer_addr + p);
                assert(buffer_addr + p + plen <= region_end);
            }
            assert(results@.subrange(0, n0) =~= old(results)@);
        }
        return ;
    }
    // Candidate start positions are exactly `scan_start_pos ..= limit`.
    let limit: usize = scan_end_pos - plen;
    let anchor: Option<usize> = find_anchor(pattern);
    let mut cur: usize = scan_start_pos;
    while cur <= limit
        invariant
            1 <= plen <= 4096,
            plen == pattern@.len(),
            buffer_len == buffer@.len(),
            n0 == old(results)@.len(),
            buffer@.len() <= 0x1000_0000,
            buffer_addr <= 0xFFFF_FFFF_0000_0000,
            scan_end_pos <= buffer@.len(),
            buffer_addr + scan_end_pos <= region_end,
            region_start <= buffer_addr + scan_start_pos,
            limit == scan_end_pos - plen,
            scan_start_pos <= cur <= limit + 4096 + 1,
            results@.len() >= n0,
            results@.subrange(0, n0) =~= old(results)@,
            anchor matches Some(k) ==> k < pattern@.len() && pattern@[k as int].1 == 0xFF,
            forall|k: int|
                n0 <= k < results@.len() ==> #[trigger] spec_found_addr(
                    buffer@,
                    buffer_addr,
                    region_start,
                    region_end,
                    pattern@,
                    page_status,
                    results@[k],
                ),
            forall|p: int|
                #[trigger] spec_pattern_match_at(
                    buffer@,
                    buffer_addr,
                    region_start,
                    region_end,
                    pattern@,
                    page_status,
                    p,
                ) && p < cur ==> spec_addr_emitted(results@, n0, buffer_addr + p),
            forall|p: int|
                #[trigger] spec_pattern_match_at(
                    buffer@,
                    buffer_addr,
                    region_start,
                    region_end,
                    pattern@,
                    page_status,
                    p,
                ) ==> scan_start_pos <= p <= limit,
            forall|k: int| n0 <= k < results@.len() ==> results@[k] < buffer_addr + cur,
            forall|k1: int, k2: int|
                n0 <= k1 < k2 < results@.len() ==> results@[k1] < results@[k2],
        decreases limit + 4096 + 1 - cur,
    {
        let page: usize = cur / 4096;
        proof {
            lemma_fundamental_div_mod(cur as int, 4096);
        }
        if !page_status.is_page_success(page) {
            proof {
                assert forall|p: int|
                    spec_pattern_match_at(
                        buffer@,
                        buffer_addr,
                        region_start,
                        region_end,
                        pattern@,
                        page_status,
                        p,
                    ) && p < (page + 1) * 4096 implies spec_addr_emitted(
                    results@,
                    n0,
                    buffer_addr + p,
                ) by {
                    if p >= cur {
                        assert(p / 4096 == page) by {
                            assert(page * 4096 <= p < (page + 1) * 4096);
                            lemma_fundamental_div_mod(p, 4096);
                        }
                        assert(false);
                    }
                }
            }
            cur = (page + 1) * 4096;
        } else {
            // candidate window of this page: cur ..= page_limit
            let page_limit: usize = {
                let pe: usize = (page + 1) * 4096 - 1;
                if pe < limit {
                    pe
                } else {
                    limit
                }
            };
            let candidate: Option<usize> = match anchor {
                Some(ai) => {
                    let (av, _): (u8, u8) = *vstd::slice::slice_index_get(pattern, ai);
                    let q: Option<usize> = crate::matcher::find_byte_in_range(
                        buffer,
                        cur + ai,
                        page_limit + 1 + ai,
                        av,
                    );
                    proof {
                        if q is Some {
                            let qi = q.unwrap() as int;
                            assert forall|p: int|
                                cur <= p < qi - ai implies !spec_pattern_matches(
                                pattern@,
                                buffer@.skip(p),
                            ) by {
                                assert(buffer@[p + ai] != av);
                                lemma_anchor_excludes(buffer@, pattern@, p, ai as int, av);
                            }
                        } else {
                            assert forall|p: int|
                                cur <= p <= page_limit implies !spec_pattern_matches(
                                pattern@,
                                buffer@.skip(p),
                            ) by {
                                assert(buffer@[p + ai] != av);
                                lemma_anchor_excludes(buffer@, pattern@, p, ai as int, av);
                            }
                        }
                    }
                    match q {
                        Some(i) => Some(i - ai),
                        None => None,
                    }
                },
                None => Some(cur),
            };
            match candidate {
                None => {
                    proof {
                        assert forall|p: int|
                            spec_pattern_match_at(
                                buffer@,
                                buffer_addr,
                                region_start,
                                region_end,
                                pattern@,
                                page_status,
                                p,
                            ) && p < page_limit + 1 implies spec_addr_emitted(
                            results@,
                            n0,
                            buffer_addr + p,
                        ) by {
                            if p >= cur {
                                assert(!spec_pattern_matches(pattern@, buffer@.skip(p)));
                                assert(false);
                            }
                        }
                    }
                    cur = page_limit + 1;
                },
                Some(cand) => {
                    let tail: &[u8] = vstd::slice::slice_subrange(buffer, cand, buffer_len);
                    let ok: bool = pattern_matches_at(pattern, tail);
                    proof {
                        assert(tail@ =~= buffer@.skip(cand as int));
                    }
                    if ok {
                        let addr: u64 = buffer_addr + cand as u64;
                        let ghost r0 = results@;
                        results.push(addr);
                        proof {
                            assert(0 <= n0 <= r0.len());
                            assert(forall|i: int| 0 <= i < n0 ==> results@[i] == r0[i]);
                            assert(results@.subrange(0, n0) =~= old(results)@);
                            assert(cand / 4096 == page) by {
                                assert(page * 4096 <= cand < (page + 1) * 4096);
                                lemma_fundamental_div_mod(cand as int, 4096);
                            }
                            assert(spec_pattern_match_at(
                                buffer@,
                                buffer_addr,
                                region_start,
                                region_end,
                                pattern@,
                                page_status,
                                cand as int,
                            ));
                            assert(results@[results@.len() - 1] == buffer_addr + cand);
                            assert(forall|i: int| 0 <= i < r0.len() ==> results@[i] == r0[i]);
                            assert(spec_found_addr(
                                buffer@,
                                buffer_addr,
                                region_start,
                                region_end,
                                pattern@,
                                page_status,
                                addr,
                            ));
                            assert forall|p: int|
                                spec_pattern_match_at(
                                    buffer@,
                                    buffer_addr,
                                    region_start,
                                    region_end,
                                    pattern@,
                                    page_status,
                                    p,
                                ) && p < cand + 1 implies spec_addr_emitted(
                                results@,
                                n0,
                                buffer_addr + p,
                            ) by {
                                if p < cur {
                                    lemma_addr_emitted_push(r0, addr, n0, buffer_addr + p);
                                } else if p < cand {
                                    assert(!spec_pattern_matches(pattern@, buffer@.skip(p)));
                                    assert(false);
                                } else {
                                    assert(results@[results@.len() - 1] == buffer_addr + p);
                                }
                            }
                        }
                        cur = cand + 1;
                    } else {
                        proof {
                            assert forall|p: int|
                                spec_pattern_match_at(
                                    buffer@,
                                    buffer_addr,
                                    region_start,
                                    region_end,
                                    pattern@,
                                    page_status,
                                    p,
                                ) && p < cand + 1 implies spec_addr_emitted(
                                results@,
                                n0,
                                buffer_addr + p,
                            ) by {
                                if p >= cur {
                                    if p < cand {
                                        assert(!spec_pattern_matches(
                                            pattern@,
                                            buffer@.skip(p),
                                        ));
                                    } else {
                                        assert(!spec_pattern_matches(
                                            pattern@,
                                            buffer@.skip(cand as int),
                                        ));
                                    }
                                    assert(false);
                                }
                            }
                        }
                        cur = cand + 1;
                    }
                },
            }
        }
    }
    proof {
        assert forall|p: int|
            spec_pattern_match_at(
                buffer@,
                buffer_addr,
                region_start,
                region_end,
                pattern@,
                page_status,
                p,
            ) implies spec_addr_emitted(results@, n0, buffer_addr + p) by {
            assert(p <= limit && p < cur);
        }
        assert(results@.subrange(0, n0) =~= old(results)@);
    }
}

} // verus!
