//! Reverse breadth-first chain building: the second phase of the pointer
//! scan.
//!
//! Level 0 holds the target; level `L` holds every collected pointer whose
//! value lands within the offset window below some level `L-1` address.
//! Nodes carry the index range of their children in the level below, an
//! implicit tree; a prefix-sum table then counts leaf chains in constant
//! time per node.

use vstd::prelude::*;
use crate::ptypes::{PointerData, PointerDir, PointerRange, ChainInfo, PointerChain,
    PointerChainStep, VmStaticData};
use crate::mapqueue::MapQueue;

verus! {

/// Whether the nodes are sorted by address.
pub open spec fn spec_dirs_sorted(dirs: Seq<PointerDir>) -> bool {
    forall|k1: int, k2: int|
        0 <= k1 < k2 < dirs.len() ==> (#[trigger] dirs[k1]).address <= (#[trigger] dirs[k2]).address
}

/// Whether some node of the previous level can be reached from a pointer
/// holding `value`: its address lies in `[value, value + offset]`.
pub open spec fn spec_linked(prev: Seq<PointerDir>, value: u64, offset: u64) -> bool {
    exists|k: int|
        0 <= k < prev.len() && (#[trigger] prev[k]).address >= value && prev[k].address - value
            <= offset
}

/// The collected pointers that link into the previous level, in input
/// order.
pub open spec fn spec_linked_filter(
    global: Seq<PointerData>,
    prev: Seq<PointerDir>,
    offset: u64,
) -> Seq<PointerData>
    decreases global.len(),
{
    if global.len() == 0 {
        Seq::empty()
    } else {
        let rest = spec_linked_filter(global.drop_last(), prev, offset);
        if spec_linked(prev, global.last().value, offset) {
            rest.push(global.last())
        } else {
            rest
        }
    }
}

/// The first index of `prev` whose address is at least `value`.
fn lower_bound_dir(prev: &[PointerDir], value: u64) -> (r: usize)
    requires
        spec_dirs_sorted(prev@),
    ensures
        r <= prev@.len(),
        forall|k: int| 0 <= k < r ==> (#[trigger] prev@[k]).address < value,
        forall|k: int| r <= k < prev@.len() ==> (#[trigger] prev@[k]).address >= value,
{
    let mut lo: usize = 0;
    let mut hi: usize = prev.len();
    while lo < hi
        invariant
            lo <= hi <= prev@.len(),
            spec_dirs_sorted(prev@),
            forall|k: int| 0 <= k < lo ==> (#[trigger] prev@[k]).address < value,
            forall|k: int| hi <= k < prev@.len() ==> (#[trigger] prev@[k]).address >= value,
        decreases hi - lo,
    {
        let mid: usize = lo + (hi - lo) / 2;
        if vstd::slice::slice_index_get(prev, mid).address < value {
            proof {
                assert forall|k: int| 0 <= k < mid + 1 implies (#[trigger] prev@[k]).address
                    < value by {
                    if k < mid {
                        assert(prev@[k].address <= prev@[mid as int].address);
                    }
                }
            }
            lo = mid + 1;
        } else {
            proof {
                assert forall|k: int| mid <= k < prev@.len() implies (#[trigger] prev@[k]).address
                    >= value by {
                    if k > mid {
                        assert(prev@[mid as int].address <= prev@[k].address);
                    }
                }
            }
            hi = mid;
        }
    }
    lo
}

/// The first index of `prev` whose address exceeds `bound`.
fn upper_bound_dir(prev: &[PointerDir], bound: u64) -> (r: usize)
    requires
        spec_dirs_sorted(prev@),
    ensures
        r <= prev@.len(),
        forall|k: int| 0 <= k < r ==> (#[trigger] prev@[k]).address <= bound,
        forall|k: int| r <= k < prev@.len() ==> (#[trigger] prev@[k]).address > bound,
{
    let mut lo: usize = 0;
    let mut hi: usize = prev.len();
    while lo < hi
        invariant
            lo <= hi <= prev@.len(),
            spec_dirs_sorted(prev@),
            forall|k: int| 0 <= k < lo ==> (#[trigger] prev@[k]).address <= bound,
            forall|k: int| hi <= k < prev@.len() ==> (#[trigger] prev@[k]).address > bound,
        decreases hi - lo,
    {
        let mid: usize = lo + (hi - lo) / 2;
        if vstd::slice::slice_index_get(prev, mid).address <= bound {
            proof {
                assert forall|k: int| 0 <= k < mid + 1 implies (#[trigger] prev@[k]).address
                    <= bound by {
                    if k < mid {
                        assert(prev@[k].address <= prev@[mid as int].address);
                    }
                }
            }
            lo = mid + 1;
        } else {
            proof {
                assert forall|k: int| mid <= k < prev@.len() implies (#[trigger] prev@[k]).address
                    > bound by {
                    if k > mid {
                        assert(prev@[mid as int].address <= prev@[k].address);
                    }
                }
            }
            hi = mid;
        }
    }
    lo
}

/// Finds every collected pointer that can reach some node of the previous
/// level with at most `offset` bytes of slack, in input order.
pub fn search_pointer(global: &[PointerData], prev_dirs: &MapQueue<PointerDir>, offset: u64) -> (r:
    Vec<PointerData>)
    requires
        spec_dirs_sorted(prev_dirs.view()),
    ensures
        r@ == spec_linked_filter(global@, prev_dirs.view(), offset),
{
    let prev: &[PointerDir] = prev_dirs.as_slice();
    let mut r: Vec<PointerData> = Vec::new();
    let n: usize = global.len();
    let mut i: usize = 0;
    proof {
        assert(global@.take(0) =~= Seq::<PointerData>::empty());
    }
    while i < n
        invariant
            i <= n,
            n == global@.len(),
            prev@ == prev_dirs.view(),
            spec_dirs_sorted(prev@),
            r@ == spec_linked_filter(global@.take(i as int), prev@, offset),
        decreases n - i,
    {
        let p: PointerData = *vstd::slice::slice_index_get(global, i);
        let lower: usize = lower_bound_dir(prev, p.value);
        let hit: bool = if lower < prev.len() {
            let d: &PointerDir = vstd::slice::slice_index_get(prev, lower);
            d.address >= p.value && d.address - p.value <= offset
        } else {
            false
        };
        proof {
            assert(global@.take(i + 1).drop_last() =~= global@.take(i as int));
            assert(global@.take(i + 1).last() == global@[i as int]);
            if hit {
                assert(spec_linked(prev@, p.value, offset));
            } else {
                if spec_linked(prev@, p.value, offset) {
                    let k = choose|k: int|
                        0 <= k < prev@.len() && (#[trigger] prev@[k]).address >= p.value
                            && prev@[k].address - p.value <= offset;
                    assert(k >= lower);
                    assert(prev@[lower as int].address <= prev@[k].address);
                    assert(false);
                }
            }
        }
        if hit {
            r.push(p);
        }
        i += 1;
    }
    proof {
        assert(global@.take(n as int) =~= global@);
    }
    r
}

/// Sorts collected pointers by address with an insertion pass; the result
/// is ordered and holds the same pointers.
pub fn sort_pointers_by_address(input: &Vec<PointerData>) -> (r: Vec<PointerData>)
    ensures
        r@.len() == input@.len(),
        forall|k1: int, k2: int|
            0 <= k1 < k2 < r@.len() ==> (#[trigger] r@[k1]).address <= (#[trigger] r@[k2]).address,
        forall|k: int| 0 <= k < r@.len() ==> input@.contains(#[trigger] r@[k]),
        forall|j: int| 0 <= j < input@.len() ==> r@.contains(#[trigger] input@[j]),
{
    let n: usize = input.len();
    let mut out: Vec<PointerData> = Vec::new();
    let mut i: usize = 0;
    while i < n
        invariant
            i <= n,
            n == input@.len(),
            out@.len() == i,
            forall|k1: int, k2: int|
                0 <= k1 < k2 < out@.len() ==> (#[trigger] out@[k1]).address <= (
                #[trigger] out@[k2]).address,
            forall|k: int| 0 <= k < out@.len() ==> input@.contains(#[trigger] out@[k]),
            forall|j: int| 0 <= j < i ==> out@.contains(#[trigger] input@[j]),
        decreases n - i,
    {
        let x: PointerData = input[i];
        let m: usize = out.len();
        let mut pos: usize = 0;
        while pos < m && out[pos].address <= x.address
            invariant
                pos <= m,
                m == out@.len(),
                forall|j: int| 0 <= j < pos ==> (#[trigger] out@[j]).address <= x.address,
            decreases m - pos,
        {
            pos += 1;
        }
        let ghost o0 = out@;
        out.insert(pos, x);
        proof {
            assert(pos < o0.len() ==> x.address < o0[pos as int].address);
            assert forall|k1: int, k2: int|
                0 <= k1 < k2 < out@.len() implies (#[trigger] out@[k1]).address <= (
            #[trigger] out@[k2]).address by {
                if k2 < pos {
                } else if k1 < pos && k2 == pos {
                    assert(out@[k1] == o0[k1] && out@[k2] == x);
                } else if k1 < pos {
                    assert(out@[k1] == o0[k1] && out@[k2] == o0[k2 - 1]);
                } else if k1 == pos {
                    assert(out@[k1] == x && out@[k2] == o0[k2 - 1]);
                } else {
                    assert(out@[k1] == o0[k1 - 1] && out@[k2] == o0[k2 - 1]);
                }
            }
            assert forall|k: int|
                0 <= k < out@.len() implies input@.contains(#[trigger] out@[k]) by {
                if k < pos {
                    assert(out@[k] == o0[k]);
                } else if k == pos {
                    assert(out@[k] == input@[i as int]);
                } else {
                    assert(out@[k] == o0[k - 1]);
                }
            }
            assert forall|j: int|
                0 <= j < i + 1 implies out@.contains(#[trigger] input@[j]) by {
                if j < i {
                    let k = choose|k: int| 0 <= k < o0.len() && o0[k] == input@[j];
                    if k < pos {
                        assert(out@[k] == input@[j]);
                    } else {
                        assert(out@[k + 1] == input@[j]);
                    }
                } else {
                    assert(out@[pos as int] == input@[j]);
                }
            }
        }
        i += 1;
    }
    out
}

/// Binds every node of `curr` to its children: `start` and `end` become
/// the bounds of the previous-level index range whose addresses lie in
/// `[value, value + offset]` (saturated).
pub fn create_assoc_dir_index(prev: &MapQueue<PointerDir>, curr: &mut MapQueue<PointerDir>, offset: u64)
    requires
        old(curr).wf(),
        spec_dirs_sorted(prev.view()),
        prev.view().len() <= 0xFFFF_FFFF,
    ensures
        final(curr).wf(),
        final(curr).view().len() == old(curr).view().len(),
        forall|i: int|
            0 <= i < final(curr).view().len() ==> {
                let d = #[trigger] final(curr).view()[i];
                let d0 = old(curr).view()[i];
                &&& d.address == d0.address
                &&& d.value == d0.value
                &&& forall|k: int|
                    0 <= k < d.start ==> (#[trigger] prev.view()[k]).address < d.value
                &&& forall|k: int|
                    d.start <= k < prev.view().len() ==> (#[trigger] prev.view()[k]).address
                        >= d.value
                &&& forall|k: int|
                    0 <= k < d.end ==> (#[trigger] prev.view()[k]).address
                        <= spec_sat_add(d.value, offset)
                &&& forall|k: int|
                    d.end <= k < prev.view().len() ==> (#[trigger] prev.view()[k]).address
                        > spec_sat_add(d.value, offset)
                &&& d.start <= prev.view().len()
                &&& d.end <= prev.view().len()
            },
{
    let n: usize = curr.len();
    let mut i: usize = 0;
    while i < n
        invariant
            i <= n,
            curr.wf(),
            n == curr.view().len(),
            curr.view().len() == old(curr).view().len(),
            spec_dirs_sorted(prev.view()),
            prev.view().len() <= 0xFFFF_FFFF,
            forall|j: int| i <= j < n ==> curr.view()[j] == old(curr).view()[j],
            forall|j: int|
                0 <= j < i ==> {
                    let d = #[trigger] curr.view()[j];
                    let d0 = old(curr).view()[j];
                    &&& d.address == d0.address
                    &&& d.value == d0.value
                    &&& forall|k: int|
                        0 <= k < d.start ==> (#[trigger] prev.view()[k]).address < d.value
                    &&& forall|k: int|
                        d.start <= k < prev.view().len() ==> (#[trigger] prev.view()[k]).address
                            >= d.value
                    &&& forall|k: int|
                        0 <= k < d.end ==> (#[trigger] prev.view()[k]).address <= spec_sat_add(
                            d.value,
                            offset,
                        )
                    &&& forall|k: int|
                        d.end <= k < prev.view().len() ==> (#[trigger] prev.view()[k]).address
                            > spec_sat_add(d.value, offset)
                    &&& d.start <= prev.view().len()
                    &&& d.end <= prev.view().len()
                },
        decreases n - i,
    {
        let d: PointerDir = match curr.get(i) {
            Some(v) => *v,
            None => PointerDir::new(0, 0),
        };
        let value: u64 = d.value;
        let bound: u64 = if offset <= u64::MAX - value {
            value + offset
        } else {
            u64::MAX
        };
        proof {
            assert(bound == spec_sat_add(value, offset));
        }
        let start: usize = lower_bound_dir(prev.as_slice(), value);
        let end: usize = upper_bound_dir(prev.as_slice(), bound);
        curr.set(
            i,
            PointerDir { address: d.address, value: d.value, start: start as u32, end: end as u32 },
        );
        i += 1;
    }
}

/// Addition on addresses that sticks at the top of the address space.
pub open spec fn spec_sat_add(a: u64, b: u64) -> u64 {
    if a + b > u64::MAX {
        u64::MAX as u64
    } else {
        (a + b) as u64
    }
}

/// Number of distinct leaf chains below node `d` when `level` more hops
/// remain: one at the leaf level, otherwise the sum over its children.
pub open spec fn spec_chain_count(contents: Seq<Seq<PointerDir>>, level: int, d: PointerDir) -> nat
    decreases level, 0int,
{
    if level <= 0 {
        1
    } else {
        spec_count_range(contents, level - 1, d.start as int, d.end as int)
    }
}

/// Sum of leaf-chain counts of the nodes `contents[level][lo..hi]`.
pub open spec fn spec_count_range(contents: Seq<Seq<PointerDir>>, level: int, lo: int, hi: int) -> nat
    decreases level, hi - lo, 1int,
{
    if lo >= hi {
        0
    } else if level < 0 || level >= contents.len() || hi > contents[level].len() || lo < 0 {
        0
    } else {
        spec_count_range(contents, level, lo, hi - 1) + spec_chain_count(
            contents,
            level,
            contents[level][hi - 1],
        )
    }
}

/// The prefix-sum table is faithful at one level: entry `i` counts the
/// leaf chains of the first `i` nodes.
pub open spec fn spec_counts_level_wf(
    counts: Seq<usize>,
    contents: Seq<Seq<PointerDir>>,
    level: int,
) -> bool {
    &&& 0 <= level < contents.len()
    &&& counts.len() == contents[level].len() + 1
    &&& forall|i: int|
        0 <= i <= contents[level].len() ==> #[trigger] counts[i] == spec_count_range(
            contents,
            level,
            0,
            i,
        )
}

/// Chain counting: over a faithful prefix-sum level, the difference
/// `counts[node.end] - counts[node.start]` is exactly the number of
/// distinct leaf chains below the node.
pub proof fn lemma_chain_counting(
    counts: Seq<usize>,
    contents: Seq<Seq<PointerDir>>,
    level: int,
    d: PointerDir,
)
    requires
        spec_counts_level_wf(counts, contents, level),
        d.start <= d.end,
        d.end <= contents[level].len(),
    ensures
        counts[d.end as int] - counts[d.start as int] == spec_chain_count(contents, level + 1, d),
    decreases d.end - d.start,
{
    lemma_count_range_split(contents, level, d.start as int, d.end as int);
}

/// Counting a range splits at its base: the prefix to `hi` minus the
/// prefix to `lo` is the range's own sum.
proof fn lemma_count_range_split(contents: Seq<Seq<PointerDir>>, level: int, lo: int, hi: int)
    requires
        0 <= level < contents.len(),
        0 <= lo <= hi <= contents[level].len(),
    ensures
        spec_count_range(contents, level, 0, hi) == spec_count_range(contents, level, 0, lo)
            + spec_count_range(contents, level, lo, hi),
    decreases hi - lo,
{
    if lo < hi {
        lemma_count_range_split(contents, level, lo, hi - 1);
    }
}

/// The per-level node arrays a collection of queues holds.
pub open spec fn spec_levels_model(dirs: Seq<MapQueue<PointerDir>>) -> Seq<Seq<PointerDir>> {
    Seq::new(dirs.len(), |ll: int| dirs[ll].view())
}

/// Prefix sums are monotone: counting a longer front never counts less.
proof fn lemma_count_range_monotone(contents: Seq<Seq<PointerDir>>, level: int, a: int, b: int)
    requires
        0 <= level < contents.len(),
        0 <= a <= b <= contents[level].len(),
    ensures
        spec_count_range(contents, level, 0, a) <= spec_count_range(contents, level, 0, b),
{
    lemma_count_range_split(contents, level, a, b);
}

/// Builds the prefix-sum table over the collected levels.  `contents`
/// mirrors the walk's levels; `counts[0]` is the leaf base `[0, 1]`, and
/// each later level accumulates its nodes' chain counts, so that the
/// chain-counting law holds of every level of the result.
///
/// Exactness asks that the injected target nodes carry the base child
/// range and that no level's chain total reaches the machine maximum (the
/// accumulator would otherwise stick at the top).
pub fn build_pointer_dirs_tree(dirs: &Vec<MapQueue<PointerDir>>) -> (r: ChainInfo)
    requires
        forall|l: int|
            0 <= l < dirs@.len() ==> (#[trigger] dirs@[l]).view().len() <= 0x1FFF_FFFF,
        forall|l: int| 0 <= l < dirs@.len() ==> (#[trigger] dirs@[l]).wf(),
        dirs@.len() > 0 ==> forall|k: int|
            0 <= k < dirs@[0].view().len() ==> (#[trigger] dirs@[0].view()[k]).start == 0
                && dirs@[0].view()[k].end == 1,
        forall|l: int|
            1 <= l < dirs@.len() ==> #[trigger] spec_count_range(
                spec_levels_model(dirs@),
                l - 1,
                0,
                dirs@[l - 1].view().len() as int,
            ) < 0x8000_0000,
    ensures
        r.contents@.len() == dirs@.len(),
        forall|l: int|
            0 <= l < dirs@.len() ==> (#[trigger] r.contents@[l]).view() == dirs@[l].view(),
        r.counts@.len() == dirs@.len(),
        dirs@.len() > 0 ==> r.counts@[0].view() =~= seq![0usize, 1usize],
        forall|l: int|
            1 <= l < dirs@.len() ==> spec_counts_level_wf(
                (#[trigger] r.counts@[l]).view(),
                spec_levels_model(dirs@),
                l - 1,
            ),
{
    let ghost model = spec_levels_model(dirs@);
    let nlev: usize = dirs.len();
    let mut contents: Vec<MapQueue<PointerDir>> = Vec::new();
    let mut l: usize = 0;
    while l < nlev
        invariant
            l <= nlev,
            nlev == dirs@.len(),
            contents@.len() == l,
            forall|k: int|
                0 <= k < dirs@.len() ==> (#[trigger] dirs@[k]).view().len() <= 0x1FFF_FFFF,
            forall|k: int| 0 <= k < l ==> (#[trigger] contents@[k]).view() == dirs@[k].view(),
        decreases nlev - l,
    {
        let mut q: MapQueue<PointerDir> = MapQueue::new();
        let src: &MapQueue<PointerDir> = &dirs[l];
        let r1: Result<(), ()> = q.extend_from_slice(src.as_slice());
        proof {
            assert(q.view() =~= dirs@[l as int].view());
        }
        contents.push(q);
        l += 1;
    }
    let mut counts: Vec<MapQueue<usize>> = Vec::new();
    if nlev > 0 {
        let mut base: MapQueue<usize> = MapQueue::new();
        let r2: Result<(), ()> = base.push(0);
        let r3: Result<(), ()> = base.push(1);
        proof {
            assert(base.view() =~= seq![0usize, 1usize]);
        }
        counts.push(base);
        let mut lev: usize = 1;
        while lev < nlev
            invariant
                1 <= lev <= nlev,
                nlev == dirs@.len(),
                model == spec_levels_model(dirs@),
                contents@.len() == nlev,
                counts@.len() == lev,
                forall|k: int|
                    0 <= k < dirs@.len() ==> (#[trigger] dirs@[k]).view().len() <= 0x1FFF_FFFF,
                forall|k: int|
                    0 <= k < nlev ==> (#[trigger] contents@[k]).view() == dirs@[k].view(),
                counts@[0].view() =~= seq![0usize, 1usize],
                forall|k: int|
                    0 <= k < dirs@[0].view().len() ==> (#[trigger] dirs@[0].view()[k]).start == 0
                        && dirs@[0].view()[k].end == 1,
                forall|ll: int|
                    1 <= ll < dirs@.len() ==> #[trigger] spec_count_range(
                        model,
                        ll - 1,
                        0,
                        dirs@[ll - 1].view().len() as int,
                    ) < 0x8000_0000,
                model == spec_levels_model(dirs@),
                forall|ll: int|
                    1 <= ll < lev ==> spec_counts_level_wf(
                        (#[trigger] counts@[ll]).view(),
                        model,
                        ll - 1,
                    ),
            decreases nlev - lev,
        {
            let prev_count: &MapQueue<usize> = &counts[lev - 1];
            let node_src: &MapQueue<PointerDir> = &contents[lev - 1];
            let m: usize = node_src.len();
            proof {
                assert(node_src.view() == dirs@[lev - 1].view());
                assert(model[lev - 1] == dirs@[lev - 1].view());
                if lev >= 2 {
                    assert(spec_counts_level_wf(prev_count.view(), model, lev - 2));
                }
            }
            let mut level_counts: MapQueue<usize> = MapQueue::new();
            let mut cumulative: usize = 0;
            let r4: Result<(), ()> = level_counts.push(0);
            let mut i: usize = 0;
            while i < m
                invariant
                    i <= m,
                    1 <= lev < nlev,
                    nlev == dirs@.len(),
                    model == spec_levels_model(dirs@),
                    m == node_src.view().len(),
                    m <= 0x1FFF_FFFF,
                    node_src.view() == model[lev - 1],
                    prev_count.view() == counts@[lev - 1].view(),
                    counts@.len() == lev,
                    counts@[0].view() =~= seq![0usize, 1usize],
                    lev >= 2 ==> spec_counts_level_wf(prev_count.view(), model, lev - 2),
                    lev == 1 ==> forall|k: int|
                        0 <= k < model[0].len() ==> (#[trigger] model[0][k]).start == 0
                            && model[0][k].end == 1,
                    spec_count_range(model, lev - 1, 0, m as int) < 0x8000_0000,
                    level_counts.wf(),
                    level_counts.view().len() == i + 1,
                    cumulative == spec_count_range(model, lev - 1, 0, i as int),
                    forall|i2: int|
                        0 <= i2 <= i ==> #[trigger] level_counts.view()[i2] == spec_count_range(
                            model,
                            lev - 1,
                            0,
                            i2,
                        ),
                decreases m - i,
            {
                let d: PointerDir = match node_src.get(i) {
                    Some(v) => *v,
                    None => PointerDir::new(0, 0),
                };
                let lo: usize = d.start as usize;
                let hi: usize = d.end as usize;
                let pc_len: usize = prev_count.len();
                let diff: usize = if lo < pc_len && hi < pc_len && lo <= hi {
                    let a: usize = match prev_count.get(lo) {
                        Some(v) => *v,
                        None => 0,
                    };
                    let b: usize = match prev_count.get(hi) {
                        Some(v) => *v,
                        None => 0,
                    };
                    if b >= a {
                        b - a
                    } else {
                        0
                    }
                } else {
                    0
                };
                proof {
                    assert(d == model[lev - 1][i as int]);
                    if lev == 1 {
                        assert(lo == 0 && hi == 1);
                        assert(prev_count.view()[0] == 0 && prev_count.view()[1] == 1);
                        assert(diff == 1);
                        assert(spec_chain_count(model, 0, d) == 1);
                    } else {
                        let plen = model[lev - 2].len() as int;
                        assert(prev_count.view().len() == plen + 1);
                        if lo < pc_len && hi < pc_len && lo <= hi {
                            assert(prev_count.view()[lo as int] == spec_count_range(
                                model,
                                lev - 2,
                                0,
                                lo as int,
                            ));
                            assert(prev_count.view()[hi as int] == spec_count_range(
                                model,
                                lev - 2,
                                0,
                                hi as int,
                            ));
                            lemma_count_range_split(model, lev - 2, lo as int, hi as int);
                            lemma_count_range_monotone(model, lev - 2, lo as int, hi as int);
                            assert(diff == spec_count_range(model, lev - 2, lo as int, hi as int));
                            assert(spec_chain_count(model, lev - 1, d) == spec_count_range(
                                model,
                                lev - 2,
                                d.start as int,
                                d.end as int,
                            ));
                        } else {
                            assert(spec_chain_count(model, lev - 1, d) == spec_count_range(
                                model,
                                lev - 2,
                                lo as int,
                                hi as int,
                            ));
                            assert(spec_count_range(model, lev - 2, lo as int, hi as int) == 0);
                            assert(diff == 0);
                        }
                    }
                    // the running total stays below the cap, so no saturation
                    assert(spec_count_range(model, lev - 1, 0, i + 1) == spec_count_range(
                        model,
                        lev - 1,
                        0,
                        i as int,
                    ) + spec_chain_count(model, lev - 1, d));
                    lemma_count_range_monotone(model, lev - 1, i + 1, m as int);
                }
                cumulative = if diff <= usize::MAX - cumulative {
                    cumulative + diff
                } else {
                    usize::MAX
                };
                let r5: Result<(), ()> = level_counts.push(cumulative);
                i += 1;
            }
            proof {
                assert(spec_counts_level_wf(level_counts.view(), model, lev - 1));
            }
            counts.push(level_counts);
            lev += 1;
        }
    }
    ChainInfo { counts, contents }
}

/// The findings inside one module, as fresh nodes in input order.
pub open spec fn spec_module_hits(curr: Seq<PointerData>, m: VmStaticData) -> Seq<PointerDir>
    decreases curr.len(),
{
    if curr.len() == 0 {
        Seq::empty()
    } else {
        let rest = spec_module_hits(curr.drop_last(), m);
        let p = curr.last();
        if m.base_address <= p.address < m.end_address {
            rest.push(PointerDir { address: p.address, value: p.value, start: 0u32, end: 1u32 })
        } else {
            rest
        }
    }
}

/// The findings no static module contains, as fresh nodes in input order.
pub open spec fn spec_outside_modules(
    curr: Seq<PointerData>,
    modules: Seq<VmStaticData>,
) -> Seq<PointerDir>
    decreases curr.len(),
{
    if curr.len() == 0 {
        Seq::empty()
    } else {
        let rest = spec_outside_modules(curr.drop_last(), modules);
        let p = curr.last();
        if forall|k: int|
            0 <= k < modules.len() ==> !((#[trigger] modules[k]).base_address <= p.address
                < modules[k].end_address) {
            rest.push(PointerDir { address: p.address, value: p.value, start: 0u32, end: 1u32 })
        } else {
            rest
        }
    }
}

/// The indices of the modules holding at least one finding, ascending.
pub open spec fn spec_hit_modules(
    curr: Seq<PointerData>,
    modules: Seq<VmStaticData>,
) -> Seq<int>
    decreases modules.len(),
{
    if modules.len() == 0 {
        Seq::empty()
    } else {
        let rest = spec_hit_modules(curr, modules.drop_last());
        if spec_module_hits(curr, modules.last()).len() > 0 {
            rest.push(modules.len() - 1)
        } else {
            rest
        }
    }
}

/// Whether some static module contains `addr`.
fn any_module_contains(modules: &Vec<VmStaticData>, addr: u64) -> (r: bool)
    ensures
        r == exists|k: int|
            0 <= k < modules@.len() && (#[trigger] modules@[k]).base_address <= addr
                < modules@[k].end_address,
{
    let n: usize = modules.len();
    let mut i: usize = 0;
    while i < n
        invariant
            i <= n,
            n == modules@.len(),
            forall|j: int|
                0 <= j < i ==> !((#[trigger] modules@[j]).base_address <= addr
                    < modules@[j].end_address),
        decreases n - i,
    {
        if modules[i].contains(addr) {
            proof {
                assert(modules@[i as int].base_address <= addr < modules@[i as int].end_address);
            }
            return true;
        }
        i += 1;
    }
    false
}

/// Splits a level's findings by where they sit: each static module that
/// contains findings becomes one new exit band holding exactly its hits
/// in order, and the level's queue gains exactly the findings no module
/// contains, in order.
pub fn filter_pointer_ranges(
    static_modules: &Vec<VmStaticData>,
    dirs: &mut Vec<MapQueue<PointerDir>>,
    ranges: &mut Vec<PointerRange>,
    curr: Vec<PointerData>,
    level: i32,
) -> (r: Result<(), ()>)
    requires
        0 <= level < old(dirs)@.len(),
        forall|l: int| 0 <= l < old(dirs)@.len() ==> (#[trigger] old(dirs)@[l]).wf(),
        old(dirs)@[level as int].view().len() + curr@.len() <= 0x1FFF_FFFF,
        curr@.len() <= 0x1FFF_FFFF,
    ensures
        r is Ok,
        final(dirs)@.len() == old(dirs)@.len(),
        forall|l: int| 0 <= l < final(dirs)@.len() ==> (#[trigger] final(dirs)@[l]).wf(),
        forall|l: int|
            0 <= l < final(dirs)@.len() && l != level ==> (#[trigger] final(dirs)@[l]).view()
                == old(dirs)@[l].view(),
        // the level's queue gains exactly the findings outside every module
        final(dirs)@[level as int].view() =~= old(dirs)@[level as int].view()
            + spec_outside_modules(curr@, static_modules@),
        // one new band per module with findings, in module order, holding
        // exactly that module's hits
        final(ranges)@.len() == old(ranges)@.len() + spec_hit_modules(
            curr@,
            static_modules@,
        ).len(),
        forall|k: int| 0 <= k < old(ranges)@.len() ==> #[trigger] final(ranges)@[k] == old(
            ranges,
        )@[k],
        forall|t: int|
            #![trigger final(ranges)@[old(ranges)@.len() + t]]
            0 <= t < spec_hit_modules(curr@, static_modules@).len() ==> {
                let mi = spec_hit_modules(curr@, static_modules@)[t];
                let band = final(ranges)@[old(ranges)@.len() + t];
                &&& 0 <= mi < static_modules@.len()
                &&& band.level == level
                &&& band.results.wf()
                &&& band.results.view() == spec_module_hits(curr@, static_modules@[mi])
                &&& band.vma.start == static_modules@[mi].base_address
                &&& band.vma.end == static_modules@[mi].end_address
                &&& band.vma.name == static_modules@[mi].name
                &&& band.vma.count == static_modules@[mi].index as i32
            },
{
    let n: usize = curr.len();
    let mnum: usize = static_modules.len();
    let ghost r0 = ranges@;
    // per-module pass: collect each module's hits and seal its band
    let mut k: usize = 0;
    proof {
        assert(spec_hit_modules(curr@, static_modules@.take(0)) =~= Seq::<int>::empty());
    }
    while k < mnum
        invariant
            k <= mnum,
            n == curr@.len(),
            n <= 0x1FFF_FFFF,
            mnum == static_modules@.len(),
            dirs@ == old(dirs)@,
            r0 == old(ranges)@,
            ranges@.len() == r0.len() + spec_hit_modules(
                curr@,
                static_modules@.take(k as int),
            ).len(),
            forall|kk: int| 0 <= kk < r0.len() ==> #[trigger] ranges@[kk] == r0[kk],
            forall|t: int|
                #![trigger ranges@[r0.len() + t]]
                0 <= t < spec_hit_modules(curr@, static_modules@.take(k as int)).len() ==> {
                    let mi = spec_hit_modules(curr@, static_modules@.take(k as int))[t];
                    let band = ranges@[r0.len() + t];
                    &&& 0 <= mi < static_modules@.len()
                    &&& band.level == level
                    &&& band.results.wf()
                    &&& band.results.view() == spec_module_hits(curr@, static_modules@[mi])
                    &&& band.vma.start == static_modules@[mi].base_address
                    &&& band.vma.end == static_modules@[mi].end_address
                    &&& band.vma.name == static_modules@[mi].name
                    &&& band.vma.count == static_modules@[mi].index as i32
                },
        decreases mnum - k,
    {
        let module: &VmStaticData = &static_modules[k];
        let mut hits: Vec<PointerDir> = Vec::new();
        let mut i: usize = 0;
        proof {
            assert(curr@.take(0) =~= Seq::<PointerData>::empty());
        }
        while i < n
            invariant
                i <= n,
                n == curr@.len(),
                k < mnum,
                mnum == static_modules@.len(),
                module == static_modules@[k as int],
                hits@.len() <= i,
                hits@ =~= spec_module_hits(curr@.take(i as int), static_modules@[k as int]),
            decreases n - i,
        {
            let p: PointerData = curr[i];
            proof {
                assert(curr@.take(i + 1).drop_last() =~= curr@.take(i as int));
                assert(curr@.take(i + 1).last() == curr@[i as int]);
            }
            if module.contains(p.address) {
                hits.push(PointerDir::new(p.address, p.value));
            }
            i += 1;
        }
        proof {
            assert(curr@.take(n as int) =~= curr@);
            assert(static_modules@.take(k + 1).drop_last() =~= static_modules@.take(k as int));
            assert(static_modules@.take(k + 1).last() == static_modules@[k as int]);
        }
        let ghost hit_list = spec_hit_modules(curr@, static_modules@.take(k as int));
        if hits.len() > 0 {
            let mut results: MapQueue<PointerDir> = MapQueue::new();
            let r2: Result<(), ()> = results.extend_from_slice(hits.as_slice());
            proof {
                assert(results.view() =~= hits@);
            }
            let vma = crate::ptypes::VmAreaData::from_static(&static_modules[k]);
            let ghost rpre = ranges@;
            ranges.push(PointerRange { level, vma, results });
            proof {
                assert(spec_hit_modules(curr@, static_modules@.take(k + 1)) =~= hit_list.push(
                    k as int,
                ));
                assert(ranges@[ranges@.len() - 1].results.view() =~= spec_module_hits(
                    curr@,
                    static_modules@[k as int],
                ));
                assert(forall|kk: int| 0 <= kk < rpre.len() ==> ranges@[kk] == rpre[kk]);
            }
        } else {
            proof {
                assert(spec_hit_modules(curr@, static_modules@.take(k + 1)) =~= hit_list);
            }
        }
        k += 1;
    }
    proof {
        assert(static_modules@.take(mnum as int) =~= static_modules@);
    }
    // the rest joins the level's dynamic nodes, in order
    let mut i: usize = 0;
    proof {
        assert(curr@.take(0) =~= Seq::<PointerData>::empty());
        assert(old(dirs)@[level as int].view() + spec_outside_modules(
            curr@.take(0),
            static_modules@,
        ) =~= old(dirs)@[level as int].view());
    }
    while i < n
        invariant
            i <= n,
            n == curr@.len(),
            mnum == static_modules@.len(),
            dirs@.len() == old(dirs)@.len(),
            0 <= level < dirs@.len(),
            forall|l: int| 0 <= l < dirs@.len() ==> (#[trigger] dirs@[l]).wf(),
            forall|l: int|
                0 <= l < dirs@.len() && l != level ==> (#[trigger] dirs@[l]).view() == old(
                    dirs,
                )@[l].view(),
            old(dirs)@[level as int].view().len() + n <= 0x1FFF_FFFF,
            dirs@[level as int].view().len() <= old(dirs)@[level as int].view().len() + i,
            dirs@[level as int].view() =~= old(dirs)@[level as int].view()
                + spec_outside_modules(curr@.take(i as int), static_modules@),
        decreases n - i,
    {
        let p: PointerData = curr[i];
        proof {
            assert(curr@.take(i + 1).drop_last() =~= curr@.take(i as int));
            assert(curr@.take(i + 1).last() == curr@[i as int]);
        }
        if !any_module_contains(static_modules, p.address) {
            let q: &mut MapQueue<PointerDir> = &mut dirs[level as usize];
            let r1: Result<(), ()> = q.push(PointerDir::new(p.address, p.value));
        }
        i += 1;
    }
    proof {
        assert(curr@.take(n as int) =~= curr@);
    }
    Ok(())
}

/// Whether the memory image read at scan time still holds each path
/// node's recorded value at its address.
pub open spec fn spec_image_agrees(image: Map<u64, u64>, path: Seq<PointerDir>) -> bool {
    forall|i: int|
        0 <= i < path.len() - 1 ==> image.contains_key((#[trigger] path[i]).address)
            && image[path[i].address] == path[i].value
}

/// The address a re-walk reaches: starting at `start`, each hop
/// dereferences the current address in the image and adds the next
/// recorded offset.  A dereference outside the image yields a negative
/// sentinel, which no address equals.
pub open spec fn spec_rewalk(image: Map<u64, u64>, start: u64, offsets: Seq<int>) -> int
    decreases offsets.len(),
{
    if offsets.len() == 0 {
        start as int
    } else if image.contains_key(start) && 0 <= image[start] + offsets[0] <= u64::MAX {
        spec_rewalk(image, (image[start] + offsets[0]) as u64, offsets.drop_first())
    } else {
        -1
    }
}

/// Chain integrity: an emitted chain, re-walked against the memory image
/// of the instant the scan completed, dereferences to the walk's target.
///
/// The chain's offsets are each hop's address minus its parent's recorded
/// value; as long as the image still holds those recorded values, the
/// re-walk from the root's address visits exactly the path's addresses
/// and ends at the leaf: the target.
pub proof fn lemma_chain_integrity(
    image: Map<u64, u64>,
    path: Seq<PointerDir>,
    offsets: Seq<int>,
    target: u64,
)
    requires
        path.len() >= 1,
        offsets.len() == path.len() - 1,
        spec_image_agrees(image, path),
        forall|i: int|
            0 <= i < offsets.len() ==> offsets[i] == (#[trigger] path[i + 1]).address
                - path[i].value,
        path.last().address == target,
    ensures
        spec_rewalk(image, path[0].address, offsets) == target,
    decreases path.len(),
{
    if offsets.len() == 0 {
        assert(path[0] == path.last());
    } else {
        let start = path[0].address;
        assert(image.contains_key(start) && image[start] == path[0].value);
        assert(offsets[0] == (path[0int + 1]).address - path[0].value);
        assert(image[start] + offsets[0] == path[1].address);
        let rest_path = path.drop_first();
        let rest_offsets = offsets.drop_first();
        assert(rest_path.last() == path.last());
        assert forall|i: int|
            0 <= i < rest_offsets.len() implies rest_offsets[i] == (#[trigger] rest_path[i
            + 1]).address - rest_path[i].value by {
            assert(rest_offsets[i] == offsets[i + 1]);
            assert(rest_path[i + 1] == path[i + 2]);
            assert(rest_path[i] == path[i + 1]);
        }
        assert forall|i: int|
            0 <= i < rest_path.len() - 1 implies image.contains_key(
            (#[trigger] rest_path[i]).address,
        ) && image[rest_path[i].address] == rest_path[i].value by {
            assert(rest_path[i] == path[i + 1]);
        }
        lemma_chain_integrity(image, rest_path, rest_offsets, target);
        assert(rest_path[0] == path[1]);
    }
}

/// Wrapping difference of two addresses, as the original's chain offsets
/// compute it.
pub open spec fn spec_wrap_sub(a: u64, b: u64) -> u64 {
    if a >= b {
        (a - b) as u64
    } else {
        (a - b + 0x1_0000_0000_0000_0000) as u64
    }
}

/// The signed reading of a wrapped difference: two's complement.
pub open spec fn spec_signed_of(u: u64) -> i64 {
    if u < 0x8000_0000_0000_0000 {
        u as i64
    } else {
        (u - 0x1_0000_0000_0000_0000) as i64
    }
}

/// The signed offset a chain records between a parent's value and a
/// child's address.
fn wrapped_offset(a: u64, b: u64) -> (r: i64)
    ensures
        r == spec_signed_of(spec_wrap_sub(a, b)),
{
    let diff: u64 = if a >= b {
        a - b
    } else {
        let borrow: u64 = b - a;
        ((0xFFFF_FFFF_FFFF_FFFFu64 - borrow) + 1) as u64
    };
    if diff < 0x8000_0000_0000_0000 {
        diff as i64
    } else {
        ((diff - 0x8000_0000_0000_0000) as i64) + (-0x8000_0000_0000_0000i64)
    }
}

/// Whether every node's child range points into the level below it.
pub open spec fn spec_tree_ranges_wf(contents: Seq<Seq<PointerDir>>) -> bool {
    forall|l: int, idx: int|
        1 <= l < contents.len() && 0 <= idx < contents[l].len() ==> {
            let d = #[trigger] contents[l][idx];
            &&& d.start <= d.end
            &&& d.end <= contents[l - 1].len()
        }
}

/// Total leaf chains below a band's nodes.
pub open spec fn spec_band_count(
    contents: Seq<Seq<PointerDir>>,
    level: int,
    dirs: Seq<PointerDir>,
) -> nat
    decreases dirs.len(),
{
    if dirs.len() == 0 {
        0
    } else {
        spec_band_count(contents, level, dirs.drop_last()) + spec_chain_count(
            contents,
            level,
            dirs.last(),
        )
    }
}

/// Collects up to `max_chains` chains rooted in one static band,
/// depth-first through the implicit tree.  Every produced chain aims at
/// the walk's target, opens with the band's static root step, follows
/// with one dynamic offset per hop down to the leaf level, and each
/// offset is the child address minus its parent's stored value.
/// Whether `steps` walks a parent-child path of the level model from
/// node `d` at `level` down to a leaf, each step carrying the child's
/// address minus its parent's stored value (wrapping, read as signed).
pub open spec fn spec_steps_of_path(
    model: Seq<Seq<PointerDir>>,
    level: int,
    d: PointerDir,
    steps: Seq<PointerChainStep>,
) -> bool
    decreases level,
{
    if level <= 0 {
        steps.len() == 0
    } else {
        exists|k: int|
            #![trigger model[level - 1][k]]
            d.start <= k < d.end && steps.len() >= 1 && {
                let child = model[level - 1][k];
                &&& steps[0].offset == spec_signed_of(spec_wrap_sub(child.address, d.value))
                &&& spec_steps_of_path(model, level - 1, child, steps.drop_first())
            }
    }
}

pub fn collect_chains_for_range(
    info: &ChainInfo,
    range: &PointerRange,
    target_address: u64,
    max_chains: usize,
    out: &mut Vec<PointerChain>,
)
    requires
        range.vma.start <= range.vma.end,
        spec_tree_ranges_wf(spec_levels_model(info.contents@)),
        range.level >= 0,
        range.level <= info.contents@.len(),
        range.level >= 1 ==> forall|idx: int|
            0 <= idx < range.results.view().len() ==> {
                let d = #[trigger] range.results.view()[idx];
                &&& d.start <= d.end
                &&& d.end <= info.contents@[range.level - 1].view().len()
            },
        forall|idx: int|
            0 <= idx < range.results.view().len() ==> range.vma.start <= (
            #[trigger] range.results.view()[idx]).address && range.results.view()[idx].address
                - range.vma.start <= 0x7FFF_FFFF_FFFF_FFFF,
    ensures
        final(out)@.len() >= old(out)@.len(),
        final(out)@.subrange(0, old(out)@.len() as int) =~= old(out)@,
        forall|k: int|
            old(out)@.len() <= k < final(out)@.len() ==> {
                let c = #[trigger] final(out)@[k];
                &&& c.target_address == target_address
                &&& c.steps@.len() == 1 + (if range.level >= 0 {
                    range.level as int
                } else {
                    0
                })
                &&& c.steps@[0].is_static
                &&& forall|i: int| 1 <= i < c.steps@.len() ==> !(#[trigger] c.steps@[i]).is_static
                // the root step names the band's module and its offset in
                // it, and the rest walks one parent-child path of the tree
                &&& exists|t: int|
                    #![trigger range.results.view()[t]]
                    0 <= t < range.results.view().len() && {
                        let nd = range.results.view()[t];
                        &&& c.steps@[0].module_name == Some(range.vma.name)
                        &&& c.steps@[0].module_index == (if range.vma.count >= 0 {
                            range.vma.count as u32
                        } else {
                            0u32
                        })
                        &&& c.steps@[0].offset == nd.address - range.vma.start
                        &&& spec_steps_of_path(
                            spec_levels_model(info.contents@),
                            range.level as int,
                            nd,
                            c.steps@.skip(1),
                        )
                    }
            },
        // below the cap, every leaf path of the band yields one chain
        final(out)@.len() < max_chains ==> final(out)@.len() - old(out)@.len()
            == spec_band_count(
            spec_levels_model(info.contents@),
            range.level as int,
            range.results.view(),
        ),
{
    let ghost model = spec_levels_model(info.contents@);
    let level: usize = range.level as usize;
    let n: usize = range.results.len();
    let mut i: usize = 0;
    proof {
        assert(range.results.view().take(0) =~= Seq::<PointerDir>::empty());
    }
    while i < n
        invariant
            i <= n,
            n == range.results.view().len(),
            range.vma.start <= range.vma.end,
            model == spec_levels_model(info.contents@),
            spec_tree_ranges_wf(model),
            0 <= level == range.level,
            level <= info.contents@.len(),
            level >= 1 ==> forall|idx: int|
                0 <= idx < range.results.view().len() ==> {
                    let d = #[trigger] range.results.view()[idx];
                    &&& d.start <= d.end
                    &&& d.end <= info.contents@[level - 1].view().len()
                },
            forall|idx: int|
                0 <= idx < range.results.view().len() ==> range.vma.start <= (
                #[trigger] range.results.view()[idx]).address && range.results.view()[idx].address
                    - range.vma.start <= 0x7FFF_FFFF_FFFF_FFFF,
            out@.len() >= old(out)@.len(),
            out@.subrange(0, old(out)@.len() as int) =~= old(out)@,
            forall|k: int|
                old(out)@.len() <= k < out@.len() ==> {
                    let c = #[trigger] out@[k];
                    &&& c.target_address == target_address
                    &&& c.steps@.len() == 1 + level
                    &&& c.steps@[0].is_static
                    &&& forall|ii: int|
                        1 <= ii < c.steps@.len() ==> !(#[trigger] c.steps@[ii]).is_static
                    &&& exists|t: int|
                        #![trigger range.results.view()[t]]
                        0 <= t < range.results.view().len() && {
                            let nd = range.results.view()[t];
                            &&& c.steps@[0].module_name == Some(range.vma.name)
                            &&& c.steps@[0].module_index == (if range.vma.count >= 0 {
                                range.vma.count as u32
                            } else {
                                0u32
                            })
                            &&& c.steps@[0].offset == nd.address - range.vma.start
                            &&& spec_steps_of_path(model, level as int, nd, c.steps@.skip(1))
                        }
                },
            out@.len() < max_chains ==> out@.len() - old(out)@.len() == spec_band_count(
                model,
                level as int,
                range.results.view().take(i as int),
            ),
        decreases n - i,
    {
        if out.len() >= max_chains {
            proof {
                assert(out@.subrange(0, old(out)@.len() as int) =~= old(out)@);
            }
            return ;
        }
        let d: PointerDir = match range.results.get(i) {
            Some(v) => *v,
            None => PointerDir::new(0, 0),
        };
        proof {
            assert(range.results.view().take(i + 1).drop_last() =~= range.results.view().take(
                i as int,
            ));
            assert(range.results.view().take(i + 1).last() == d);
        }
        let base_offset: u64 = d.address - range.vma.start;
        let mut chain: PointerChain = PointerChain::new(target_address);
        chain.push(
            PointerChainStep::static_root(
                range.vma.name.clone(),
                if range.vma.count >= 0 {
                    range.vma.count as u32
                } else {
                    0
                },
                base_offset as i64,
            ),
        );
        proof {
            assert(chain.steps@.len() == 1);
            assert(chain.steps@[0].is_static);
        }
        let ghost before = out@;
        emit_chains_rec(info, level, &d, chain, max_chains, out);
        proof {
            assert forall|kk: int| 0 <= kk < before.len() implies out@[kk] == before[kk] by {
                assert(out@.subrange(0, before.len() as int)[kk] == out@[kk]);
            }
            assert forall|kk: int|
                old(out)@.len() <= kk < out@.len() implies {
                let c = #[trigger] out@[kk];
                &&& c.target_address == target_address
                &&& c.steps@.len() == 1 + level
                &&& c.steps@[0].is_static
                &&& forall|ii: int|
                    1 <= ii < c.steps@.len() ==> !(#[trigger] c.steps@[ii]).is_static
                &&& exists|t: int|
                    #![trigger range.results.view()[t]]
                    0 <= t < range.results.view().len() && {
                        let nd = range.results.view()[t];
                        &&& c.steps@[0].module_name == Some(range.vma.name)
                        &&& c.steps@[0].module_index == (if range.vma.count >= 0 {
                            range.vma.count as u32
                        } else {
                            0u32
                        })
                        &&& c.steps@[0].offset == nd.address - range.vma.start
                        &&& spec_steps_of_path(model, level as int, nd, c.steps@.skip(1))
                    }
            } by {
                if kk < before.len() {
                    assert(out@[kk] == before[kk]);
                } else {
                    assert(out@[kk].target_address == chain.target_address);
                    assert(out@[kk].steps@.len() == chain.steps@.len() + level);
                    let c = out@[kk];
                    assert(c.steps@.subrange(0, 1) == chain.steps@);
                    assert(c.steps@[0] == c.steps@.subrange(0, 1)[0]);
                    assert(c.steps@[0] == chain.steps@[0]);
                    assert(range.results.view()[i as int] == d);
                    assert(c.steps@[0].module_name == Some(range.vma.name));
                    assert(c.steps@[0].offset == d.address - range.vma.start);
                    assert(spec_steps_of_path(model, level as int, d, c.steps@.skip(1)));
                }
            }
        }
        i += 1;
    }
    proof {
        assert(range.results.view().take(n as int) =~= range.results.view());
    }
}

/// Depth-first expansion of one node: at the leaf level the accumulated
/// chain is emitted, otherwise each child extends it by its own offset
/// (its address minus this node's stored value).
fn emit_chains_rec(
    info: &ChainInfo,
    level: usize,
    d: &PointerDir,
    chain: PointerChain,
    max_chains: usize,
    out: &mut Vec<PointerChain>,
)
    requires
        chain.steps@.len() >= 1,
        chain.steps@[0].is_static,
        forall|i: int| 1 <= i < chain.steps@.len() ==> !(#[trigger] chain.steps@[i]).is_static,
        spec_tree_ranges_wf(spec_levels_model(info.contents@)),
        level <= info.contents@.len(),
        level >= 1 ==> d.start <= d.end && d.end <= info.contents@[level - 1].view().len(),
    ensures
        final(out)@.len() >= old(out)@.len(),
        final(out)@.subrange(0, old(out)@.len() as int) =~= old(out)@,
        forall|k: int|
            old(out)@.len() <= k < final(out)@.len() ==> {
                let c = #[trigger] final(out)@[k];
                &&& c.target_address == chain.target_address
                &&& c.steps@.len() == chain.steps@.len() + level
                &&& c.steps@[0].is_static
                &&& forall|i: int| 1 <= i < c.steps@.len() ==> !(#[trigger] c.steps@[i]).is_static
                &&& c.steps@.subrange(0, chain.steps@.len() as int) == chain.steps@
                &&& spec_steps_of_path(
                    spec_levels_model(info.contents@),
                    level as int,
                    *d,
                    c.steps@.skip(chain.steps@.len() as int),
                )
            },
        // below the cap, one chain per leaf path of the node
        final(out)@.len() < max_chains ==> final(out)@.len() - old(out)@.len()
            == spec_chain_count(spec_levels_model(info.contents@), level as int, *d),
    decreases level,
{
    if out.len() >= max_chains {
        proof {
            assert(out@.subrange(0, old(out)@.len() as int) =~= old(out)@);
        }
        return ;
    }
    if level == 0 {
        let ghost o0 = out@;
        let ghost csteps = chain.steps@;
        out.push(chain);
        proof {
            assert(out@.subrange(0, o0.len() as int) =~= o0);
            assert(out@.last().steps@.subrange(0, csteps.len() as int) =~= csteps);
            assert(out@.last().steps@.skip(csteps.len() as int).len() == 0);
        }
        return ;
    }
    if level > info.contents.len() {
        proof {
            assert(out@.subrange(0, old(out)@.len() as int) =~= old(out)@);
        }
        return ;
    }
    let ghost model = spec_levels_model(info.contents@);
    let content: &MapQueue<PointerDir> = &info.contents[level - 1];
    let clen: usize = content.len();
    let lo: usize = d.start as usize;
    let hi: usize = d.end as usize;
    let mut k: usize = lo;
    proof {
        assert(spec_count_range(model, level - 1, lo as int, lo as int) == 0);
    }
    while k < hi
        invariant
            lo <= k <= hi,
            hi <= content.view().len(),
            content.view() == info.contents@[level - 1].view(),
            content.view() == model[level - 1],
            model == spec_levels_model(info.contents@),
            spec_tree_ranges_wf(model),
            level >= 1,
            level <= info.contents@.len(),
            level - 1 < info.contents@.len(),
            lo == d.start && hi == d.end,
            chain.steps@.len() >= 1,
            chain.steps@[0].is_static,
            forall|i: int|
                1 <= i < chain.steps@.len() ==> !(#[trigger] chain.steps@[i]).is_static,
            out@.len() >= old(out)@.len(),
            out@.subrange(0, old(out)@.len() as int) =~= old(out)@,
            forall|kk: int|
                old(out)@.len() <= kk < out@.len() ==> {
                    let c = #[trigger] out@[kk];
                    &&& c.target_address == chain.target_address
                    &&& c.steps@.len() == chain.steps@.len() + level
                    &&& c.steps@[0].is_static
                    &&& forall|i: int|
                        1 <= i < c.steps@.len() ==> !(#[trigger] c.steps@[i]).is_static
                    &&& c.steps@.subrange(0, chain.steps@.len() as int) == chain.steps@
                    &&& spec_steps_of_path(
                        model,
                        level as int,
                        *d,
                        c.steps@.skip(chain.steps@.len() as int),
                    )
                },
            out@.len() < max_chains ==> out@.len() - old(out)@.len() == spec_count_range(
                model,
                level - 1,
                lo as int,
                k as int,
            ),
        decreases hi - k,
    {
        if out.len() >= max_chains {
            proof {
                assert(out@.subrange(0, old(out)@.len() as int) =~= old(out)@);
            }
            return ;
        }
        let child: PointerDir = match content.get(k) {
            Some(v) => *v,
            None => PointerDir::new(0, 0),
        };
        proof {
            assert(child == model[level - 1][k as int]);
            if level >= 2 {
                assert(child.start <= child.end && child.end <= model[level - 2].len());
            }
            assert(spec_count_range(model, level - 1, lo as int, k + 1) == spec_count_range(
                model,
                level - 1,
                lo as int,
                k as int,
            ) + spec_chain_count(model, level - 1, child));
        }
        let off: i64 = wrapped_offset(child.address, d.value);
        {
            let mut extended: PointerChain = chain.duplicate();
            extended.push(PointerChainStep::dynamic_offset(off));
            proof {
                assert(extended.steps@.len() == chain.steps@.len() + 1);
                assert(extended.steps@[0].is_static);
                assert forall|i: int|
                    1 <= i < extended.steps@.len() implies !(
                #[trigger] extended.steps@[i]).is_static by {
                    if i < extended.steps@.len() - 1 {
                        assert(extended.steps@[i].is_static == chain.steps@[i].is_static);
                    }
                }
            }
            let ghost before = out@;
            emit_chains_rec(info, level - 1, &child, extended, max_chains, out);
            proof {
                assert forall|kk: int| 0 <= kk < before.len() implies out@[kk] == before[kk] by {
                    assert(out@.subrange(0, before.len() as int)[kk] == out@[kk]);
                }
                assert forall|kk: int|
                    old(out)@.len() <= kk < out@.len() implies {
                    let c = #[trigger] out@[kk];
                    &&& c.target_address == chain.target_address
                    &&& c.steps@.len() == chain.steps@.len() + level
                    &&& c.steps@[0].is_static
                    &&& forall|i: int|
                        1 <= i < c.steps@.len() ==> !(#[trigger] c.steps@[i]).is_static
                    &&& c.steps@.subrange(0, chain.steps@.len() as int) == chain.steps@
                    &&& spec_steps_of_path(
                        model,
                        level as int,
                        *d,
                        c.steps@.skip(chain.steps@.len() as int),
                    )
                } by {
                    if kk < before.len() {
                        assert(out@[kk] == before[kk]);
                    } else {
                        assert(out@[kk].target_address == extended.target_address);
                        assert(out@[kk].steps@.len() == extended.steps@.len() + (level - 1));
                        assert(extended.target_address == chain.target_address);
                        assert(extended.steps@.len() == chain.steps@.len() + 1);
                        let c = out@[kk];
                        let cn = chain.steps@.len() as int;
                        assert(extended.steps@ =~= chain.steps@.push(
                            extended.steps@[cn],
                        ));
                        assert(c.steps@.subrange(0, extended.steps@.len() as int)
                            == extended.steps@);
                        assert(c.steps@.subrange(0, cn) =~= chain.steps@) by {
                            assert forall|ii: int| 0 <= ii < cn implies c.steps@.subrange(
                                0,
                                cn,
                            )[ii] == chain.steps@[ii] by {
                                assert(c.steps@[ii] == c.steps@.subrange(
                                    0,
                                    extended.steps@.len() as int,
                                )[ii]);
                            }
                        }
                        // the tail walks: this child first, then its own path
                        let tail = c.steps@.skip(cn);
                        assert(tail[0] == c.steps@[cn]);
                        assert(c.steps@[cn] == c.steps@.subrange(
                            0,
                            extended.steps@.len() as int,
                        )[cn]);
                        assert(tail[0].offset == off);
                        assert(tail.drop_first() =~= c.steps@.skip(
                            extended.steps@.len() as int,
                        ));
                        assert(spec_steps_of_path(model, level - 1, child, tail.drop_first()));
                        assert(d.start <= k < d.end && tail.len() >= 1 && {
                            let ch = model[level - 1][k as int];
                            tail[0].offset == spec_signed_of(spec_wrap_sub(ch.address, d.value))
                                && spec_steps_of_path(model, level - 1, ch, tail.drop_first())
                        });
                        assert(spec_steps_of_path(model, level as int, *d, tail));
                    }
                }
            }
        }
        k += 1;
    }
}

/// Saturating addition of chain counts.
pub open spec fn spec_sat_add_usize(a: int, b: int) -> int {
    if a + b > usize::MAX {
        usize::MAX as int
    } else {
        a + b
    }
}

/// The chains below one band node as the prefix-sum table reports them:
/// `counts[d.end] - counts[d.start]`, zero when the range leaves the
/// table.
pub open spec fn spec_table_count(counts: Seq<usize>, d: PointerDir) -> int {
    if d.start < counts.len() && d.end < counts.len() && d.start <= d.end && counts[d.end as int]
        >= counts[d.start as int] {
        counts[d.end as int] - counts[d.start as int]
    } else {
        0
    }
}

/// The table-reported chains below a band's first `t` nodes, saturating.
pub open spec fn spec_band_table_sum(counts: Seq<usize>, dirs: Seq<PointerDir>, t: int) -> int
    decreases t,
{
    if t <= 0 {
        0
    } else {
        spec_sat_add_usize(
            spec_band_table_sum(counts, dirs, t - 1),
            spec_table_count(counts, dirs[t - 1]),
        )
    }
}

/// The unclamped chain total over all bands, saturating, as the
/// prefix-sum table reports it.
pub open spec fn spec_total_chains(
    counts: Seq<MapQueue<usize>>,
    ranges: Seq<PointerRange>,
) -> int
    decreases ranges.len(),
{
    if ranges.len() == 0 {
        0
    } else {
        let band = ranges.last();
        let level_counts: Seq<usize> = if 0 <= band.level < counts.len() {
            counts[band.level as int].view()
        } else {
            Seq::empty()
        };
        spec_sat_add_usize(
            spec_total_chains(counts, ranges.drop_last()),
            spec_band_table_sum(level_counts, band.results.view(), band.results.view().len() as int),
        )
    }
}

/// Counts every chain the walk found, before any write cap: the
/// saturating sum, over every band node, of the prefix-sum difference
/// `counts[band.level][node.end] - counts[band.level][node.start]`.
pub fn count_total_chains(info: &ChainInfo, ranges: &Vec<PointerRange>) -> (n: usize)
    ensures
        n == spec_total_chains(info.counts@, ranges@),
{
    let rn: usize = ranges.len();
    let mut total: usize = 0;
    let mut r: usize = 0;
    proof {
        assert(ranges@.take(0) =~= Seq::<PointerRange>::empty());
    }
    while r < rn
        invariant
            r <= rn,
            rn == ranges@.len(),
            total == spec_total_chains(info.counts@, ranges@.take(r as int)),
        decreases rn - r,
    {
        let band: &PointerRange = &ranges[r];
        let level_ok: bool = 0 <= band.level && (band.level as usize) < info.counts.len();
        let dn: usize = band.results.len();
        let mut band_sum: usize = 0;
        let mut t: usize = 0;
        let ghost level_counts: Seq<usize> = if 0 <= band.level < info.counts@.len() {
            info.counts@[band.level as int].view()
        } else {
            Seq::empty()
        };
        while t < dn
            invariant
                t <= dn,
                dn == band.results.view().len(),
                band == ranges@[r as int],
                r < ranges@.len(),
                level_ok == (0 <= band.level < info.counts@.len()),
                level_counts == if 0 <= band.level < info.counts@.len() {
                    info.counts@[band.level as int].view()
                } else {
                    Seq::<usize>::empty()
                },
                band_sum == spec_band_table_sum(level_counts, band.results.view(), t as int),
            decreases dn - t,
        {
            let d: PointerDir = match band.results.get(t) {
                Some(v) => *v,
                None => PointerDir::new(0, 0),
            };
            let diff: usize = if level_ok {
                let counts_q: &MapQueue<usize> = &info.counts[band.level as usize];
                let clen: usize = counts_q.len();
                if (d.start as usize) < clen && (d.end as usize) < clen && d.start <= d.end {
                    let a: usize = match counts_q.get(d.start as usize) {
                        Some(v) => *v,
                        None => 0,
                    };
                    let b: usize = match counts_q.get(d.end as usize) {
                        Some(v) => *v,
                        None => 0,
                    };
                    if b >= a {
                        b - a
                    } else {
                        0
                    }
                } else {
                    0
                }
            } else {
                0
            };
            proof {
                assert(diff == spec_table_count(level_counts, band.results.view()[t as int]));
            }
            band_sum = if diff <= usize::MAX - band_sum {
                band_sum + diff
            } else {
                usize::MAX
            };
            t += 1;
        }
        proof {
            assert(ranges@.take(r + 1).drop_last() =~= ranges@.take(r as int));
            assert(ranges@.take(r + 1).last() == ranges@[r as int]);
        }
        total = if band_sum <= usize::MAX - total {
            total + band_sum
        } else {
            usize::MAX
        };
        r += 1;
    }
    proof {
        assert(ranges@.take(rn as int) =~= ranges@);
    }
    total
}

/// The per-level cap of the walk: a level past it is truncated.
pub const MAX_CANDIDATES_PER_LAYER: usize = 5_000_000;

/// Whether the pointers are sorted by address.
pub open spec fn spec_data_sorted(s: Seq<PointerData>) -> bool {
    forall|k1: int, k2: int|
        0 <= k1 < k2 < s.len() ==> (#[trigger] s[k1]).address <= (#[trigger] s[k2]).address
}

/// The link filter keeps input order, so a sorted library yields sorted
/// findings; every finding is a library entry that links into the level.
proof fn lemma_linked_filter_facts(global: Seq<PointerData>, prev: Seq<PointerDir>, offset: u64)
    ensures
        spec_linked_filter(global, prev, offset).len() <= global.len(),
        spec_data_sorted(global) ==> spec_data_sorted(spec_linked_filter(global, prev, offset)),
        forall|i: int|
            0 <= i < spec_linked_filter(global, prev, offset).len() ==> global.contains(
                #[trigger] spec_linked_filter(global, prev, offset)[i],
            ) && spec_linked(prev, spec_linked_filter(global, prev, offset)[i].value, offset),
    decreases global.len(),
{
    if global.len() > 0 {
        lemma_linked_filter_facts(global.drop_last(), prev, offset);
        let rest = spec_linked_filter(global.drop_last(), prev, offset);
        assert forall|i: int|
            0 <= i < rest.len() implies global.contains(#[trigger] rest[i]) by {
            assert(global.drop_last().contains(rest[i]));
            let j = choose|j: int|
                0 <= j < global.drop_last().len() && global.drop_last()[j] == rest[i];
            assert(global[j] == rest[i]);
        }
        if spec_data_sorted(global) {
            assert(spec_data_sorted(global.drop_last())) by {
                assert forall|k1: int, k2: int|
                    0 <= k1 < k2 < global.drop_last().len() implies (
                #[trigger] global.drop_last()[k1]).address <= (
                #[trigger] global.drop_last()[k2]).address by {
                    assert(global[k1].address <= global[k2].address);
                }
            }
            let cur = spec_linked_filter(global, prev, offset);
            if spec_linked(prev, global.last().value, offset) {
                assert forall|k1: int, k2: int|
                    0 <= k1 < k2 < cur.len() implies (#[trigger] cur[k1]).address <= (
                #[trigger] cur[k2]).address by {
                    if k2 == cur.len() - 1 {
                        assert(cur[k1] == rest[k1]);
                        assert(global.drop_last().contains(rest[k1]));
                        let j = choose|j: int|
                            0 <= j < global.drop_last().len() && global.drop_last()[j]
                                == rest[k1];
                        assert(global[j].address <= global.last().address);
                    }
                }
            }
        }
    }
}

/// The outside filter keeps input order and node fields come from the
/// findings.
proof fn lemma_outside_facts(curr: Seq<PointerData>, modules: Seq<VmStaticData>)
    ensures
        spec_outside_modules(curr, modules).len() <= curr.len(),
        spec_data_sorted(curr) ==> spec_dirs_sorted(spec_outside_modules(curr, modules)),
        forall|i: int|
            0 <= i < spec_outside_modules(curr, modules).len() ==> exists|j: int|
                0 <= j < curr.len() && (#[trigger] curr[j]).address == (
                #[trigger] spec_outside_modules(curr, modules)[i]).address && curr[j].value
                    == spec_outside_modules(curr, modules)[i].value,
    decreases curr.len(),
{
    if curr.len() > 0 {
        lemma_outside_facts(curr.drop_last(), modules);
        let rest = spec_outside_modules(curr.drop_last(), modules);
        let cur = spec_outside_modules(curr, modules);
        assert forall|i: int|
            0 <= i < cur.len() implies exists|j: int|
            0 <= j < curr.len() && (#[trigger] curr[j]).address == (#[trigger] cur[i]).address
                && curr[j].value == cur[i].value by {
            if i < rest.len() {
                let j = choose|j: int|
                    0 <= j < curr.drop_last().len() && (#[trigger] curr.drop_last()[j]).address
                        == rest[i].address && curr.drop_last()[j].value == rest[i].value;
                assert(curr[j].address == cur[i].address && curr[j].value == cur[i].value);
            } else {
                assert(curr[curr.len() - 1].address == cur[i].address && curr[curr.len()
                    - 1].value == cur[i].value);
            }
        }
        if spec_data_sorted(curr) {
            assert(spec_data_sorted(curr.drop_last())) by {
                assert forall|k1: int, k2: int|
                    0 <= k1 < k2 < curr.drop_last().len() implies (
                #[trigger] curr.drop_last()[k1]).address <= (
                #[trigger] curr.drop_last()[k2]).address by {
                    assert(curr[k1].address <= curr[k2].address);
                }
            }
            assert forall|k1: int, k2: int|
                0 <= k1 < k2 < cur.len() implies (#[trigger] cur[k1]).address <= (
            #[trigger] cur[k2]).address by {
                if k2 == cur.len() - 1 && cur.len() > rest.len() {
                    assert(cur[k1] == rest[k1]);
                    let j = choose|j: int|
                        0 <= j < curr.drop_last().len() && (#[trigger] curr.drop_last()[j]).address == rest[k1 as int].address
                            && curr.drop_last()[j].value == rest[k1 as int].value;
                    assert(curr[j].address <= curr.last().address);
                }
            }
        }
    }
}

/// The in-module findings keep input order and node fields come from
/// the findings.
proof fn lemma_hits_facts(curr: Seq<PointerData>, m: VmStaticData)
    ensures
        spec_module_hits(curr, m).len() <= curr.len(),
        forall|i: int|
            0 <= i < spec_module_hits(curr, m).len() ==> exists|j: int|
                0 <= j < curr.len() && (#[trigger] curr[j]).address == (
                #[trigger] spec_module_hits(curr, m)[i]).address && curr[j].value
                    == spec_module_hits(curr, m)[i].value,
    decreases curr.len(),
{
    if curr.len() > 0 {
        lemma_hits_facts(curr.drop_last(), m);
        let rest = spec_module_hits(curr.drop_last(), m);
        let cur = spec_module_hits(curr, m);
        assert forall|i: int|
            0 <= i < cur.len() implies exists|j: int|
            0 <= j < curr.len() && (#[trigger] curr[j]).address == (#[trigger] cur[i]).address
                && curr[j].value == cur[i].value by {
            if i < rest.len() {
                let j = choose|j: int|
                    0 <= j < curr.drop_last().len() && (#[trigger] curr.drop_last()[j]).address
                        == rest[i].address && curr.drop_last()[j].value == rest[i].value;
                assert(curr[j].address == cur[i].address && curr[j].value == cur[i].value);
            } else {
                assert(curr[curr.len() - 1].address == cur[i].address && curr[curr.len()
                    - 1].value == cur[i].value);
            }
        }
    }
}

/// Whether every node carries a collected pointer that links into `prev`
/// within the window.
pub open spec fn spec_nodes_from(
    global: Seq<PointerData>,
    prev: Seq<PointerDir>,
    nodes: Seq<PointerDir>,
    offset: u64,
) -> bool {
    forall|i: int|
        0 <= i < nodes.len() ==> {
            let nd = #[trigger] nodes[i];
            &&& exists|j: int|
                0 <= j < global.len() && (#[trigger] global[j]).address == nd.address
                    && global[j].value == nd.value
            &&& spec_linked(prev, nd.value, offset)
        }
}

/// Whether every node of a level carries a collected pointer that links
/// into the level below within the window, with its child range at the
/// partition points of the level below.
pub open spec fn spec_level_linked(
    global: Seq<PointerData>,
    prev: Seq<PointerDir>,
    nodes: Seq<PointerDir>,
    offset: u64,
) -> bool {
    forall|i: int|
        0 <= i < nodes.len() ==> {
            let nd = #[trigger] nodes[i];
            &&& exists|j: int|
                0 <= j < global.len() && (#[trigger] global[j]).address == nd.address
                    && global[j].value == nd.value
            &&& spec_linked(prev, nd.value, offset)
            &&& nd.start <= prev.len() && nd.end <= prev.len()
            &&& forall|k: int| 0 <= k < nd.start ==> (#[trigger] prev[k]).address < nd.value
            &&& forall|k: int|
                nd.start <= k < prev.len() ==> (#[trigger] prev[k]).address >= nd.value
            &&& forall|k: int|
                0 <= k < nd.end ==> (#[trigger] prev[k]).address <= spec_sat_add(
                    nd.value,
                    offset,
                )
            &&& forall|k: int|
                nd.end <= k < prev.len() ==> (#[trigger] prev[k]).address > spec_sat_add(
                    nd.value,
                    offset,
                )
        }
}

/// An empty level links no pointer: the findings over it are none.
proof fn lemma_linked_filter_empty_prev(global: Seq<PointerData>, offset: u64)
    ensures
        spec_linked_filter(global, Seq::<PointerDir>::empty(), offset) =~= Seq::<
            PointerData,
        >::empty(),
    decreases global.len(),
{
    if global.len() > 0 {
        lemma_linked_filter_empty_prev(global.drop_last(), offset);
    }
}

/// No module holds a finding of an empty level.
proof fn lemma_hit_modules_empty(modules: Seq<VmStaticData>)
    ensures
        spec_hit_modules(Seq::<PointerData>::empty(), modules) =~= Seq::<int>::empty(),
    decreases modules.len(),
{
    if modules.len() > 0 {
        lemma_hit_modules_empty(modules.drop_last());
    }
}

/// Whether `nodes` is exactly the level the walk owes over `prev`: the
/// collected pointers that link into `prev`, less those inside a module,
/// in order, cut at the per-level cap.
pub open spec fn spec_level_filled(
    global: Seq<PointerData>,
    modules: Seq<VmStaticData>,
    prev: Seq<PointerDir>,
    nodes: Seq<PointerDir>,
    offset: u64,
) -> bool {
    let outs = spec_outside_modules(spec_linked_filter(global, prev, offset), modules);
    &&& nodes.len() == if outs.len() <= MAX_CANDIDATES_PER_LAYER {
        outs.len() as int
    } else {
        MAX_CANDIDATES_PER_LAYER as int
    }
    &&& forall|i: int|
        0 <= i < nodes.len() ==> (#[trigger] nodes[i]).address == outs[i].address
            && nodes[i].value == outs[i].value
}

/// The exit bands the walk owes through level `l`: one `(level, module)`
/// entry per module holding findings of that level, levels ascending and
/// modules in order within a level.
pub open spec fn spec_owed_bands(
    global: Seq<PointerData>,
    modules: Seq<VmStaticData>,
    model: Seq<Seq<PointerDir>>,
    l: int,
    target: u64,
    offset: u64,
) -> Seq<(i32, int)>
    decreases l,
{
    if l <= 0 {
        spec_hit_modules(spec_seed(target), modules).map(|i: int, mi: int| (0i32, mi))
    } else {
        spec_owed_bands(global, modules, model, l - 1, target, offset) + spec_hit_modules(
            spec_linked_filter(global, model[l - 1], offset),
            modules,
        ).map(|i: int, mi: int| ((l as i32), mi))
    }
}

/// The owed bands through level `l` read only the levels below `l`.
proof fn lemma_owed_bands_stable(
    global: Seq<PointerData>,
    modules: Seq<VmStaticData>,
    m1: Seq<Seq<PointerDir>>,
    m2: Seq<Seq<PointerDir>>,
    l: int,
    target: u64,
    offset: u64,
)
    requires
        forall|ll: int| 0 <= ll < l ==> #[trigger] m1[ll] == m2[ll],
    ensures
        spec_owed_bands(global, modules, m1, l, target, offset) == spec_owed_bands(
            global,
            modules,
            m2,
            l,
            target,
            offset,
        ),
    decreases l,
{
    if l > 0 {
        lemma_owed_bands_stable(global, modules, m1, m2, l - 1, target, offset);
    }
}

/// The owed bands do not grow over levels that found nothing.
proof fn lemma_owed_bands_tail(
    global: Seq<PointerData>,
    modules: Seq<VmStaticData>,
    model: Seq<Seq<PointerDir>>,
    l0: int,
    l: int,
    target: u64,
    offset: u64,
)
    requires
        0 <= l0 <= l,
        forall|ll: int|
            l0 <= ll < l ==> spec_linked_filter(global, #[trigger] model[ll], offset) =~= Seq::<
                PointerData,
            >::empty(),
    ensures
        spec_owed_bands(global, modules, model, l, target, offset) == spec_owed_bands(
            global,
            modules,
            model,
            l0,
            target,
            offset,
        ),
    decreases l - l0,
{
    if l > l0 {
        lemma_owed_bands_tail(global, modules, model, l0, l - 1, target, offset);
        lemma_hit_modules_empty(modules);
        assert(spec_linked_filter(global, model[l - 1], offset) =~= Seq::<PointerData>::empty());
        assert(spec_hit_modules(spec_linked_filter(global, model[l - 1], offset), modules)
            =~= Seq::<int>::empty());
        assert(spec_owed_bands(global, modules, model, l, target, offset) =~= spec_owed_bands(
            global,
            modules,
            model,
            l - 1,
            target,
            offset,
        ));
    }
}

/// Whether `band` is the one owed at entry `e`: at the entry's level,
/// over the entry's module, holding exactly that module's hits of the
/// level's findings (child ranges aside).
pub open spec fn spec_band_matches(
    global: Seq<PointerData>,
    modules: Seq<VmStaticData>,
    model: Seq<Seq<PointerDir>>,
    e: (i32, int),
    band: PointerRange,
    target: u64,
    offset: u64,
) -> bool {
    let hits = spec_module_hits(
        if e.0 == 0 {
            spec_seed(target)
        } else {
            spec_linked_filter(global, model[e.0 - 1], offset)
        },
        modules[e.1],
    );
    &&& band.level == e.0
    &&& 0 <= e.1 < modules.len()
    &&& band.results.view().len() == hits.len()
    &&& forall|i: int|
        0 <= i < band.results.view().len() ==> (#[trigger] band.results.view()[i]).address
            == hits[i].address && band.results.view()[i].value == hits[i].value
    &&& band.vma.start == modules[e.1].base_address
    &&& band.vma.end == modules[e.1].end_address
    &&& band.vma.name == modules[e.1].name
    &&& band.vma.count == modules[e.1].index as i32
}

/// The walk's seed: the target address as a single finding.
pub open spec fn spec_seed(target: u64) -> Seq<PointerData> {
    seq![(PointerData { address: target, value: 0u64 })]
}

/// Runs the whole reverse walk: level 0 is the target split by module,
/// and each deeper level holds the collected pointers that link into the
/// level below within `offset`, bound to their child ranges and capped
/// at `MAX_CANDIDATES_PER_LAYER` nodes.
pub fn build_chain_levels(
    global: &MapQueue<PointerData>,
    modules: &Vec<VmStaticData>,
    target: u64,
    depth: usize,
    offset: u64,
) -> (r: (Vec<MapQueue<PointerDir>>, Vec<PointerRange>))
    requires
        global.view().len() <= 0x1FFF_FFFF,
        spec_data_sorted(global.view()),
        depth < 0x8000_0000,
    ensures
        r.0@.len() == depth + 1,
        forall|l: int| 0 <= l <= depth ==> (#[trigger] r.0@[l]).wf(),
        forall|l: int|
            0 <= l <= depth ==> (#[trigger] r.0@[l]).view().len() <= MAX_CANDIDATES_PER_LAYER,
        forall|l: int| 0 <= l <= depth ==> spec_dirs_sorted((#[trigger] r.0@[l]).view()),
        // level 0 holds exactly the target, less the part inside modules
        r.0@[0].view() == spec_outside_modules(spec_seed(target), modules@),
        // every deeper node is a collected pointer linked into the level
        // below, with its child range at that level's partition points
        forall|l: int|
            #![trigger r.0@[l]]
            1 <= l <= depth ==> spec_level_linked(
                global.view(),
                r.0@[l - 1].view(),
                r.0@[l].view(),
                offset,
            ),
        // each exit band sits at a walked level; a band of level 0 holds
        // the target, a deeper one collected pointers linked into the
        // level below it, at its partition points
        forall|k: int|
            0 <= k < r.1@.len() ==> {
                let band = #[trigger] r.1@[k];
                &&& 0 <= band.level <= depth
                &&& band.results.wf()
                &&& (band.level == 0 ==> forall|i: int|
                    0 <= i < band.results.view().len() ==> (
                    #[trigger] band.results.view()[i]).address == target
                        && band.results.view()[i].value == 0)
                &&& (band.level >= 1 ==> spec_level_linked(
                    global.view(),
                    r.0@[band.level - 1].view(),
                    band.results.view(),
                    offset,
                ))
            },
        // and the levels are full: each holds exactly the linked findings
        // outside the modules, in order, cut at the cap
        forall|l: int|
            #![trigger r.0@[l]]
            1 <= l <= depth ==> spec_level_filled(
                global.view(),
                modules@,
                r.0@[l - 1].view(),
                r.0@[l].view(),
                offset,
            ),
        // and the exit bands are exactly the owed ones: per level in
        // order, one band per module with findings, holding its hits
        r.1@.len() == spec_owed_bands(
            global.view(),
            modules@,
            spec_levels_model(r.0@),
            depth as int,
            target,
            offset,
        ).len(),
        forall|k: int|
            0 <= k < r.1@.len() ==> spec_band_matches(
                global.view(),
                modules@,
                spec_levels_model(r.0@),
                spec_owed_bands(
                    global.view(),
                    modules@,
                    spec_levels_model(r.0@),
                    depth as int,
                    target,
                    offset,
                )[k],
                #[trigger] r.1@[k],
                target,
                offset,
            ),
{
    let ghost g = global.view();
    let mut dirs: Vec<MapQueue<PointerDir>> = Vec::new();
    let mut k: usize = 0;
    while k < depth + 1
        invariant
            k <= depth + 1,
            depth < 0x8000_0000,
            dirs@.len() == k,
            forall|l: int| 0 <= l < k ==> (#[trigger] dirs@[l]).wf(),
            forall|l: int| 0 <= l < k ==> (#[trigger] dirs@[l]).view() =~= Seq::<
                PointerDir,
            >::empty(),
        decreases depth + 1 - k,
    {
        dirs.push(MapQueue::new());
        k += 1;
    }
    let mut ranges: Vec<PointerRange> = Vec::new();
    let mut seed: Vec<PointerData> = Vec::new();
    seed.push(PointerData::new(target, 0));
    proof {
        assert(seed@ =~= spec_seed(target));
        lemma_outside_facts(spec_seed(target), modules@);
        assert(spec_seed(target).drop_last() =~= Seq::<PointerData>::empty());
    }
    let _ = filter_pointer_ranges(modules, &mut dirs, &mut ranges, seed, 0);
    proof {
        assert(dirs@[0].view() =~= spec_outside_modules(spec_seed(target), modules@));
        assert forall|kk: int| 0 <= kk < ranges@.len() implies {
            let band = #[trigger] ranges@[kk];
            &&& band.level == 0
            &&& band.results.wf()
            &&& forall|i: int|
                0 <= i < band.results.view().len() ==> (
                #[trigger] band.results.view()[i]).address == target
                    && band.results.view()[i].value == 0
        } by {
            let t = kk;
            assert(0 <= t < spec_hit_modules(spec_seed(target), modules@).len());
            assert(ranges@[0 + t] == ranges@[kk]);
            let mi = spec_hit_modules(spec_seed(target), modules@)[t];
            lemma_hits_facts(spec_seed(target), modules@[mi]);
            let hits = spec_module_hits(spec_seed(target), modules@[mi]);
            assert forall|i: int|
                0 <= i < hits.len() implies (#[trigger] hits[i]).address == target && hits[i].value
                == 0 by {
                let j = choose|j: int|
                    0 <= j < spec_seed(target).len() && (#[trigger] spec_seed(target)[j]).address
                        == hits[i].address && spec_seed(target)[j].value == hits[i].value;
            }
        }
        // the ledger base: the owed level-0 bands stand, in order
        let model0 = spec_levels_model(dirs@);
        let owed0 = spec_owed_bands(g, modules@, model0, 0, target, offset);
        assert(ranges@.len() == owed0.len());
        assert forall|kk: int| 0 <= kk < ranges@.len() implies spec_band_matches(
            g,
            modules@,
            model0,
            owed0[kk],
            #[trigger] ranges@[kk],
            target,
            offset,
        ) by {
            assert(ranges@[0 + kk] == ranges@[kk]);
            assert(owed0[kk] == (0i32, spec_hit_modules(spec_seed(target), modules@)[kk]));
        }
    }
    let mut done: bool = false;
    let mut level: usize = 1;
    while level <= depth && !done
        invariant
            1 <= level <= depth + 1,
            depth < 0x8000_0000,
            g == global.view(),
            g.len() <= 0x1FFF_FFFF,
            spec_data_sorted(g),
            dirs@.len() == depth + 1,
            forall|l: int| 0 <= l <= depth ==> (#[trigger] dirs@[l]).wf(),
            forall|l: int|
                0 <= l <= depth ==> (#[trigger] dirs@[l]).view().len()
                    <= MAX_CANDIDATES_PER_LAYER,
            forall|l: int| 0 <= l <= depth ==> spec_dirs_sorted((#[trigger] dirs@[l]).view()),
            forall|l: int|
                level <= l <= depth ==> (#[trigger] dirs@[l]).view() =~= Seq::<
                    PointerDir,
                >::empty(),
            dirs@[0].view() == spec_outside_modules(spec_seed(target), modules@),
            forall|l: int|
                #![trigger dirs@[l]]
                1 <= l < level ==> spec_level_linked(
                    g,
                    dirs@[l - 1].view(),
                    dirs@[l].view(),
                    offset,
                ),
            forall|kk: int|
                0 <= kk < ranges@.len() ==> {
                    let band = #[trigger] ranges@[kk];
                    &&& 0 <= band.level < level
                    &&& band.results.wf()
                    &&& (band.level == 0 ==> forall|i: int|
                        0 <= i < band.results.view().len() ==> (
                        #[trigger] band.results.view()[i]).address == target
                            && band.results.view()[i].value == 0)
                    &&& (band.level >= 1 ==> spec_nodes_from(
                        g,
                        dirs@[band.level - 1].view(),
                        band.results.view(),
                        offset,
                    ))
                },
            forall|l: int|
                #![trigger dirs@[l]]
                1 <= l < level ==> spec_level_filled(
                    g,
                    modules@,
                    dirs@[l - 1].view(),
                    dirs@[l].view(),
                    offset,
                ),
            ranges@.len() == spec_owed_bands(
                g,
                modules@,
                spec_levels_model(dirs@),
                level - 1,
                target,
                offset,
            ).len(),
            forall|kk: int|
                0 <= kk < ranges@.len() ==> spec_band_matches(
                    g,
                    modules@,
                    spec_levels_model(dirs@),
                    spec_owed_bands(
                        g,
                        modules@,
                        spec_levels_model(dirs@),
                        level - 1,
                        target,
                        offset,
                    )[kk],
                    #[trigger] ranges@[kk],
                    target,
                    offset,
                ),
            done ==> spec_linked_filter(g, dirs@[level - 1].view(), offset) =~= Seq::<
                PointerData,
            >::empty(),
        decreases depth + 1 - level, (if done { 0int } else { 1int }),
    {
        let curr: Vec<PointerData> = search_pointer(global.as_slice(), &dirs[level - 1], offset);
        proof {
            lemma_linked_filter_facts(g, dirs@[level - 1].view(), offset);
        }
        if curr.is_empty() {
            proof {
                assert(spec_linked_filter(g, dirs@[level - 1].view(), offset) =~= Seq::<
                    PointerData,
                >::empty());
            }
            done = true;
        } else {
            let ghost prevv = dirs@[level as int - 1].view();
            let ghost r_before = ranges@;
            let ghost d_before = dirs@;
            proof {
                lemma_outside_facts(curr@, modules@);
            }
            let _ = filter_pointer_ranges(modules, &mut dirs, &mut ranges, curr, level as i32);
            proof {
                assert(dirs@[level as int].view() =~= spec_outside_modules(curr@, modules@));
            }
            // bind each fresh node to its child range, then cap the level
            let mut tmp: MapQueue<PointerDir> = MapQueue::new();
            {
                let q: &mut MapQueue<PointerDir> = &mut dirs[level];
                core::mem::swap(q, &mut tmp);
            }
            create_assoc_dir_index(&dirs[level - 1], &mut tmp, offset);
            tmp.truncate(MAX_CANDIDATES_PER_LAYER);
            {
                let q: &mut MapQueue<PointerDir> = &mut dirs[level];
                core::mem::swap(q, &mut tmp);
            }
            proof {
                let lvl = level as int;
                let filt = spec_linked_filter(g, prevv, offset);
                let outs = spec_outside_modules(filt, modules@);
                // the level's nodes: a prefix of the outside findings with
                // child ranges bound, so sorted, from the library, linked,
                // and at the partition points
                assert forall|i: int|
                    0 <= i < dirs@[lvl].view().len() implies {
                    let nd = #[trigger] dirs@[lvl].view()[i];
                    &&& exists|j: int|
                        0 <= j < g.len() && (#[trigger] g[j]).address == nd.address && g[j].value
                            == nd.value
                    &&& spec_linked(dirs@[lvl - 1].view(), nd.value, offset)
                } by {
                    let nd = dirs@[lvl].view()[i];
                    assert(nd.address == outs[i].address && nd.value == outs[i].value);
                    let j = choose|j: int|
                        0 <= j < filt.len() && (#[trigger] filt[j]).address == outs[i].address
                            && filt[j].value == outs[i].value;
                    assert(g.contains(filt[j]));
                    let jj = choose|jj: int| 0 <= jj < g.len() && g[jj] == filt[j];
                    assert(g[jj].address == nd.address && g[jj].value == nd.value);
                    assert(spec_linked(prevv, filt[j].value, offset));
                }
                assert(spec_level_linked(g, dirs@[lvl - 1].view(), dirs@[lvl].view(), offset));
                assert(spec_dirs_sorted(dirs@[lvl].view())) by {
                    assert(spec_dirs_sorted(outs));
                    assert forall|k1: int, k2: int|
                        0 <= k1 < k2 < dirs@[lvl].view().len() implies (
                    #[trigger] dirs@[lvl].view()[k1]).address <= (
                    #[trigger] dirs@[lvl].view()[k2]).address by {
                        assert(dirs@[lvl].view()[k1].address == outs[k1].address);
                        assert(dirs@[lvl].view()[k2].address == outs[k2].address);
                    }
                }
                // the fresh bands hold in-module findings, linked likewise
                assert forall|t: int|
                    0 <= t < spec_hit_modules(curr@, modules@).len() implies {
                    let band = #[trigger] ranges@[r_before.len() + t];
                    &&& band.level == lvl
                    &&& band.results.wf()
                    &&& spec_nodes_from(g, dirs@[lvl - 1].view(), band.results.view(), offset)
                } by {
                    let mi = spec_hit_modules(curr@, modules@)[t];
                    lemma_hits_facts(curr@, modules@[mi]);
                    let hits = spec_module_hits(curr@, modules@[mi]);
                    assert forall|i: int|
                        0 <= i < hits.len() implies {
                        let nd = #[trigger] hits[i];
                        &&& exists|j: int|
                            0 <= j < g.len() && (#[trigger] g[j]).address == nd.address
                                && g[j].value == nd.value
                        &&& spec_linked(dirs@[lvl - 1].view(), nd.value, offset)
                    } by {
                        let nd = hits[i];
                        let j = choose|j: int|
                            0 <= j < curr@.len() && (#[trigger] curr@[j]).address == nd.address
                                && curr@[j].value == nd.value;
                        assert(g.contains(curr@[j]));
                        let jj = choose|jj: int| 0 <= jj < g.len() && g[jj] == curr@[j];
                        assert(g[jj].address == nd.address && g[jj].value == nd.value);
                        assert(spec_linked(prevv, curr@[j].value, offset));
                    }
                }
                // carry every band, old and fresh, to the next level
                assert forall|kk: int| 0 <= kk < ranges@.len() implies {
                    let band = #[trigger] ranges@[kk];
                    &&& 0 <= band.level < level + 1
                    &&& band.results.wf()
                    &&& (band.level == 0 ==> forall|i: int|
                        0 <= i < band.results.view().len() ==> (
                        #[trigger] band.results.view()[i]).address == target
                            && band.results.view()[i].value == 0)
                    &&& (band.level >= 1 ==> spec_nodes_from(
                        g,
                        dirs@[band.level - 1].view(),
                        band.results.view(),
                        offset,
                    ))
                } by {
                    if kk < r_before.len() {
                        assert(ranges@[kk] == r_before[kk]);
                        let band = r_before[kk];
                        if band.level >= 1 {
                            assert(dirs@[band.level - 1].view() == d_before[band.level
                                - 1].view());
                        }
                    } else {
                        let t = kk - r_before.len();
                        assert(0 <= t < spec_hit_modules(curr@, modules@).len());
                        assert(ranges@[r_before.len() + t] == ranges@[kk]);
                    }
                }
                // the ledger grows by exactly the fresh bands
                let m_old = spec_levels_model(d_before);
                let m_end = spec_levels_model(dirs@);
                lemma_owed_bands_stable(g, modules@, m_old, m_end, lvl, target, offset);
                assert(m_end[lvl - 1] == prevv);
                assert(spec_linked_filter(g, m_end[lvl - 1], offset) == curr@);
                let owed_prev = spec_owed_bands(g, modules@, m_end, lvl - 1, target, offset);
                let owed_now = spec_owed_bands(g, modules@, m_end, lvl, target, offset);
                assert(owed_now == owed_prev + spec_hit_modules(curr@, modules@).map(
                    |i: int, mi: int| ((lvl as i32), mi),
                ));
                assert(ranges@.len() == owed_now.len());
                assert forall|kk: int| 0 <= kk < ranges@.len() implies spec_band_matches(
                    g,
                    modules@,
                    m_end,
                    owed_now[kk],
                    #[trigger] ranges@[kk],
                    target,
                    offset,
                ) by {
                    if kk < r_before.len() {
                        assert(ranges@[kk] == r_before[kk]);
                        assert(owed_now[kk] == owed_prev[kk]);
                        lemma_owed_bands_stable(g, modules@, m_old, m_end, lvl - 1, target,
                            offset);
                        assert(spec_band_matches(g, modules@, m_old, owed_prev[kk], r_before[kk],
                            target, offset));
                        let e = owed_prev[kk];
                        if e.0 >= 1 {
                            assert(m_end[e.0 - 1] == m_old[e.0 - 1]);
                        }
                    } else {
                        let t = kk - r_before.len();
                        assert(ranges@[r_before.len() + t] == ranges@[kk]);
                        assert(owed_now[kk] == ((lvl as i32), spec_hit_modules(
                            curr@,
                            modules@,
                        )[t]));
                    }
                }
            }
            level += 1;
        }
    }
    proof {
        let mfin = spec_levels_model(dirs@);
        if done {
            // the walk stopped early: the remaining levels found nothing
            assert forall|ll: int|
                level - 1 <= ll < depth implies spec_linked_filter(
                g,
                #[trigger] mfin[ll],
                offset,
            ) =~= Seq::<PointerData>::empty() by {
                if ll >= level {
                    assert(dirs@[ll].view() =~= Seq::<PointerDir>::empty());
                    assert(mfin[ll] == Seq::<PointerDir>::empty());
                    lemma_linked_filter_empty_prev(g, offset);
                } else {
                    assert(mfin[ll] == dirs@[level - 1].view());
                }
            }
            lemma_owed_bands_tail(g, modules@, mfin, level - 1, depth as int, target, offset);
            assert forall|l: int|
                level <= l <= depth implies spec_level_filled(
                g,
                modules@,
                (#[trigger] dirs@[l - 1]).view(),
                dirs@[l].view(),
                offset,
            ) by {
                assert(spec_outside_modules(Seq::<PointerData>::empty(), modules@) =~= Seq::<
                    PointerDir,
                >::empty());
                if l == level {
                    assert(spec_linked_filter(g, dirs@[l - 1].view(), offset) =~= Seq::<
                        PointerData,
                    >::empty());
                } else {
                    assert(dirs@[l - 1].view() =~= Seq::<PointerDir>::empty());
                    assert(dirs@[l - 1].view() == Seq::<PointerDir>::empty());
                    lemma_linked_filter_empty_prev(g, offset);
                }
                assert(dirs@[l].view().len() == 0);
            }
        }
    }
    // bind each deeper band's nodes to their child ranges
    let ghost dfin = dirs@;
    let nr: usize = ranges.len();
    let mut bi: usize = 0;
    while bi < nr
        invariant
            bi <= nr,
            depth < 0x8000_0000,
            g == global.view(),
            dirs@ == dfin,
            dirs@.len() == depth + 1,
            ranges@.len() == nr,
            forall|l: int| 0 <= l <= depth ==> (#[trigger] dirs@[l]).wf(),
            forall|l: int|
                0 <= l <= depth ==> (#[trigger] dirs@[l]).view().len()
                    <= MAX_CANDIDATES_PER_LAYER,
            forall|l: int| 0 <= l <= depth ==> spec_dirs_sorted((#[trigger] dirs@[l]).view()),
            forall|kk: int|
                0 <= kk < ranges@.len() ==> {
                    let band = #[trigger] ranges@[kk];
                    &&& 0 <= band.level <= depth
                    &&& band.results.wf()
                    &&& (band.level == 0 ==> forall|i: int|
                        0 <= i < band.results.view().len() ==> (
                        #[trigger] band.results.view()[i]).address == target
                            && band.results.view()[i].value == 0)
                    &&& (band.level >= 1 && kk >= bi ==> spec_nodes_from(
                        g,
                        dirs@[band.level - 1].view(),
                        band.results.view(),
                        offset,
                    ))
                    &&& (band.level >= 1 && kk < bi ==> spec_level_linked(
                        g,
                        dirs@[band.level - 1].view(),
                        band.results.view(),
                        offset,
                    ))
                },
            forall|kk: int|
                0 <= kk < ranges@.len() ==> spec_band_matches(
                    g,
                    modules@,
                    spec_levels_model(dirs@),
                    spec_owed_bands(
                        g,
                        modules@,
                        spec_levels_model(dirs@),
                        depth as int,
                        target,
                        offset,
                    )[kk],
                    #[trigger] ranges@[kk],
                    target,
                    offset,
                ),
        decreases nr - bi,
    {
        let ghost r_snap = ranges@;
        let lv: i32 = ranges[bi].level;
        if lv >= 1 {
            let lvu: usize = lv as usize;
            let ghost before = ranges@[bi as int].results.view();
            let mut tmp: MapQueue<PointerDir> = MapQueue::new();
            {
                let q: &mut MapQueue<PointerDir> = &mut ranges[bi].results;
                core::mem::swap(q, &mut tmp);
            }
            create_assoc_dir_index(&dirs[lvu - 1], &mut tmp, offset);
            {
                let q: &mut MapQueue<PointerDir> = &mut ranges[bi].results;
                core::mem::swap(q, &mut tmp);
            }
            proof {
                let prevd = dirs@[lvu as int - 1].view();
                let after = ranges@[bi as int].results.view();
                assert forall|i: int|
                    0 <= i < after.len() implies {
                    let nd = #[trigger] after[i];
                    &&& exists|j: int|
                        0 <= j < g.len() && (#[trigger] g[j]).address == nd.address && g[j].value
                            == nd.value
                    &&& spec_linked(prevd, nd.value, offset)
                } by {
                    assert(after[i].address == before[i].address && after[i].value
                        == before[i].value);
                    assert(exists|j: int|
                        0 <= j < g.len() && (#[trigger] g[j]).address == before[i].address
                            && g[j].value == before[i].value);
                    assert(spec_linked(prevd, before[i].value, offset));
                }
                assert(spec_level_linked(g, prevd, after, offset));
                let owed = spec_owed_bands(
                    g,
                    modules@,
                    spec_levels_model(dirs@),
                    depth as int,
                    target,
                    offset,
                );
                assert forall|kk: int| 0 <= kk < ranges@.len() implies spec_band_matches(
                    g,
                    modules@,
                    spec_levels_model(dirs@),
                    owed[kk],
                    #[trigger] ranges@[kk],
                    target,
                    offset,
                ) by {
                    if kk != bi {
                        assert(ranges@[kk] == r_snap[kk]);
                        assert(spec_band_matches(g, modules@, spec_levels_model(dirs@), owed[kk],
                            r_snap[kk], target, offset));
                    } else {
                        assert(spec_band_matches(g, modules@, spec_levels_model(dirs@), owed[kk],
                            r_snap[kk], target, offset));
                        assert(ranges@[kk].level == r_snap[kk].level);
                        assert(ranges@[kk].vma == r_snap[kk].vma);
                        assert(ranges@[kk].results.view().len()
                            == r_snap[kk].results.view().len());
                    }
                }
            }
        }
        bi += 1;
    }
    (dirs, ranges)
}

} // verus!
