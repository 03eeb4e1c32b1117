//! Fuzzy search: records that remember the bytes last seen at an address,
//! and the relative conditions a refine step applies against a fresh read.

use vstd::prelude::*;
use crate::values::{FuzzyCondition, SearchValue, ValueType, spec_le_signed, decode_le_signed,
    is_scan_width, lemma_le_signed_bounds};
use crate::bitmap::PageStatusBitmap;
use crate::matcher::{search_in_chunks_with_status, spec_single_match, ValuePair};

verus! {

/// One fuzzy record: an address, the bytes last observed there (up to
/// eight, little-endian, zero-padded), and the element type they decode
/// at.
#[derive(Debug, Clone, Copy)]
pub struct FuzzySearchResultItem {
    pub address: u64,
    pub value: [u8; 8],
    pub value_type: ValueType,
}

impl PartialEq for FuzzySearchResultItem {
    /// Records compare by address alone, as the store orders them.
    fn eq(&self, other: &Self) -> (r: bool) {
        self.address == other.address
    }
}

impl Eq for FuzzySearchResultItem {

}

impl vstd::std_specs::cmp::PartialEqSpecImpl for FuzzySearchResultItem {
    open spec fn obeys_eq_spec() -> bool {
        true
    }

    open spec fn eq_spec(&self, other: &Self) -> bool {
        self.address == other.address
    }
}

/// The number of remembered bytes an element type decodes at, capped at
/// the record's eight.
pub open spec fn spec_fuzzy_width(t: ValueType) -> int {
    if t.spec_size() > 8 {
        8
    } else {
        t.spec_size() as int
    }
}

impl FuzzySearchResultItem {
    /// The remembered bytes read as a signed integer of the record's
    /// width; a needle-typed record reads as zero.
    pub open spec fn spec_as_i64(&self) -> int {
        if self.value_type == ValueType::Pattern {
            0
        } else {
            spec_le_signed(self.value@.take(spec_fuzzy_width(self.value_type)))
        }
    }

    pub fn new(address: u64, value: [u8; 8], value_type: ValueType) -> (r: Self)
        ensures
            r == (FuzzySearchResultItem { address, value, value_type }),
    {
        FuzzySearchResultItem { address, value, value_type }
    }

    /// Builds a record from freshly read bytes, keeping at most eight and
    /// zero-padding the rest.
    pub fn from_bytes(address: u64, bytes: &[u8], value_type: ValueType) -> (r: Self)
        ensures
            r.address == address,
            r.value_type == value_type,
            r.value@.len() == 8,
            forall|i: int|
                0 <= i < 8 ==> r.value@[i] == if i < bytes@.len() {
                    bytes@[i]
                } else {
                    0u8
                },
    {
        let mut value: [u8; 8] = [0u8; 8];
        let len: usize = if bytes.len() < 8 {
            bytes.len()
        } else {
            8
        };
        let mut i: usize = 0;
        while i < len
            invariant
                i <= len,
                len <= 8,
                len <= bytes@.len(),
                len == if bytes@.len() < 8 {
                    bytes@.len() as int
                } else {
                    8
                },
                value@.len() == 8,
                forall|j: int| 0 <= j < i ==> value@[j] == bytes@[j],
                forall|j: int| i <= j < 8 ==> value@[j] == 0u8,
            decreases len - i,
        {
            value[i] = *vstd::slice::slice_index_get(bytes, i);
            i += 1;
        }
        FuzzySearchResultItem { address, value, value_type }
    }

    /// Bytes of this record that carry data.
    pub fn value_size(&self) -> (r: usize)
        ensures
            r == self.value_type.spec_size(),
    {
        self.value_type.size()
    }

    /// The remembered bytes as a widened signed integer.
    pub fn as_i64(&self) -> (r: i64)
        requires
            !self.value_type.spec_is_float_type(),
        ensures
            r == self.spec_as_i64(),
    {
        match self.value_type {
            ValueType::Pattern => 0,
            _ => {
                let width: usize = if self.value_type.size() > 8 {
                    8
                } else {
                    self.value_type.size()
                };
                let whole: &[u8] = self.value.as_slice();
                let sub: &[u8] = vstd::slice::slice_subrange(whole, 0, width);
                proof {
                    assert(sub@ =~= self.value@.take(spec_fuzzy_width(self.value_type)));
                }
                let v: i128 = decode_le_signed(sub);
                proof {
                    crate::values::lemma_le_signed_bounds(sub@);
                    vstd::arithmetic::power2::lemma2_to64();
                    vstd::arithmetic::power2::lemma2_to64_rest();
                }
                v as i64
            },
        }
    }

    /// Whether freshly read bytes satisfy `condition` against this
    /// record.  Floating-point records are judged by the surrounding
    /// application.
    pub fn matches_condition(&self, new_bytes: &[u8], condition: FuzzyCondition) -> (r: bool)
        requires
            !self.value_type.spec_is_float_type(),
        ensures
            r == spec_fuzzy_cond(
                self.spec_as_i64(),
                spec_decoded_new(new_bytes@, self.value_type),
                condition,
            ),
    {
        let new_item: FuzzySearchResultItem = FuzzySearchResultItem::from_bytes(
            self.address,
            new_bytes,
            self.value_type,
        );
        proof {
            assert(new_item.value@ =~= spec_padded8(new_bytes@));
            assert(new_item.spec_as_i64() == spec_decoded_new(new_bytes@, self.value_type));
        }
        let old_val: i64 = self.as_i64();
        let new_val: i64 = new_item.as_i64();
        fuzzy_cond_i64(old_val, new_val, condition)
    }

    /// A copy of this record remembering freshly read bytes instead.
    pub fn with_new_value(&self, new_bytes: &[u8]) -> (r: Self)
        ensures
            r.address == self.address,
            r.value_type == self.value_type,
            forall|i: int|
                0 <= i < 8 ==> r.value@[i] == if i < new_bytes@.len() {
                    new_bytes@[i]
                } else {
                    0u8
                },
    {
        FuzzySearchResultItem::from_bytes(self.address, new_bytes, self.value_type)
    }
}

/// Byte image of a fresh read as a fuzzy record stores it: the first
/// eight bytes, zero-padded.
pub open spec fn spec_padded8(bytes: Seq<u8>) -> Seq<u8> {
    Seq::new(
        8,
        |i: int|
            if i < bytes.len() {
                bytes[i]
            } else {
                0u8
            },
    )
}

/// The widened signed value a fresh read decodes to at a given element
/// type; a needle-typed read decodes to zero.
pub open spec fn spec_decoded_new(bytes: Seq<u8>, t: ValueType) -> int {
    if t == ValueType::Pattern {
        0
    } else {
        spec_le_signed(spec_padded8(bytes).take(spec_fuzzy_width(t)))
    }
}

/// Truncating division by a positive divisor, rounding toward zero as the
/// machine division does.
pub open spec fn spec_trunc_div(a: int, b: int) -> int
    recommends
        b > 0,
{
    if a >= 0 {
        a / b
    } else {
        -((-a) / b)
    }
}

/// The percentage threshold `base * (100 +/- percent) / 100`, truncated
/// toward zero.
pub open spec fn spec_percent_threshold(base: int, percent: int, increase: bool) -> int {
    if increase {
        spec_trunc_div(base * (100 + percent), 100)
    } else {
        spec_trunc_div(base * (100 - percent), 100)
    }
}

/// The relative conditions on widened integers.  Differences and bounds
/// are exact (mathematical) comparisons of the widened values; percentage
/// forms read the remembered value as the base, and fall back to a sign
/// test when the base is zero.
pub open spec fn spec_fuzzy_cond(old_val: int, new_val: int, condition: FuzzyCondition) -> bool {
    let diff = new_val - old_val;
    match condition {
        FuzzyCondition::Initial => true,
        FuzzyCondition::Unchanged => old_val == new_val,
        FuzzyCondition::Changed => old_val != new_val,
        FuzzyCondition::Increased => new_val > old_val,
        FuzzyCondition::Decreased => new_val < old_val,
        FuzzyCondition::IncreasedBy(amount) => diff == amount,
        FuzzyCondition::DecreasedBy(amount) => diff == -(amount as int),
        FuzzyCondition::IncreasedByRange(lo, hi) => lo <= diff <= hi,
        FuzzyCondition::DecreasedByRange(lo, hi) => lo <= -diff <= hi,
        FuzzyCondition::IncreasedByPercent(percent) => if old_val == 0 {
            new_val > 0
        } else {
            new_val >= spec_percent_threshold(old_val, percent as int, true)
        },
        FuzzyCondition::DecreasedByPercent(percent) => if old_val == 0 {
            new_val < 0
        } else {
            new_val <= spec_percent_threshold(old_val, percent as int, false)
        },
    }
}

/// The first refine condition accepts every record, whatever the old and
/// new values are.
pub proof fn lemma_initial_accepts_all(old_val: int, new_val: int)
    ensures
        spec_fuzzy_cond(old_val, new_val, FuzzyCondition::Initial),
{
}

/// A widened value times a percentage factor stays well inside the
/// 128-bit range.
proof fn lemma_percent_product_fits(v: int, f: int)
    requires
        -0x8000_0000_0000_0000 <= v <= 0x7FFF_FFFF_FFFF_FFFF,
        -0x8000_0000_0000_0064 <= f <= 0x8000_0000_0000_0064,
    ensures
        -0x8000_0000_0000_0000_0000_0000_0000_0000 < v * f
            < 0x8000_0000_0000_0000_0000_0000_0000_0000,
{
    assert(-0x8000_0000_0000_0000_0000_0000_0000_0000 < v * f
        < 0x8000_0000_0000_0000_0000_0000_0000_0000) by (nonlinear_arith)
        requires
            -0x8000_0000_0000_0000 <= v <= 0x7FFF_FFFF_FFFF_FFFF,
            -0x8000_0000_0000_0064 <= f <= 0x8000_0000_0000_0064,
    ;
}

/// Truncating division of `a` by 100.
fn trunc_div_100(a: i128) -> (r: i128)
    requires
        a > -0x8000_0000_0000_0000_0000_0000_0000_0000,
    ensures
        r == spec_trunc_div(a as int, 100),
{
    if a >= 0 {
        ((a as u128) / 100) as i128
    } else {
        let m: u128 = (-a) as u128;
        -((m / 100) as i128)
    }
}

/// Evaluates a relative condition on two widened integers.
pub fn fuzzy_cond_i64(old_val: i64, new_val: i64, condition: FuzzyCondition) -> (r: bool)
    ensures
        r == spec_fuzzy_cond(old_val as int, new_val as int, condition),
{
    match condition {
        FuzzyCondition::Initial => true,
        FuzzyCondition::Unchanged => old_val == new_val,
        FuzzyCondition::Changed => old_val != new_val,
        FuzzyCondition::Increased => new_val > old_val,
        FuzzyCondition::Decreased => new_val < old_val,
        FuzzyCondition::IncreasedBy(amount) => {
            let diff: i128 = new_val as i128 - old_val as i128;
            diff == amount as i128
        },
        FuzzyCondition::DecreasedBy(amount) => {
            let diff: i128 = new_val as i128 - old_val as i128;
            diff == -(amount as i128)
        },
        FuzzyCondition::IncreasedByRange(lo, hi) => {
            let diff: i128 = new_val as i128 - old_val as i128;
            lo as i128 <= diff && diff <= hi as i128
        },
        FuzzyCondition::DecreasedByRange(lo, hi) => {
            let diff: i128 = old_val as i128 - new_val as i128;
            lo as i128 <= diff && diff <= hi as i128
        },
        FuzzyCondition::IncreasedByPercent(percent) => {
            if old_val == 0 {
                new_val > 0
            } else {
                let f: i128 = 100 + percent as i128;
                proof {
                    lemma_percent_product_fits(old_val as int, f as int);
                }
                let t: i128 = trunc_div_100(old_val as i128 * f);
                new_val as i128 >= t
            }
        },
        FuzzyCondition::DecreasedByPercent(percent) => {
            if old_val == 0 {
                new_val < 0
            } else {
                let f: i128 = 100 - percent as i128;
                proof {
                    lemma_percent_product_fits(old_val as int, f as int);
                }
                let t: i128 = trunc_div_100(old_val as i128 * f);
                new_val as i128 <= t
            }
        },
    }
}

/// The records a refine step keeps: of each `(remembered, fresh)` pair,
/// the fresh record survives exactly when the condition relates the two
/// decoded values.
pub open spec fn spec_refine(
    pairs: Seq<(FuzzySearchResultItem, FuzzySearchResultItem)>,
    condition: FuzzyCondition,
) -> Seq<FuzzySearchResultItem>
    decreases pairs.len(),
{
    if pairs.len() == 0 {
        Seq::empty()
    } else {
        let rest = spec_refine(pairs.drop_last(), condition);
        let pair = pairs.last();
        if spec_fuzzy_cond(pair.0.spec_as_i64(), pair.1.spec_as_i64(), condition) {
            rest.push(pair.1)
        } else {
            rest
        }
    }
}

/// Applies a refine condition to remembered records paired with their
/// freshly read counterparts, keeping the fresh survivors in order.
pub fn fuzzy_refine_filter(
    pairs: &Vec<(FuzzySearchResultItem, FuzzySearchResultItem)>,
    condition: FuzzyCondition,
) -> (r: Vec<FuzzySearchResultItem>)
    requires
        forall|i: int|
            0 <= i < pairs@.len() ==> !(#[trigger] pairs@[i]).0.value_type.spec_is_float_type()
                && !pairs@[i].1.value_type.spec_is_float_type(),
    ensures
        r@ == spec_refine(pairs@, condition),
{
    let mut r: Vec<FuzzySearchResultItem> = Vec::new();
    let n: usize = pairs.len();
    let mut i: usize = 0;
    proof {
        assert(pairs@.take(0) =~= Seq::<(FuzzySearchResultItem, FuzzySearchResultItem)>::empty());
    }
    while i < n
        invariant
            i <= n,
            n == pairs@.len(),
            forall|j: int|
                0 <= j < pairs@.len() ==> !(#[trigger] pairs@[j]).0.value_type.spec_is_float_type()
                    && !pairs@[j].1.value_type.spec_is_float_type(),
            r@ == spec_refine(pairs@.take(i as int), condition),
        decreases n - i,
    {
        let old_val: i64 = pairs[i].0.as_i64();
        let new_val: i64 = pairs[i].1.as_i64();
        let keep: bool = fuzzy_cond_i64(old_val, new_val, condition);
        proof {
            assert(pairs@.take(i + 1).drop_last() =~= pairs@.take(i as int));
            assert(pairs@.take(i + 1).last() == pairs@[i as int]);
        }
        if keep {
            r.push(pairs[i].1);
        }
        i += 1;
    }
    proof {
        assert(pairs@.take(n as int) =~= pairs@);
    }
    r
}

/// A refine step never invents a record: every survivor is the fresh
/// record of some refined pair.
pub proof fn lemma_refine_subset(
    pairs: Seq<(FuzzySearchResultItem, FuzzySearchResultItem)>,
    condition: FuzzyCondition,
    k: int,
)
    requires
        0 <= k < spec_refine(pairs, condition).len(),
    ensures
        exists|j: int|
            0 <= j < pairs.len() && spec_refine(pairs, condition)[k] == (#[trigger] pairs[j]).1,
    decreases pairs.len(),
{
    if pairs.len() > 0 {
        let rest = spec_refine(pairs.drop_last(), condition);
        if k < rest.len() {
            lemma_refine_subset(pairs.drop_last(), condition, k);
            let j = choose|j: int|
                0 <= j < pairs.drop_last().len() && rest[k] == (#[trigger] pairs.drop_last()[j]).1;
            assert(pairs[j] == pairs.drop_last()[j]);
            assert(spec_refine(pairs, condition)[k] == pairs[j].1);
        } else {
            assert(spec_refine(pairs, condition)[k] == pairs[pairs.len() - 1].1);
        }
    }
}

/// Whether buffer offset `off` is a slot the fuzzy initial pass records:
/// an aligned element inside the buffer and the requested region whose
/// page was read.
pub open spec fn spec_fuzzy_slot(
    buffer: Seq<u8>,
    buffer_addr: u64,
    region_start: u64,
    region_end: u64,
    esize: nat,
    bm: &PageStatusBitmap,
    off: int,
) -> bool {
    &&& 0 <= off
    &&& off + esize <= buffer.len()
    &&& (buffer_addr + off) % (esize as int) == 0
    &&& region_start <= buffer_addr + off
    &&& buffer_addr + off + esize <= region_end
    &&& bm.spec_page_success((off / 4096) as nat)
}

/// Whether a found pair sits on some slot of the chunk.
pub open spec fn spec_pair_on_slot(
    buffer: Seq<u8>,
    buffer_addr: u64,
    region_start: u64,
    region_end: u64,
    esize: nat,
    bm: &PageStatusBitmap,
    pair: ValuePair,
) -> bool {
    exists|off: int|
        spec_fuzzy_slot(buffer, buffer_addr, region_start, region_end, esize, bm, off)
            && pair.addr == buffer_addr + off
}

/// Whether `item` records some slot of the chunk at the given type.
pub open spec fn spec_recorded_slot(
    buffer: Seq<u8>,
    buffer_addr: u64,
    region_start: u64,
    region_end: u64,
    t: ValueType,
    bm: &PageStatusBitmap,
    item: FuzzySearchResultItem,
) -> bool {
    exists|off: int|
        spec_fuzzy_slot(buffer, buffer_addr, region_start, region_end, t.spec_size() as nat, bm, off)
            && item.address == buffer_addr + off && item.value_type == t && item.value@
            == spec_padded8(buffer.subrange(off, off + t.spec_size()))
}

/// The initial fuzzy pass over one read chunk: records every aligned,
/// readable slot of the requested region with the bytes it holds, in
/// ascending address order.
pub fn fuzzy_initial_scan_buffer(
    buffer: &[u8],
    buffer_addr: u64,
    region_start: u64,
    region_end: u64,
    value_type: ValueType,
    page_status: &PageStatusBitmap,
) -> (r: Vec<FuzzySearchResultItem>)
    requires
        !value_type.spec_is_float_type(),
        is_scan_width(value_type.spec_size() as nat),
        buffer@.len() <= 0x1000_0000,
        buffer_addr <= 0xFFFF_FFFF_0000_0000,
    ensures
        forall|k: int|
            0 <= k < r@.len() ==> #[trigger] spec_recorded_slot(
                buffer@,
                buffer_addr,
                region_start,
                region_end,
                value_type,
                page_status,
                r@[k],
            ),
        forall|off: int|
            #[trigger] spec_fuzzy_slot(
                buffer@,
                buffer_addr,
                region_start,
                region_end,
                value_type.spec_size() as nat,
                page_status,
                off,
            ) ==> exists|k: int|
                0 <= k < r@.len() && (#[trigger] r@[k]).address == buffer_addr + off,
        forall|k1: int, k2: int|
            0 <= k1 < k2 < r@.len() ==> r@[k1].address < r@[k2].address,
{
    let esize: usize = value_type.size();
    let catch_all: SearchValue = SearchValue::range(i128::MIN, i128::MAX, value_type, false);
    proof {
        // the full interval accepts every decoded value
        assert forall|s: Seq<u8>|
            s.len() >= catch_all.spec_required_len() implies catch_all.spec_matched(s) by {
            lemma_le_signed_bounds(s.subrange(0, value_type.spec_size() as int));
            vstd::arithmetic::power2::lemma2_to64();
            vstd::arithmetic::power2::lemma2_to64_rest();
            vstd::arithmetic::power2::lemma_pow2_adds(64, 63);
            assert(vstd::arithmetic::power2::pow2(127)
                == 0x8000_0000_0000_0000_0000_0000_0000_0000);
        }
    }
    let mut slots: Vec<ValuePair> = Vec::new();
    search_in_chunks_with_status(
        buffer,
        buffer_addr,
        region_start,
        region_end,
        esize,
        &catch_all,
        value_type,
        page_status,
        &mut slots,
    );
    let ghost esz = esize as nat;
    proof {
        // a slot and a catch-all match are the same thing
        assert forall|off: int|
            spec_single_match(
                buffer@,
                buffer_addr,
                region_start,
                region_end,
                esz,
                catch_all,
                page_status,
                off,
            ) == spec_fuzzy_slot(
                buffer@,
                buffer_addr,
                region_start,
                region_end,
                esz,
                page_status,
                off,
            ) by {
            if spec_fuzzy_slot(
                buffer@,
                buffer_addr,
                region_start,
                region_end,
                esz,
                page_status,
                off,
            ) {
                assert(buffer@.skip(off).len() >= catch_all.spec_required_len());
                assert(catch_all.spec_matched(buffer@.skip(off)));
            }
        }
    }
    proof {
        assert forall|k: int| 0 <= k < slots@.len() implies #[trigger] spec_pair_on_slot(
            buffer@,
            buffer_addr,
            region_start,
            region_end,
            esz,
            page_status,
            slots@[k],
        ) by {
            assert(slots@[k].value_type == value_type);
            let p = choose|p: int|
                spec_single_match(
                    buffer@,
                    buffer_addr,
                    region_start,
                    region_end,
                    esz,
                    catch_all,
                    page_status,
                    p,
                ) && slots@[k].addr == buffer_addr + p;
            assert(spec_fuzzy_slot(
                buffer@,
                buffer_addr,
                region_start,
                region_end,
                esz,
                page_status,
                p,
            ));
        }
    }
    let n: usize = slots.len();
    let mut r: Vec<FuzzySearchResultItem> = Vec::new();
    let mut i: usize = 0;
    while i < n
        invariant
            i <= n,
            n == slots@.len(),
            esize == value_type.spec_size(),
            esz == esize as nat,
            buffer@.len() <= 0x1000_0000,
            buffer_addr <= 0xFFFF_FFFF_0000_0000,
            r@.len() == i,
            forall|k: int|
                0 <= k < slots@.len() ==> #[trigger] spec_pair_on_slot(
                    buffer@,
                    buffer_addr,
                    region_start,
                    region_end,
                    esz,
                    page_status,
                    slots@[k],
                ),
            forall|k: int|
                0 <= k < i ==> #[trigger] spec_recorded_slot(
                    buffer@,
                    buffer_addr,
                    region_start,
                    region_end,
                    value_type,
                    page_status,
                    r@[k],
                ),
            forall|k: int| 0 <= k < i ==> (#[trigger] r@[k]).address == slots@[k].addr,
            forall|k1: int, k2: int|
                0 <= k1 < k2 < slots@.len() ==> slots@[k1].addr < slots@[k2].addr,
        decreases n - i,
    {
        let addr: u64 = slots[i].addr;
        proof {
            assert(spec_pair_on_slot(
                buffer@,
                buffer_addr,
                region_start,
                region_end,
                esz,
                page_status,
                slots@[i as int],
            ));
        }
        let ghost off_g: int = choose|off: int|
            spec_fuzzy_slot(
                buffer@,
                buffer_addr,
                region_start,
                region_end,
                esz,
                page_status,
                off,
            ) && slots@[i as int].addr == buffer_addr + off;
        let off: usize = (addr - buffer_addr) as usize;
        proof {
            assert(off == off_g);
        }
        let bytes: &[u8] = vstd::slice::slice_subrange(buffer, off, off + esize);
        let item: FuzzySearchResultItem = FuzzySearchResultItem::from_bytes(
            addr,
            bytes,
            value_type,
        );
        proof {
            assert(bytes@ =~= buffer@.subrange(off_g, off_g + value_type.spec_size()));
            assert(item.value@ =~= spec_padded8(bytes@));
            assert(spec_recorded_slot(
                buffer@,
                buffer_addr,
                region_start,
                region_end,
                value_type,
                page_status,
                item,
            ));
        }
        r.push(item);
        i += 1;
    }
    proof {
        assert forall|off: int|
            spec_fuzzy_slot(
                buffer@,
                buffer_addr,
                region_start,
                region_end,
                esz,
                page_status,
                off,
            ) implies exists|k: int|
            0 <= k < r@.len() && (#[trigger] r@[k]).address == buffer_addr + off by {
            assert(spec_single_match(
                buffer@,
                buffer_addr,
                region_start,
                region_end,
                esz,
                catch_all,
                page_status,
                off,
            ));
            assert(crate::matcher::spec_emitted(slots@, 0, buffer_addr + off));
            let k = choose|k: int| 0 <= k < slots@.len() && slots@[k].addr == buffer_addr + off;
            assert(r@[k].address == buffer_addr + off);
        }
    }
    r
}

} // verus!
