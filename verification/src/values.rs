//! Query value model: value types, little-endian decoding, search values and
//! their matching rules, fuzzy-refine conditions, and query validation.

use vstd::prelude::*;
use vstd::arithmetic::power2::{pow2, lemma2_to64, lemma2_to64_rest, lemma_pow2_adds};
use vstd::bytes::{spec_u16_from_le_bytes, spec_u32_from_le_bytes, spec_u64_from_le_bytes,
    spec_u128_from_le_bytes, spec_u128_to_le_bytes, u16_from_le_bytes, u32_from_le_bytes,
    u64_from_le_bytes, u128_from_le_bytes, u128_to_le_bytes};

verus! {

/// The width and interpretation of one scanned element.
///
/// `Auto` and `Xor` are spelled distinctly by the query parser but scan as
/// 4-byte little-endian integers.  `Pattern` stands for a masked byte needle
/// whose length lives in the needle itself, so its own `size` is 0.
#[derive(Debug, Clone, Copy, PartialEq, Eq, Hash, Structural)]
pub enum ValueType {
    Byte,
    Word,
    Dword,
    Qword,
    Float,
    Double,
    Auto,
    Xor,
    Pattern,
}

impl ValueType {
    /// Numeric identifier of each type, as the external caller encodes it.
    pub open spec fn spec_to_id(self) -> i32 {
        match self {
            ValueType::Byte => 0,
            ValueType::Word => 1,
            ValueType::Dword => 2,
            ValueType::Qword => 3,
            ValueType::Float => 4,
            ValueType::Double => 5,
            ValueType::Auto => 6,
            ValueType::Xor => 7,
            ValueType::Pattern => 8,
        }
    }

    /// Decodes a numeric type identifier; ids outside `0..=7` are refused.
    pub fn from_id(id: i32) -> (r: Option<Self>)
        ensures
            r is Some <==> 0 <= id <= 7,
            r matches Some(t) ==> t.spec_to_id() == id,
    {
        match id {
            0 => Some(ValueType::Byte),
            1 => Some(ValueType::Word),
            2 => Some(ValueType::Dword),
            3 => Some(ValueType::Qword),
            4 => Some(ValueType::Float),
            5 => Some(ValueType::Double),
            6 => Some(ValueType::Auto),
            7 => Some(ValueType::Xor),
            _ => None,
        }
    }

    pub fn to_id(&self) -> (r: i32)
        ensures
            r == self.spec_to_id(),
    {
        match self {
            ValueType::Byte => 0,
            ValueType::Word => 1,
            ValueType::Dword => 2,
            ValueType::Qword => 3,
            ValueType::Float => 4,
            ValueType::Double => 5,
            ValueType::Auto => 6,
            ValueType::Xor => 7,
            ValueType::Pattern => 8,
        }
    }

    /// The suffix letter each fixed-width type answers to, either case.
    pub open spec fn spec_from_char(c: char) -> Option<ValueType> {
        if c == 'B' || c == 'b' {
            Some(ValueType::Byte)
        } else if c == 'W' || c == 'w' {
            Some(ValueType::Word)
        } else if c == 'D' || c == 'd' {
            Some(ValueType::Dword)
        } else if c == 'Q' || c == 'q' {
            Some(ValueType::Qword)
        } else if c == 'F' || c == 'f' {
            Some(ValueType::Float)
        } else if c == 'E' || c == 'e' {
            Some(ValueType::Double)
        } else if c == 'A' || c == 'a' {
            Some(ValueType::Auto)
        } else if c == 'X' || c == 'x' {
            Some(ValueType::Xor)
        } else {
            None
        }
    }

    pub fn from_char(c: char) -> (r: Option<Self>)
        ensures
            r == ValueType::spec_from_char(c),
    {
        match c {
            'B' | 'b' => Some(ValueType::Byte),
            'W' | 'w' => Some(ValueType::Word),
            'D' | 'd' => Some(ValueType::Dword),
            'Q' | 'q' => Some(ValueType::Qword),
            'F' | 'f' => Some(ValueType::Float),
            'E' | 'e' => Some(ValueType::Double),
            'A' | 'a' => Some(ValueType::Auto),
            'X' | 'x' => Some(ValueType::Xor),
            _ => None,
        }
    }

    /// Element width in bytes.
    pub open spec fn spec_size(&self) -> usize {
        match self {
            ValueType::Byte => 1usize,
            ValueType::Word => 2usize,
            ValueType::Dword => 4usize,
            ValueType::Qword => 8usize,
            ValueType::Float => 4usize,
            ValueType::Double => 8usize,
            ValueType::Auto => 4usize,
            ValueType::Xor => 4usize,
            ValueType::Pattern => 0usize,
        }
    }

    #[verifier::when_used_as_spec(spec_size)]
    pub fn size(&self) -> (r: usize)
        ensures
            r == self.spec_size(),
    {
        match self {
            ValueType::Byte => 1,
            ValueType::Word => 2,
            ValueType::Dword => 4,
            ValueType::Qword => 8,
            ValueType::Float => 4,
            ValueType::Double => 8,
            ValueType::Auto => 4,
            ValueType::Xor => 4,
            ValueType::Pattern => 0,
        }
    }

    pub open spec fn spec_is_float_type(&self) -> bool {
        *self == ValueType::Float || *self == ValueType::Double
    }

    #[verifier::when_used_as_spec(spec_is_float_type)]
    pub fn is_float_type(&self) -> (r: bool)
        ensures
            r == self.spec_is_float_type(),
    {
        matches!(self, ValueType::Float | ValueType::Double)
    }
}

/// True of the byte widths at which the engine decodes integers.
pub open spec fn is_scan_width(n: nat) -> bool {
    n == 1 || n == 2 || n == 4 || n == 8 || n == 16
}

/// Little-endian unsigned value of a byte sequence, dispatched on the widths
/// the engine scans at.
pub open spec fn spec_le_unsigned(s: Seq<u8>) -> nat
    recommends
        is_scan_width(s.len()),
{
    if s.len() == 1 {
        s[0] as nat
    } else if s.len() == 2 {
        spec_u16_from_le_bytes(s) as nat
    } else if s.len() == 4 {
        spec_u32_from_le_bytes(s) as nat
    } else if s.len() == 8 {
        spec_u64_from_le_bytes(s) as nat
    } else if s.len() == 16 {
        spec_u128_from_le_bytes(s) as nat
    } else {
        0
    }
}

/// Two's-complement signed reading of a little-endian byte sequence.
pub open spec fn spec_le_signed(s: Seq<u8>) -> int {
    let u = spec_le_unsigned(s) as int;
    if u >= pow2((8 * s.len() - 1) as nat) {
        u - pow2(8 * s.len())
    } else {
        u
    }
}

/// Decodes `bytes` as a little-endian two's-complement integer of one of the
/// scanned widths and widens it to `i128`.
pub fn decode_le_signed(bytes: &[u8]) -> (v: i128)
    requires
        is_scan_width(bytes@.len()),
    ensures
        v == spec_le_signed(bytes@),
{
    proof {
        lemma2_to64();
        lemma2_to64_rest();
        lemma_pow2_adds(64, 63);
        lemma_pow2_adds(64, 64);
    }
    let n: usize = bytes.len();
    if n == 1 {
        let u: u8 = *vstd::slice::slice_index_get(bytes, 0);
        if u >= 0x80 {
            u as i128 - 0x100
        } else {
            u as i128
        }
    } else if n == 2 {
        let u: u16 = u16_from_le_bytes(bytes);
        if u >= 0x8000 {
            u as i128 - 0x1_0000
        } else {
            u as i128
        }
    } else if n == 4 {
        let u: u32 = u32_from_le_bytes(bytes);
        if u >= 0x8000_0000 {
            u as i128 - 0x1_0000_0000
        } else {
            u as i128
        }
    } else if n == 8 {
        let u: u64 = u64_from_le_bytes(bytes);
        if u >= 0x8000_0000_0000_0000 {
            u as i128 - 0x1_0000_0000_0000_0000
        } else {
            u as i128
        }
    } else {
        let u: u128 = u128_from_le_bytes(bytes);
        proof {
            assert(pow2(127) == 0x8000_0000_0000_0000_0000_0000_0000_0000);
            assert(pow2(128) == 0x1_0000_0000_0000_0000_0000_0000_0000_0000);
        }
        if u >= 0x8000_0000_0000_0000_0000_0000_0000_0000 {
            (u - 0x8000_0000_0000_0000_0000_0000_0000_0000) as i128
                + (-0x8000_0000_0000_0000_0000_0000_0000_0000i128)
        } else {
            u as i128
        }
    }
}

/// The signed reading of a scanned-width byte sequence lies within the
/// two's-complement range of its width.
pub proof fn lemma_le_signed_bounds(s: Seq<u8>)
    requires
        is_scan_width(s.len()),
    ensures
        -pow2((8 * s.len() - 1) as nat) <= spec_le_signed(s) < pow2((8 * s.len() - 1) as nat),
{
    lemma2_to64();
    lemma2_to64_rest();
    lemma_pow2_adds(64, 63);
    lemma_pow2_adds(64, 64);
    if s.len() == 1 {
        assert(spec_le_unsigned(s) < 0x100);
    } else if s.len() == 2 {
        assert(spec_le_unsigned(s) < 0x1_0000);
    } else if s.len() == 4 {
        assert(spec_le_unsigned(s) < 0x1_0000_0000);
    } else if s.len() == 8 {
        assert(spec_le_unsigned(s) < 0x1_0000_0000_0000_0000);
    } else {
        assert(spec_le_unsigned(s) < pow2(128));
    }
}

/// Faults a query value can report when matched against a byte slice.
#[derive(Debug, Clone, Copy, PartialEq, Eq, Structural)]
pub enum ValueError {
    /// The slice holds fewer bytes than the value's width.
    SliceTooSmall,
    /// The variant does not support this operation.
    UnsupportedType,
}

/// Whether a masked byte needle accepts the front of `data`: every needle
/// byte must agree with the data byte on the bits its mask keeps.
pub open spec fn spec_pattern_matches(pat: Seq<(u8, u8)>, data: Seq<u8>) -> bool {
    &&& data.len() >= pat.len()
    &&& forall|i: int|
        0 <= i < pat.len() ==> (data[i] & #[trigger] pat[i].1) == (pat[i].0 & pat[i].1)
}

/// Relevance order for group queries: `Unordered` searches a band on both
/// sides of the anchor, `Ordered` only after it and in value order.
#[derive(Debug, Clone, Copy, PartialEq, Eq, Structural)]
pub enum SearchMode {
    Unordered,
    Ordered,
}

/// One query predicate over the bytes of a scanned element.
///
/// Exact and ranged floating-point values are evaluated by the surrounding
/// application; the verified engine carries the integer and masked-pattern
/// forms.
#[derive(Debug, Clone)]
pub enum SearchValue {
    /// An exact integer, stored as its little-endian bytes; only the first
    /// `value_type.size()` of them take part in matching.
    FixedInt { value: [u8; 16], value_type: ValueType },
    /// A closed interval of two's-complement integers; `exclude` inverts the
    /// match.
    RangeInt { start: i128, end: i128, value_type: ValueType, exclude: bool },
    /// A masked byte needle of `(value, mask)` pairs.
    Pattern { pattern: Vec<(u8, u8)> },
}

impl SearchValue {
    /// How many bytes of memory one match inspects.
    pub open spec fn spec_required_len(&self) -> nat {
        match self {
            SearchValue::FixedInt { value_type, .. } => value_type.spec_size() as nat,
            SearchValue::RangeInt { value_type, .. } => value_type.spec_size() as nat,
            SearchValue::Pattern { pattern } => pattern@.len(),
        }
    }

    /// The matching rule itself, on a byte sequence that is long enough.
    pub open spec fn spec_matched(&self, other: Seq<u8>) -> bool
        recommends
            other.len() >= self.spec_required_len(),
    {
        match self {
            SearchValue::FixedInt { value, value_type } => other.subrange(
                0,
                value_type.spec_size() as int,
            ) =~= value@.subrange(0, value_type.spec_size() as int),
            SearchValue::RangeInt { start, end, value_type, exclude } => {
                let x = spec_le_signed(other.subrange(0, value_type.spec_size() as int));
                if *exclude {
                    x < *start || x > *end
                } else {
                    *start <= x <= *end
                }
            },
            SearchValue::Pattern { pattern } => spec_pattern_matches(pattern@, other),
        }
    }

    /// Builds an exact-integer value from `value`, keeping its little-endian
    /// bytes.
    pub fn fixed(value: i128, value_type: ValueType) -> (r: Self)
        ensures
            r matches SearchValue::FixedInt { value: b, value_type: t } && t == value_type && b@
                =~= spec_u128_to_le_bytes(value as u128),
    {
        let bytes: Vec<u8> = u128_to_le_bytes(value as u128);
        let mut arr: [u8; 16] = [0u8; 16];
        let mut i: usize = 0;
        while i < 16
            invariant
                bytes@.len() == 16,
                i <= 16,
                forall|j: int| 0 <= j < i ==> arr@[j] == bytes@[j],
            decreases 16 - i,
        {
            arr[i] = bytes[i];
            i += 1;
        }
        proof {
            assert(arr@ =~= bytes@);
        }
        SearchValue::FixedInt { value: arr, value_type }
    }

    /// Builds a closed-interval value.
    pub fn range(start: i128, end: i128, value_type: ValueType, exclude: bool) -> (r: Self)
        ensures
            r == (SearchValue::RangeInt { start, end, value_type, exclude }),
    {
        SearchValue::RangeInt { start, end, value_type, exclude }
    }

    /// The element type this value scans at; a masked needle scans at
    /// `Pattern`.
    pub open spec fn spec_value_type(&self) -> ValueType {
        match self {
            SearchValue::FixedInt { value_type, .. } => *value_type,
            SearchValue::RangeInt { value_type, .. } => *value_type,
            SearchValue::Pattern { .. } => ValueType::Pattern,
        }
    }

    #[verifier::when_used_as_spec(spec_value_type)]
    pub fn value_type(&self) -> (r: ValueType)
        ensures
            r == self.spec_value_type(),
    {
        match self {
            SearchValue::FixedInt { value_type, .. } => *value_type,
            SearchValue::RangeInt { value_type, .. } => *value_type,
            SearchValue::Pattern { .. } => ValueType::Pattern,
        }
    }

    pub fn is_fixed(&self) -> (r: bool)
        ensures
            r == (self matches SearchValue::FixedInt { .. }),
    {
        matches!(self, SearchValue::FixedInt { .. })
    }

    pub fn is_fixed_int(&self) -> (r: bool)
        ensures
            r == (self matches SearchValue::FixedInt { .. }),
    {
        matches!(self, SearchValue::FixedInt { .. })
    }

    pub fn is_range(&self) -> (r: bool)
        ensures
            r == (self matches SearchValue::RangeInt { .. }),
    {
        matches!(self, SearchValue::RangeInt { .. })
    }

    /// The little-endian bytes an exact integer compares with; other
    /// variants carry no byte image.
    pub fn bytes(&self) -> (r: Result<&[u8], ValueError>)
        ensures
            r is Ok <==> self matches SearchValue::FixedInt { .. },
            r matches Ok(b) ==> self matches SearchValue::FixedInt { value, value_type } && b@
                =~= value@.subrange(0, value_type.spec_size() as int),
    {
        match self {
            SearchValue::FixedInt { value, value_type } => {
                let size: usize = value_type.size();
                let whole: &[u8] = value.as_slice();
                Ok(vstd::slice::slice_subrange(whole, 0, size))
            },
            _ => Err(ValueError::UnsupportedType),
        }
    }

    /// Whether [`Self::matched`] can decide this variant at all: the needle
    /// form is served by [`Self::match_pattern`], and an interval needs an
    /// integer width to decode at.
    pub open spec fn spec_match_supported(&self) -> bool {
        match self {
            SearchValue::FixedInt { .. } => true,
            SearchValue::RangeInt { value_type, .. } => *value_type != ValueType::Pattern,
            SearchValue::Pattern { .. } => false,
        }
    }

    /// Decides whether the bytes at a candidate location satisfy this value.
    ///
    /// Succeeds exactly when the variant is supported and the slice is long
    /// enough.
    pub fn matched(&self, other: &[u8]) -> (r: Result<bool, ValueError>)
        ensures
            r is Ok <==> self.spec_match_supported() && other@.len()
                >= self.spec_required_len(),
            r matches Ok(b) ==> b == self.spec_matched(other@),
            !self.spec_match_supported() ==> r == Err::<bool, ValueError>(
                ValueError::UnsupportedType,
            ),
            self.spec_match_supported() && other@.len() < self.spec_required_len() ==> r
                == Err::<bool, ValueError>(ValueError::SliceTooSmall),
    {
        match self {
            SearchValue::FixedInt { value, value_type } => {
                let size: usize = value_type.size();
                if other.len() < size {
                    Err(ValueError::SliceTooSmall)
                } else {
                    let mut i: usize = 0;
                    let mut eq: bool = true;
                    while i < size
                        invariant
                            i <= size,
                            size <= 16,
                            other@.len() >= size,
                            value@.len() == 16,
                            eq == (value@.subrange(0, i as int) =~= other@.subrange(0, i as int)),
                        decreases size - i,
                    {
                        let a: u8 = value[i];
                        let b: u8 = *vstd::slice::slice_index_get(other, i);
                        proof {
                            if a == b {
                                assert(value@.subrange(0, i + 1) =~= value@.subrange(0, i as int)
                                    .push(a));
                                assert(other@.subrange(0, i + 1) =~= other@.subrange(0, i as int)
                                    .push(b));
                            } else {
                                assert(value@.subrange(0, i + 1)[i as int] != other@.subrange(
                                    0,
                                    i + 1,
                                )[i as int]);
                            }
                        }
                        eq = eq && a == b;
                        i += 1;
                    }
                    Ok(eq)
                }
            },
            SearchValue::RangeInt { start, end, value_type, exclude } => {
                let size: usize = value_type.size();
                if size == 0 {
                    Err(ValueError::UnsupportedType)
                } else if other.len() < size {
                    Err(ValueError::SliceTooSmall)
                } else {
                    let sub: &[u8] = vstd::slice::slice_subrange(other, 0, size);
                    let x: i128 = decode_le_signed(sub);
                    if *exclude {
                        Ok(x < *start || x > *end)
                    } else {
                        Ok(*start <= x && x <= *end)
                    }
                }
            },
            SearchValue::Pattern { .. } => Err(ValueError::UnsupportedType),
        }
    }

    /// Whether the masked needle accepts the front of `data`; a slice
    /// shorter than the needle is rejected rather than faulted.
    pub fn match_pattern(&self, data: &[u8]) -> (r: bool)
        ensures
            self matches SearchValue::Pattern { pattern } ==> r == spec_pattern_matches(
                pattern@,
                data@,
            ),
            !(self matches SearchValue::Pattern { .. }) ==> r == false,
    {
        match self {
            SearchValue::Pattern { pattern } => pattern_matches_at(pattern.as_slice(), data),
            _ => false,
        }
    }
}

/// Whether the needle `pat` accepts the front of `data`.
pub fn pattern_matches_at(pat: &[(u8, u8)], data: &[u8]) -> (r: bool)
    ensures
        r == spec_pattern_matches(pat@, data@),
{
    if data.len() < pat.len() {
        return false;
    }
    let n: usize = pat.len();
    let mut i: usize = 0;
    while i < n
        invariant
            i <= n,
            n == pat@.len(),
            data@.len() >= n,
            forall|j: int| 0 <= j < i ==> (data@[j] & #[trigger] pat@[j].1) == (pat@[j].0
                & pat@[j].1),
        decreases n - i,
    {
        let (v, m): (u8, u8) = *vstd::slice::slice_index_get(pat, i);
        let d: u8 = *vstd::slice::slice_index_get(data, i);
        if (d & m) != (v & m) {
            return false;
        }
        i += 1;
    }
    true
}

/// A relative condition a fuzzy refine step applies between a record's
/// remembered bytes and a fresh read.
///
/// Amount and percentage parameters are whole numbers; the percentage forms
/// read their parameter as percent points of the remembered value.
#[derive(Debug, Clone, Copy, PartialEq, Eq, Structural)]
pub enum FuzzyCondition {
    /// First pass: record every readable element.
    Initial,
    Unchanged,
    Changed,
    Increased,
    Decreased,
    IncreasedBy(i64),
    DecreasedBy(i64),
    IncreasedByRange(i64, i64),
    DecreasedByRange(i64, i64),
    IncreasedByPercent(i64),
    DecreasedByPercent(i64),
}

impl FuzzyCondition {
    /// Decodes the external numeric form; ids outside `0..=10` are refused.
    pub fn from_id(id: i32, param1: i64, param2: i64) -> (r: Option<Self>)
        ensures
            r is Some <==> 0 <= id <= 10,
            id == 0 ==> r == Some(FuzzyCondition::Initial),
            id == 1 ==> r == Some(FuzzyCondition::Unchanged),
            id == 2 ==> r == Some(FuzzyCondition::Changed),
            id == 3 ==> r == Some(FuzzyCondition::Increased),
            id == 4 ==> r == Some(FuzzyCondition::Decreased),
            id == 5 ==> r == Some(FuzzyCondition::IncreasedBy(param1)),
            id == 6 ==> r == Some(FuzzyCondition::DecreasedBy(param1)),
            id == 7 ==> r == Some(FuzzyCondition::IncreasedByRange(param1, param2)),
            id == 8 ==> r == Some(FuzzyCondition::DecreasedByRange(param1, param2)),
            id == 9 ==> r == Some(FuzzyCondition::IncreasedByPercent(param1)),
            id == 10 ==> r == Some(FuzzyCondition::DecreasedByPercent(param1)),
    {
        match id {
            0 => Some(FuzzyCondition::Initial),
            1 => Some(FuzzyCondition::Unchanged),
            2 => Some(FuzzyCondition::Changed),
            3 => Some(FuzzyCondition::Increased),
            4 => Some(FuzzyCondition::Decreased),
            5 => Some(FuzzyCondition::IncreasedBy(param1)),
            6 => Some(FuzzyCondition::DecreasedBy(param1)),
            7 => Some(FuzzyCondition::IncreasedByRange(param1, param2)),
            8 => Some(FuzzyCondition::DecreasedByRange(param1, param2)),
            9 => Some(FuzzyCondition::IncreasedByPercent(param1)),
            10 => Some(FuzzyCondition::DecreasedByPercent(param1)),
            _ => None,
        }
    }

    pub fn is_initial(&self) -> (r: bool)
        ensures
            r == (*self == FuzzyCondition::Initial),
    {
        matches!(self, FuzzyCondition::Initial)
    }
}

/// One submitted search: one value is a single-value scan, several make a
/// group scan inside a byte window of `range`.
#[derive(Debug, Clone)]
pub struct SearchQuery {
    pub values: Vec<SearchValue>,
    pub mode: SearchMode,
    pub range: u16,
}

impl SearchQuery {
    /// The three validation rules a query must meet before it is run.
    pub open spec fn spec_valid(&self) -> bool {
        &&& self.values@.len() >= 1
        &&& self.values@.len() <= 64
        &&& self.values@.len() >= 2 ==> self.range >= 2
    }

    pub fn new(values: Vec<SearchValue>, mode: SearchMode, range: u16) -> (r: Self)
        ensures
            r.values == values,
            r.mode == mode,
            r.range == range,
    {
        SearchQuery { values, mode, range }
    }

    /// Accepts a query exactly when it has 1 to 64 values and, for group
    /// queries, a window of at least 2 bytes.
    pub fn validate(&self) -> (r: Result<(), String>)
        ensures
            r is Ok <==> self.spec_valid(),
            self.values@.len() == 0 ==> (r matches Err(m) && m@ == "No values specified"@),
            self.values@.len() > 64 ==> (r matches Err(m) && m@ == "Maximum 64 values allowed"@),
            2 <= self.values@.len() <= 64 && self.range < 2 ==> (r matches Err(m) && m@
                == "Range must be at least 2 for group search"@),
    {
        if self.values.len() == 0 {
            Err(String::from_str("No values specified"))
        } else if self.values.len() > 64 {
            Err(String::from_str("Maximum 64 values allowed"))
        } else if self.values.len() >= 2 && self.range < 2 {
            Err(String::from_str("Range must be at least 2 for group search"))
        } else {
            Ok(())
        }
    }
}

/// An exact integer value built from `v` always accepts the little-endian
/// bytes of `v` itself: `fixed(v, t)` matches wherever memory holds the
/// first `t.size()` bytes of `v`'s encoding.
pub proof fn lemma_fixed_matches_own_bytes(sv: SearchValue, v: i128, other: Seq<u8>)
    requires
        (sv matches SearchValue::FixedInt { value, value_type } && value@ == spec_u128_to_le_bytes(
            v as u128,
        )),
        other.len() >= sv.spec_required_len(),
        other.subrange(0, sv.spec_required_len() as int) == spec_u128_to_le_bytes(
            v as u128,
        ).subrange(0, sv.spec_required_len() as int),
    ensures
        sv.spec_matched(other),
{
    match sv {
        SearchValue::FixedInt { value, value_type } => {
            assert(other.subrange(0, value_type.spec_size() as int) =~= value@.subrange(
                0,
                value_type.spec_size() as int,
            ));
        },
        _ => {},
    }
}

} // verus!
