use memscan::values::{ValueType, SearchValue, SearchMode, SearchQuery, FuzzyCondition,
    ValueError, decode_le_signed};
use memscan::fuzzy::{FuzzySearchResultItem, fuzzy_cond_i64};

#[test]
fn test_value_type_ids_round_trip() {
    for id in 0..=7 {
        let t = ValueType::from_id(id).unwrap();
        assert_eq!(t.to_id(), id);
    }
    assert!(ValueType::from_id(-1).is_none());
    assert!(ValueType::from_id(8).is_none());
}

#[test]
fn test_value_type_sizes() {
    assert_eq!(ValueType::Byte.size(), 1);
    assert_eq!(ValueType::Word.size(), 2);
    assert_eq!(ValueType::Dword.size(), 4);
    assert_eq!(ValueType::Qword.size(), 8);
    assert_eq!(ValueType::Float.size(), 4);
    assert_eq!(ValueType::Double.size(), 8);
    assert_eq!(ValueType::Auto.size(), 4);
    assert_eq!(ValueType::Xor.size(), 4);
    assert!(ValueType::Float.is_float_type());
    assert!(ValueType::Double.is_float_type());
    assert!(!ValueType::Dword.is_float_type());
}

#[test]
fn test_value_type_from_char() {
    assert_eq!(ValueType::from_char('D'), Some(ValueType::Dword));
    assert_eq!(ValueType::from_char('d'), Some(ValueType::Dword));
    assert_eq!(ValueType::from_char('q'), Some(ValueType::Qword));
    assert_eq!(ValueType::from_char('E'), Some(ValueType::Double));
    assert_eq!(ValueType::from_char('z'), None);
}

#[test]
fn test_decode_le_signed() {
    assert_eq!(decode_le_signed(&[0xFF]), -1);
    assert_eq!(decode_le_signed(&[0x7F]), 127);
    assert_eq!(decode_le_signed(&[0x00, 0x80]), -32768);
    assert_eq!(decode_le_signed(&[0xFF, 0xFF, 0xFF, 0xFF]), -1);
    assert_eq!(decode_le_signed(&100i64.to_le_bytes()), 100);
    assert_eq!(decode_le_signed(&(-5i64).to_le_bytes()), -5);
}

#[test]
fn test_fixed_int_matches_own_bytes() {
    // an exact value always accepts the bytes it was built from
    let sv = SearchValue::fixed(100, ValueType::Dword);
    assert_eq!(sv.matched(&100u32.to_le_bytes()), Ok(true));
    let sv2 = SearchValue::fixed(-7, ValueType::Qword);
    assert_eq!(sv2.matched(&(-7i64).to_le_bytes()), Ok(true));
    let sv3 = SearchValue::fixed(0x2A, ValueType::Byte);
    assert_eq!(sv3.matched(&[0x2A]), Ok(true));
}

#[test]
fn test_fixed_int_rejects_other_bytes() {
    let sv = SearchValue::fixed(100, ValueType::Dword);
    assert_eq!(sv.matched(&101u32.to_le_bytes()), Ok(false));
}

#[test]
fn test_matched_short_slice_faults() {
    let sv = SearchValue::fixed(100, ValueType::Dword);
    assert_eq!(sv.matched(&[0x64, 0x00]), Err(ValueError::SliceTooSmall));
    let needle = SearchValue::Pattern { pattern: vec![(0xAA, 0xFF)] };
    assert_eq!(needle.matched(&[0xAA]), Err(ValueError::UnsupportedType));
}

#[test]
fn test_range_int_matched() {
    let sv = SearchValue::range(100, 200, ValueType::Dword, false);
    assert_eq!(sv.matched(&150u32.to_le_bytes()), Ok(true));
    assert_eq!(sv.matched(&100u32.to_le_bytes()), Ok(true));
    assert_eq!(sv.matched(&200u32.to_le_bytes()), Ok(true));
    assert_eq!(sv.matched(&99u32.to_le_bytes()), Ok(false));
    assert_eq!(sv.matched(&201u32.to_le_bytes()), Ok(false));
    let excl = SearchValue::range(100, 200, ValueType::Dword, true);
    assert_eq!(excl.matched(&150u32.to_le_bytes()), Ok(false));
    assert_eq!(excl.matched(&99u32.to_le_bytes()), Ok(true));
    let neg = SearchValue::range(-10, -1, ValueType::Word, false);
    assert_eq!(neg.matched(&(-5i16).to_le_bytes()), Ok(true));
    assert_eq!(neg.matched(&(5i16).to_le_bytes()), Ok(false));
}

#[test]
fn test_query_validation_rules() {
    let one = SearchQuery::new(
        vec![SearchValue::fixed(1, ValueType::Dword)],
        SearchMode::Unordered,
        0,
    );
    assert!(one.validate().is_ok());

    let none = SearchQuery::new(vec![], SearchMode::Unordered, 0);
    assert_eq!(none.validate().unwrap_err(), "No values specified");

    let mut many = Vec::new();
    for i in 0..65 {
        many.push(SearchValue::fixed(i, ValueType::Dword));
    }
    let too_many = SearchQuery::new(many, SearchMode::Unordered, 16);
    assert_eq!(too_many.validate().unwrap_err(), "Maximum 64 values allowed");

    let mut sixty_four = Vec::new();
    for i in 0..64 {
        sixty_four.push(SearchValue::fixed(i, ValueType::Dword));
    }
    let at_cap = SearchQuery::new(sixty_four, SearchMode::Unordered, 16);
    assert!(at_cap.validate().is_ok());

    let narrow = SearchQuery::new(
        vec![
            SearchValue::fixed(1, ValueType::Dword),
            SearchValue::fixed(2, ValueType::Dword),
        ],
        SearchMode::Ordered,
        1,
    );
    assert_eq!(
        narrow.validate().unwrap_err(),
        "Range must be at least 2 for group search"
    );
}

#[test]
fn test_fuzzy_initial_accepts_everything() {
    // the first refine condition accepts every record
    let item = FuzzySearchResultItem::from_bytes(0x1000, &42u32.to_le_bytes(), ValueType::Dword);
    assert!(item.matches_condition(&42u32.to_le_bytes(), FuzzyCondition::Initial));
    assert!(item.matches_condition(&0u32.to_le_bytes(), FuzzyCondition::Initial));
    assert!(item.matches_condition(&u32::MAX.to_le_bytes(), FuzzyCondition::Initial));
    assert!(fuzzy_cond_i64(i64::MIN, i64::MAX, FuzzyCondition::Initial));
}

#[test]
fn test_fuzzy_conditions() {
    let item = FuzzySearchResultItem::from_bytes(0x1000, &100u32.to_le_bytes(), ValueType::Dword);
    assert!(item.matches_condition(&100u32.to_le_bytes(), FuzzyCondition::Unchanged));
    assert!(!item.matches_condition(&101u32.to_le_bytes(), FuzzyCondition::Unchanged));
    assert!(item.matches_condition(&101u32.to_le_bytes(), FuzzyCondition::Changed));
    assert!(item.matches_condition(&101u32.to_le_bytes(), FuzzyCondition::Increased));
    assert!(item.matches_condition(&99u32.to_le_bytes(), FuzzyCondition::Decreased));
    assert!(item.matches_condition(&110u32.to_le_bytes(), FuzzyCondition::IncreasedBy(10)));
    assert!(!item.matches_condition(&111u32.to_le_bytes(), FuzzyCondition::IncreasedBy(10)));
    assert!(item.matches_condition(&90u32.to_le_bytes(), FuzzyCondition::DecreasedBy(10)));
    assert!(item.matches_condition(&105u32.to_le_bytes(), FuzzyCondition::IncreasedByRange(1, 10)));
    assert!(!item.matches_condition(&115u32.to_le_bytes(), FuzzyCondition::IncreasedByRange(1, 10)));
    assert!(item.matches_condition(&95u32.to_le_bytes(), FuzzyCondition::DecreasedByRange(1, 10)));
    // ten percent of 100 is 110
    assert!(item.matches_condition(&110u32.to_le_bytes(), FuzzyCondition::IncreasedByPercent(10)));
    assert!(!item.matches_condition(&109u32.to_le_bytes(), FuzzyCondition::IncreasedByPercent(10)));
    assert!(item.matches_condition(&90u32.to_le_bytes(), FuzzyCondition::DecreasedByPercent(10)));
    // a zero base falls back to a sign test
    let zero = FuzzySearchResultItem::from_bytes(0x1000, &0u32.to_le_bytes(), ValueType::Dword);
    assert!(zero.matches_condition(&1u32.to_le_bytes(), FuzzyCondition::IncreasedByPercent(10)));
    assert!(!zero.matches_condition(&0u32.to_le_bytes(), FuzzyCondition::IncreasedByPercent(10)));
}

#[test]
fn test_fuzzy_condition_ids() {
    assert_eq!(FuzzyCondition::from_id(0, 0, 0), Some(FuzzyCondition::Initial));
    assert_eq!(FuzzyCondition::from_id(5, 7, 0), Some(FuzzyCondition::IncreasedBy(7)));
    assert_eq!(
        FuzzyCondition::from_id(7, 2, 9),
        Some(FuzzyCondition::IncreasedByRange(2, 9))
    );
    assert_eq!(FuzzyCondition::from_id(11, 0, 0), None);
    assert!(FuzzyCondition::Initial.is_initial());
    assert!(!FuzzyCondition::Changed.is_initial());
}

#[test]
fn test_fuzzy_item_accessors() {
    let item = FuzzySearchResultItem::from_bytes(0x10, &(-3i32).to_le_bytes(), ValueType::Dword);
    assert_eq!(item.as_i64(), -3);
    assert_eq!(item.value_size(), 4);
    let updated = item.with_new_value(&7i32.to_le_bytes());
    assert_eq!(updated.as_i64(), 7);
    assert_eq!(updated.address, 0x10);
    let word = FuzzySearchResultItem::from_bytes(0x20, &(-2i16).to_le_bytes(), ValueType::Word);
    assert_eq!(word.as_i64(), -2);
}
