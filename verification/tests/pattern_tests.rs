use memscan::pattern::{parse_pattern, create_pattern_search_value, format_pattern, PatternError};
use memscan::values::SearchValue;

#[test]
fn test_parse_full_bytes() {
    let result = parse_pattern("1A 2B FF 00").unwrap();
    assert_eq!(result.len(), 4);
    assert_eq!(result[0], (0x1A, 0xFF));
    assert_eq!(result[1], (0x2B, 0xFF));
    assert_eq!(result[2], (0xFF, 0xFF));
    assert_eq!(result[3], (0x00, 0xFF));
}

#[test]
fn test_parse_wildcards() {
    let result = parse_pattern("?? 1? ?A").unwrap();
    assert_eq!(result.len(), 3);
    assert_eq!(result[0], (0x00, 0x00));
    assert_eq!(result[1], (0x10, 0xF0));
    assert_eq!(result[2], (0x0A, 0x0F));
}

#[test]
fn test_parse_mixed() {
    let result = parse_pattern("1A ?B C? ??").unwrap();
    assert_eq!(result.len(), 4);
    assert_eq!(result[0], (0x1A, 0xFF));
    assert_eq!(result[1], (0x0B, 0x0F));
    assert_eq!(result[2], (0xC0, 0xF0));
    assert_eq!(result[3], (0x00, 0x00));
}

#[test]
fn test_parse_lowercase() {
    let result = parse_pattern("ab cd ef").unwrap();
    assert_eq!(result.len(), 3);
    assert_eq!(result[0], (0xAB, 0xFF));
    assert_eq!(result[1], (0xCD, 0xFF));
    assert_eq!(result[2], (0xEF, 0xFF));
}

#[test]
fn test_parse_empty() {
    assert!(parse_pattern("").is_err());
    assert!(parse_pattern("   ").is_err());
}

#[test]
fn test_parse_invalid() {
    assert!(parse_pattern("1").is_err());
    assert!(parse_pattern("1AG").is_err());
    assert!(parse_pattern("GG").is_err());
    assert!(parse_pattern("1A 2").is_err());
}

#[test]
fn test_match_pattern() {
    let sv = create_pattern_search_value("1A ?B C? ??").unwrap();

    assert!(sv.match_pattern(&[0x1A, 0x0B, 0xC0, 0x00]));
    assert!(sv.match_pattern(&[0x1A, 0x1B, 0xC5, 0xFF]));
    assert!(sv.match_pattern(&[0x1A, 0xFB, 0xCF, 0x12]));

    assert!(!sv.match_pattern(&[0x2A, 0x0B, 0xC0, 0x00]));
    assert!(!sv.match_pattern(&[0x1A, 0x0C, 0xC0, 0x00]));
    assert!(!sv.match_pattern(&[0x1A, 0x0B, 0xD0, 0x00]));

    assert!(!sv.match_pattern(&[0x1A, 0x0B, 0xC0]));
}

#[test]
fn test_parse_error_kinds() {
    assert_eq!(parse_pattern("   "), Err(PatternError::EmptyPattern));
    assert_eq!(parse_pattern("ZZ"), Err(PatternError::InvalidToken));
}

#[test]
fn test_format_normalizes_parsed_text() {
    // rendering the parse of a well-formed string gives its canonical text
    let toks = parse_pattern("ab ?d  C?   ??").unwrap();
    assert_eq!(format_pattern(&toks), "AB ?D C? ??");
    let toks2 = parse_pattern(" 1a 2b ").unwrap();
    assert_eq!(format_pattern(&toks2), "1A 2B");
    // and parsing the rendering gives the tokens back
    assert_eq!(parse_pattern(&format_pattern(&toks)).unwrap(), toks);
}

#[test]
fn test_pattern_value_round_trip() {
    let sv = create_pattern_search_value("DE AD").unwrap();
    match sv {
        SearchValue::Pattern { pattern } => {
            assert_eq!(pattern, vec![(0xDE, 0xFF), (0xAD, 0xFF)]);
        },
        _ => panic!("expected a needle value"),
    }
}
