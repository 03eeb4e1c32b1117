use memscan::values::{SearchValue, ValueType, SearchQuery, SearchMode};
use memscan::bitmap::PageStatusBitmap;
use memscan::matcher::{search_in_chunks_with_status, ValuePair, first_aligned_pos};
use memscan::pattern_search::search_pattern_in_buffer;
use memscan::pattern::parse_pattern;
use memscan::engine::search_query_in_chunk;
use memscan::group::search_in_buffer_group;

fn full_bitmap(size: usize, addr: u64) -> PageStatusBitmap {
    let mut bm = PageStatusBitmap::new(size, addr as usize);
    bm.mark_all_success();
    bm
}

fn write_u32(buf: &mut [u8], off: usize, v: u32) {
    buf[off..off + 4].copy_from_slice(&v.to_le_bytes());
}

#[test]
fn test_exact_scan_finds_all_matches() {
    // a 4 KiB region with 100 at offsets 0x0, 0x10, 0x20 and 200 at 0x4
    let base: u64 = 0x7000000000;
    let mut buf = vec![0u8; 0x1000];
    write_u32(&mut buf, 0x0, 100);
    write_u32(&mut buf, 0x10, 100);
    write_u32(&mut buf, 0x20, 100);
    write_u32(&mut buf, 0x4, 200);
    let bm = full_bitmap(buf.len(), base);
    let target = SearchValue::fixed(100, ValueType::Dword);
    let mut results: Vec<ValuePair> = Vec::new();
    search_in_chunks_with_status(
        &buf, base, base, base + 0x1000, 4, &target, ValueType::Dword, &bm, &mut results,
    );
    let addrs: Vec<u64> = results.iter().map(|p| p.addr).collect();
    assert_eq!(addrs, vec![base, base + 0x10, base + 0x20]);
    assert!(results.iter().all(|p| p.value_type == ValueType::Dword));
}

#[test]
fn test_byte_scan_uses_exact_positions() {
    // the one-byte fast path must report the true indices, not echoes
    let base: u64 = 0x10000;
    let mut buf = vec![0u8; 0x1000];
    buf[3] = 0x2A;
    buf[0x7FF] = 0x2A;
    buf[0x800] = 0x2A;
    let bm = full_bitmap(buf.len(), base);
    let target = SearchValue::fixed(0x2A, ValueType::Byte);
    let mut results: Vec<ValuePair> = Vec::new();
    search_in_chunks_with_status(
        &buf, base, base, base + 0x1000, 1, &target, ValueType::Byte, &bm, &mut results,
    );
    let addrs: Vec<u64> = results.iter().map(|p| p.addr).collect();
    assert_eq!(addrs, vec![base + 3, base + 0x7FF, base + 0x800]);
}

#[test]
fn test_failed_pages_emit_nothing() {
    // matches on a page whose bitmap bit is clear are never emitted
    let base: u64 = 0x20000;
    let mut buf = vec![0u8; 0x2000];
    write_u32(&mut buf, 0x100, 77);
    write_u32(&mut buf, 0x1100, 77);
    let mut bm = PageStatusBitmap::new(buf.len(), base as usize);
    bm.mark_success(1);
    let target = SearchValue::fixed(77, ValueType::Dword);
    let mut results: Vec<ValuePair> = Vec::new();
    search_in_chunks_with_status(
        &buf, base, base, base + 0x2000, 4, &target, ValueType::Dword, &bm, &mut results,
    );
    let addrs: Vec<u64> = results.iter().map(|p| p.addr).collect();
    assert_eq!(addrs, vec![base + 0x1100]);
}

#[test]
fn test_region_bounds_clip_matches() {
    let base: u64 = 0x30000;
    let mut buf = vec![0u8; 0x1000];
    write_u32(&mut buf, 0x0, 55);
    write_u32(&mut buf, 0x100, 55);
    write_u32(&mut buf, 0xFF8, 55);
    let bm = full_bitmap(buf.len(), base);
    let target = SearchValue::fixed(55, ValueType::Dword);
    let mut results: Vec<ValuePair> = Vec::new();
    // the requested region covers only the middle of the chunk
    search_in_chunks_with_status(
        &buf, base, base + 0x80, base + 0x800, 4, &target, ValueType::Dword, &bm, &mut results,
    );
    let addrs: Vec<u64> = results.iter().map(|p| p.addr).collect();
    assert_eq!(addrs, vec![base + 0x100]);
}

#[test]
fn test_range_scan() {
    let base: u64 = 0x40000;
    let mut buf = vec![0u8; 0x1000];
    write_u32(&mut buf, 0x0, 150);
    write_u32(&mut buf, 0x8, 250);
    write_u32(&mut buf, 0x10, 175);
    let bm = full_bitmap(buf.len(), base);
    let target = SearchValue::range(100, 200, ValueType::Dword, false);
    let mut results: Vec<ValuePair> = Vec::new();
    search_in_chunks_with_status(
        &buf, base, base, base + 0x1000, 4, &target, ValueType::Dword, &bm, &mut results,
    );
    let addrs: Vec<u64> = results.iter().map(|p| p.addr).collect();
    assert_eq!(addrs, vec![base, base + 0x10]);
}

#[test]
fn test_pattern_scan_finds_masked_needle() {
    // bytes DE AD BE EF 00 FF at offset 0x10 of a 256-byte window
    let base: u64 = 0x8000000000;
    let mut buf = vec![0u8; 0x1000];
    let planted = [0xDEu8, 0xAD, 0xBE, 0xEF, 0x00, 0xFF];
    buf[0x10..0x16].copy_from_slice(&planted);
    let bm = full_bitmap(buf.len(), base);
    let pattern = parse_pattern("DE ?D BE E?").unwrap();
    let mut results: Vec<u64> = Vec::new();
    search_pattern_in_buffer(&buf, base, base, base + 0x100, &pattern, &bm, &mut results);
    assert_eq!(results, vec![base + 0x10]);
}

#[test]
fn test_pattern_scan_all_wildcards() {
    let base: u64 = 0x9000000000;
    let buf = vec![0u8; 64];
    let mut bm = PageStatusBitmap::new(buf.len(), base as usize);
    bm.mark_success(0);
    let pattern = parse_pattern("?? ??").unwrap();
    let mut results: Vec<u64> = Vec::new();
    search_pattern_in_buffer(&buf, base, base, base + 64, &pattern, &bm, &mut results);
    // every start position that fits the two-byte needle matches
    assert_eq!(results.len(), 63);
    assert_eq!(results[0], base);
    assert_eq!(results[62], base + 62);
}

#[test]
fn test_single_value_group_query_equals_single_search() {
    // a group submission with one value runs the plain single-value scan:
    // its window and order parameters change nothing
    let base: u64 = 0x50000;
    let mut buf = vec![0u8; 0x1000];
    write_u32(&mut buf, 0x40, 9000);
    write_u32(&mut buf, 0x80, 9000);
    let bm = full_bitmap(buf.len(), base);
    let value = SearchValue::fixed(9000, ValueType::Dword);
    let group_query = SearchQuery::new(vec![value.clone()], SearchMode::Ordered, 512);
    let mut via_query: Vec<ValuePair> = Vec::new();
    search_query_in_chunk(&group_query, &buf, base, base, base + 0x1000, &bm, &mut via_query);
    let mut direct: Vec<ValuePair> = Vec::new();
    search_in_chunks_with_status(
        &buf, base, base, base + 0x1000, 4, &value, ValueType::Dword, &bm, &mut direct,
    );
    assert_eq!(via_query, direct);
    assert_eq!(via_query.len(), 2);
}

#[test]
fn test_group_scan_unordered() {
    // 100 anchors a band; 200 lives eight bytes later, inside it
    let base: u64 = 0x60000;
    let mut buf = vec![0u8; 0x1000];
    write_u32(&mut buf, 0x50, 100);
    write_u32(&mut buf, 0x58, 200);
    let bm = full_bitmap(buf.len(), base);
    let query = SearchQuery::new(
        vec![
            SearchValue::fixed(100, ValueType::Dword),
            SearchValue::fixed(200, ValueType::Dword),
        ],
        SearchMode::Unordered,
        16,
    );
    let mut results: Vec<ValuePair> = Vec::new();
    search_in_buffer_group(&buf, base, base, base + 0x1000, &query, &bm, &mut results);
    let mut addrs: Vec<u64> = results.iter().map(|p| p.addr).collect();
    addrs.sort();
    assert_eq!(addrs, vec![base + 0x50, base + 0x58]);
}

#[test]
fn test_group_scan_ordered_direction() {
    // in ordered mode the second value must follow the anchor
    let base: u64 = 0x70000;
    let mut buf = vec![0u8; 0x1000];
    write_u32(&mut buf, 0x58, 100);
    write_u32(&mut buf, 0x50, 200);
    let bm = full_bitmap(buf.len(), base);
    let ordered = SearchQuery::new(
        vec![
            SearchValue::fixed(100, ValueType::Dword),
            SearchValue::fixed(200, ValueType::Dword),
        ],
        SearchMode::Ordered,
        16,
    );
    let mut results: Vec<ValuePair> = Vec::new();
    search_in_buffer_group(&buf, base, base, base + 0x1000, &ordered, &bm, &mut results);
    assert!(results.is_empty());
    let unordered = SearchQuery::new(ordered.values.clone(), SearchMode::Unordered, 16);
    let mut both: Vec<ValuePair> = Vec::new();
    search_in_buffer_group(&buf, base, base, base + 0x1000, &unordered, &bm, &mut both);
    assert_eq!(both.len(), 2);
}

#[test]
fn test_group_scan_band_limit() {
    // a companion value outside the band finds no covering
    let base: u64 = 0x80000;
    let mut buf = vec![0u8; 0x1000];
    write_u32(&mut buf, 0x50, 100);
    write_u32(&mut buf, 0x800, 200);
    let bm = full_bitmap(buf.len(), base);
    let query = SearchQuery::new(
        vec![
            SearchValue::fixed(100, ValueType::Dword),
            SearchValue::fixed(200, ValueType::Dword),
        ],
        SearchMode::Unordered,
        16,
    );
    let mut results: Vec<ValuePair> = Vec::new();
    search_in_buffer_group(&buf, base, base, base + 0x1000, &query, &bm, &mut results);
    assert!(results.is_empty());
}

#[test]
fn test_first_aligned_pos() {
    assert_eq!(first_aligned_pos(0x1000, 0, 4), 0);
    assert_eq!(first_aligned_pos(0x1001, 0, 4), 3);
    assert_eq!(first_aligned_pos(0x1000, 5, 8), 8);
}
