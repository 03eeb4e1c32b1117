use memscan::values::{SearchValue, ValueType, SearchQuery, SearchMode, FuzzyCondition};
use memscan::bitmap::PageStatusBitmap;
use memscan::matcher::{search_in_chunks_with_status, ValuePair};
use memscan::fuzzy::{FuzzySearchResultItem, fuzzy_refine_filter, fuzzy_initial_scan_buffer};
use memscan::store::{SearchResultManager, SearchResultItem, SearchResultMode, TierStore};
use memscan::engine::{SearchEngineManager, sort_and_dedup_results, refine_exact_filter};
use memscan::status::ScanErrorCode;

#[test]
fn test_tier_store_spills_past_capacity() {
    let mut store: TierStore<u32> = TierStore::new(2);
    store.push(10);
    store.push(20);
    store.push(30);
    assert_eq!(store.len(), 3);
    assert_eq!(store.get(0), 10);
    assert_eq!(store.get(2), 30);
    assert_eq!(store.get_all(), vec![10, 20, 30]);
    assert_eq!(store.get_range(1, 5), vec![20, 30]);
    assert_eq!(store.get_range(9, 5), Vec::<u32>::new());
    store.remove(1);
    assert_eq!(store.get_all(), vec![10, 30]);
    store.remove_batch(&vec![0]);
    assert_eq!(store.get_all(), vec![30]);
}

#[test]
fn test_tier_store_keep_batch() {
    let mut store: TierStore<u32> = TierStore::new(2);
    for v in [1u32, 2, 3, 4, 5] {
        store.push(v);
    }
    store.keep_batch(&vec![0, 2, 4]);
    assert_eq!(store.get_all(), vec![1, 3, 5]);
}

#[test]
fn test_store_mode_coherence() {
    // records of only one schema exist at a time; switching clears
    let mut mgr = SearchResultManager::new(1024);
    assert_eq!(mgr.get_mode(), SearchResultMode::Exact);
    mgr.add_results_batch(vec![
        SearchResultItem::new_exact(0x10, ValueType::Dword),
        SearchResultItem::new_exact(0x20, ValueType::Dword),
    ]);
    assert_eq!(mgr.total_count(), 2);
    assert_eq!(mgr.get_all_fuzzy_results().len(), 0);
    mgr.set_mode(SearchResultMode::Fuzzy);
    assert_eq!(mgr.total_count(), 0);
    assert_eq!(mgr.get_all_exact_results().len(), 0);
    mgr.add_fuzzy_results_batch(vec![FuzzySearchResultItem::from_bytes(
        0x30,
        &7u32.to_le_bytes(),
        ValueType::Dword,
    )]);
    assert_eq!(mgr.total_count(), 1);
    assert_eq!(mgr.get_all_exact_results().len(), 0);
}

#[test]
fn test_store_remove_and_keep() {
    let mut mgr = SearchResultManager::new(64);
    mgr.add_results_batch(vec![
        SearchResultItem::new_exact(0x10, ValueType::Dword),
        SearchResultItem::new_exact(0x20, ValueType::Dword),
        SearchResultItem::new_exact(0x30, ValueType::Dword),
        SearchResultItem::new_exact(0x40, ValueType::Dword),
    ]);
    assert!(mgr.remove_result(1).is_ok());
    assert!(mgr.remove_result(9).is_err());
    let left: Vec<u64> = mgr.get_all_exact_results().iter().map(|r| r.address).collect();
    assert_eq!(left, vec![0x10, 0x30, 0x40]);
    mgr.keep_only_results(vec![0, 2]);
    let kept: Vec<u64> = mgr.get_all_exact_results().iter().map(|r| r.address).collect();
    assert_eq!(kept, vec![0x10, 0x40]);
    mgr.remove_results_batch(vec![0, 1]);
    assert_eq!(mgr.total_count(), 0);
}

#[test]
fn test_sort_and_dedup_orders_and_drops_duplicates() {
    // the committed set is address-ordered with no duplicate pairs
    let raw = vec![
        ValuePair::new(0x30, ValueType::Dword),
        ValuePair::new(0x10, ValueType::Dword),
        ValuePair::new(0x30, ValueType::Dword),
        ValuePair::new(0x20, ValueType::Word),
        ValuePair::new(0x20, ValueType::Dword),
        ValuePair::new(0x10, ValueType::Dword),
    ];
    let out = sort_and_dedup_results(&raw);
    let addrs: Vec<u64> = out.iter().map(|p| p.addr).collect();
    assert_eq!(addrs, vec![0x10, 0x20, 0x20, 0x30]);
    for w in out.windows(2) {
        assert!(w[0].addr <= w[1].addr);
        assert!(!(w[0].addr == w[1].addr && w[0].value_type == w[1].value_type));
    }
}

#[test]
fn test_engine_submission_rules() {
    let query = SearchQuery::new(
        vec![SearchValue::fixed(1, ValueType::Dword)],
        SearchMode::Unordered,
        0,
    );
    let mut engine = SearchEngineManager::new();
    assert_eq!(
        engine.start_search_begin(&query),
        Err(ScanErrorCode::NotInitialized)
    );
    engine.init(4096, 0).unwrap();
    assert!(engine.start_search_begin(&query).is_ok());
    assert!(engine.is_searching());
    assert_eq!(
        engine.start_search_begin(&query),
        Err(ScanErrorCode::AlreadyScanning)
    );
    let bad = SearchQuery::new(vec![], SearchMode::Unordered, 0);
    let count = engine.commit_search_results(vec![
        ValuePair::new(0x20, ValueType::Dword),
        ValuePair::new(0x10, ValueType::Dword),
        ValuePair::new(0x20, ValueType::Dword),
    ]);
    assert_eq!(count, 2);
    assert!(!engine.is_searching());
    assert_eq!(
        engine.start_search_begin(&bad),
        Err(ScanErrorCode::InvalidAddress)
    );
}

#[test]
fn test_exact_scan_then_refine() {
    // scan a region holding 100 at three offsets, change one, refine
    let base: u64 = 0x7000000000;
    let mut buf = vec![0u8; 0x1000];
    for off in [0x0usize, 0x10, 0x20] {
        buf[off..off + 4].copy_from_slice(&100u32.to_le_bytes());
    }
    buf[0x4..0x8].copy_from_slice(&200u32.to_le_bytes());
    let mut bm = PageStatusBitmap::new(buf.len(), base as usize);
    bm.mark_all_success();
    let target = SearchValue::fixed(100, ValueType::Dword);
    let mut found: Vec<ValuePair> = Vec::new();
    search_in_chunks_with_status(
        &buf, base, base, base + 0x1000, 4, &target, ValueType::Dword, &bm, &mut found,
    );
    assert_eq!(found.len(), 3);

    // the value at offset 0 changes to 200; re-read and refine with 100
    buf[0x0..0x4].copy_from_slice(&200u32.to_le_bytes());
    let pairs: Vec<(ValuePair, Vec<u8>)> = found
        .iter()
        .map(|p| {
            let off = (p.addr - base) as usize;
            (*p, buf[off..off + 4].to_vec())
        })
        .collect();
    let survivors = refine_exact_filter(&pairs, &target);
    let addrs: Vec<u64> = survivors.iter().map(|p| p.addr).collect();
    assert_eq!(addrs, vec![base + 0x10, base + 0x20]);
    // every survivor was in the refined set
    for s in &survivors {
        assert!(found.contains(s));
    }
}

#[test]
fn test_fuzzy_workflow() {
    // record a 4 KiB region at 4-byte grain, bump half, refine both ways
    let base: u64 = 0x6000000000;
    let mut buf = vec![0u8; 0x1000];
    for slot in 0..1024usize {
        let v = slot as u32;
        buf[slot * 4..slot * 4 + 4].copy_from_slice(&v.to_le_bytes());
    }
    let mut bm = PageStatusBitmap::new(buf.len(), base as usize);
    bm.mark_all_success();
    // the initial pass records every readable aligned slot
    let recorded = fuzzy_initial_scan_buffer(&buf, base, base, base + 0x1000, ValueType::Dword, &bm);
    assert_eq!(recorded.len(), 1024);
    assert_eq!(recorded[5].as_i64(), 5);

    // mutate the even slots to previous + 10
    for slot in (0..1024usize).step_by(2) {
        let v = slot as u32 + 10;
        buf[slot * 4..slot * 4 + 4].copy_from_slice(&v.to_le_bytes());
    }
    let pairs: Vec<(FuzzySearchResultItem, FuzzySearchResultItem)> = recorded
        .iter()
        .map(|item| {
            let off = (item.address - base) as usize;
            (*item, item.with_new_value(&buf[off..off + 4]))
        })
        .collect();
    let increased = fuzzy_refine_filter(&pairs, FuzzyCondition::IncreasedBy(10));
    assert_eq!(increased.len(), 512);
    assert!(increased.iter().all(|i| (i.address - base) % 8 == 0));
    let unchanged = fuzzy_refine_filter(&pairs, FuzzyCondition::Unchanged);
    assert_eq!(unchanged.len(), 512);
    assert!(unchanged.iter().all(|i| (i.address - base) % 8 == 4));
    // refinement only keeps addresses that were already recorded
    for i in increased.iter().chain(unchanged.iter()) {
        assert!(recorded.iter().any(|r| r.address == i.address));
    }
}

#[test]
fn test_cancellation_keeps_store_consistent() {
    let mut engine = SearchEngineManager::new();
    engine.init(4096, 0).unwrap();
    let query = SearchQuery::new(
        vec![SearchValue::fixed(5, ValueType::Dword)],
        SearchMode::Unordered,
        0,
    );
    engine.start_search_begin(&query).unwrap();
    engine.commit_cancelled();
    assert!(!engine.is_searching());
    assert_eq!(engine.get_total_count(), Ok(0));
    // a new search may start after cancellation
    assert!(engine.start_search_begin(&query).is_ok());
}

#[test]
fn test_engine_fuzzy_flow() {
    let mut engine = SearchEngineManager::new();
    engine.init(4096, 0).unwrap();
    engine.start_fuzzy_search_begin().unwrap();
    let items = vec![
        FuzzySearchResultItem::from_bytes(0x10, &1u32.to_le_bytes(), ValueType::Dword),
        FuzzySearchResultItem::from_bytes(0x20, &2u32.to_le_bytes(), ValueType::Dword),
    ];
    let count = engine.commit_fuzzy_results(items);
    assert_eq!(count, 2);
    assert_eq!(engine.get_current_mode(), Ok(SearchResultMode::Fuzzy));
}

#[test]
fn test_cluster_addresses() {
    // nearby survivors share a read; a page-sized gap starts a new one
    let mk = |addr: u64| {
        memscan::fuzzy::FuzzySearchResultItem::from_bytes(
            addr,
            &0u32.to_le_bytes(),
            ValueType::Dword,
        )
    };
    let items = vec![mk(0x1000), mk(0x1010), mk(0x1100), mk(0x9000), mk(0x9004)];
    let batches = memscan::engine::cluster_addresses(&items);
    assert_eq!(batches.len(), 2);
    assert_eq!(batches[0].start_addr, 0x1000);
    assert_eq!(batches[0].items.len(), 3);
    assert_eq!(batches[0].total_size, 0x104);
    assert_eq!(batches[0].items[2].offset, 0x100);
    assert_eq!(batches[1].start_addr, 0x9000);
    assert_eq!(batches[1].items.len(), 2);
    // every record appears once, in order
    let mut seen = Vec::new();
    for b in &batches {
        for r in &b.items {
            assert_eq!(b.start_addr + r.offset as u64, items[r.item_index].address);
            seen.push(r.item_index);
        }
    }
    assert_eq!(seen, vec![0, 1, 2, 3, 4]);
}

#[test]
fn test_engine_result_access_and_pruning() {
    let mut engine = SearchEngineManager::new();
    assert!(engine.get_all_exact_results().is_err());
    assert!(engine.clear_results().is_err());
    engine.init(4096, 0).unwrap();
    let query = SearchQuery::new(
        vec![SearchValue::fixed(7, ValueType::Dword)],
        SearchMode::Unordered,
        0,
    );
    engine.start_search_begin(&query).unwrap();
    engine.commit_search_results(vec![
        ValuePair::new(0x40, ValueType::Dword),
        ValuePair::new(0x10, ValueType::Dword),
        ValuePair::new(0x20, ValueType::Dword),
        ValuePair::new(0x30, ValueType::Dword),
    ]);
    // paging and full reads through the engine
    let page = engine.get_results(1, 2).unwrap();
    let addrs: Vec<u64> = page.iter().map(|r| r.address).collect();
    assert_eq!(addrs, vec![0x20, 0x30]);
    assert_eq!(engine.get_all_exact_results().unwrap().len(), 4);
    // pruning through the engine
    engine.remove_result(0).unwrap();
    assert!(engine.remove_result(9).is_err());
    engine.keep_only_results(vec![0, 2]).unwrap();
    let left: Vec<u64> = engine
        .get_all_exact_results()
        .unwrap()
        .iter()
        .map(|r| r.address)
        .collect();
    assert_eq!(left, vec![0x20, 0x40]);
    engine.remove_results_batch(vec![1]).unwrap();
    assert_eq!(engine.get_total_count(), Ok(1));
    engine.clear_results().unwrap();
    assert_eq!(engine.get_total_count(), Ok(0));
    engine.set_result_mode(SearchResultMode::Fuzzy).unwrap();
    assert_eq!(engine.get_current_mode(), Ok(SearchResultMode::Fuzzy));
    assert!(engine.get_results(0, 1).is_err());
}

#[test]
fn test_engine_refine_flow() {
    let mut engine = SearchEngineManager::new();
    engine.init(4096, 0).unwrap();
    let query = SearchQuery::new(
        vec![SearchValue::fixed(7, ValueType::Dword)],
        SearchMode::Unordered,
        0,
    );
    engine.start_search_begin(&query).unwrap();
    engine.commit_search_results(vec![
        ValuePair::new(0x10, ValueType::Dword),
        ValuePair::new(0x20, ValueType::Dword),
        ValuePair::new(0x30, ValueType::Dword),
    ]);
    // the snapshot mirrors the store
    let snapshot = engine.start_refine_begin().unwrap();
    let addrs: Vec<u64> = snapshot.iter().map(|p| p.addr).collect();
    assert_eq!(addrs, vec![0x10, 0x20, 0x30]);
    assert!(engine.is_searching());
    assert_eq!(
        engine.start_refine_begin(),
        Err(memscan::status::ScanErrorCode::AlreadyScanning)
    );
    // only the middle record survives the re-read
    let survivors: Vec<ValuePair> = snapshot
        .into_iter()
        .filter(|p| p.addr == 0x20)
        .collect();
    let count = engine.commit_refine_results(survivors);
    assert_eq!(count, 1);
    assert!(!engine.is_searching());
    let left: Vec<u64> = engine
        .get_all_exact_results()
        .unwrap()
        .iter()
        .map(|r| r.address)
        .collect();
    assert_eq!(left, vec![0x20]);
    // an empty store completes the next refine at once
    engine.clear_results().unwrap();
    let empty = engine.start_refine_begin().unwrap();
    assert!(empty.is_empty());
    assert!(!engine.is_searching());
}

#[test]
fn test_engine_status_image_and_cancel() {
    let mut engine = SearchEngineManager::new();
    engine.init(4096, 0).unwrap();
    // no shared region attached: the image is empty, no cancel is seen
    assert!(engine.status_image().is_empty());
    assert!(!engine.is_cancel_requested());
    assert!(engine.set_shared_buffer(64));
    let query = SearchQuery::new(
        vec![SearchValue::fixed(7, ValueType::Dword)],
        SearchMode::Unordered,
        0,
    );
    engine.start_search_begin(&query).unwrap();
    let image = engine.status_image();
    assert_eq!(image.len(), 64);
    // phase lives in the first field: Searching has id 7
    assert_eq!(i32::from_le_bytes(image[0..4].try_into().unwrap()), 7);
    assert!(!engine.is_cancel_requested());
}
