use memscan::ptypes::{PointerData, PointerDir, PointerRange, VmStaticData, VmAreaData, MemRange,
    PointerChain, PointerChainStep, PointerScanConfig, ChainSymbol, ChainHeader};
use memscan::bitmap::PageStatusBitmap;
use memscan::pscan::{merge_regions, is_valid_pointer, collect_pointers_in_chunk};
use memscan::chains::{build_chain_levels, count_total_chains,
    sort_pointers_by_address, search_pointer, create_assoc_dir_index,
    build_pointer_dirs_tree, filter_pointer_ranges, collect_chains_for_range};
use memscan::mapqueue::MapQueue;
use memscan::gateway::{canonical_address, MemoryAccessMode};
use memscan::pmanager::PointerScanManager;
use memscan::status::{PointerScanSharedBuffer, ScanPhase, ScanErrorCode};

#[test]
fn test_pointer_dir_size() {
    assert_eq!(std::mem::size_of::<PointerDir>(), 24);
    assert_eq!(std::mem::size_of::<PointerData>(), 16);
}

#[test]
fn test_chain_symbol_name() {
    let mut sym = ChainSymbol::default();
    sym.set_name("libtest.so");
    assert_eq!(sym.get_name(), "libtest.so");
}

#[test]
fn test_mem_range_detect() {
    assert_eq!(MemRange::detect("", "rw-p"), MemRange::Anonymous);
    assert_eq!(MemRange::detect("[heap]", "rw-p"), MemRange::CHeap);
    assert_eq!(
        MemRange::detect("/data/app/com.test/lib/libtest.so", "r-xp"),
        MemRange::CodeApp
    );
    assert_eq!(
        MemRange::detect("/data/app/com.test/lib/libtest.so", "rw-p"),
        MemRange::CData
    );
}

#[test]
fn test_mem_range_static() {
    assert!(MemRange::CData.is_static());
    assert!(MemRange::CodeApp.is_static());
    assert!(!MemRange::CHeap.is_static());
    assert_eq!(MemRange::detect("[anon:.bss]", "rw-p"), MemRange::CBss);
    assert_eq!(MemRange::detect("[anon:scudo:primary]", "rw-p"), MemRange::CAlloc);
    assert_eq!(
        MemRange::detect("/system/framework/boot.art", "r--p"),
        MemRange::CodeSystem
    );
}

#[test]
fn test_mte_stripping_identity() {
    // tagged and untagged spellings of an address canonicalise alike
    let addr: u64 = 0x00007400001000;
    assert_eq!(
        canonical_address(addr),
        canonical_address(addr | 0xFFFF_0000_0000_0000)
    );
    assert_eq!(canonical_address(0xAB0074000010F0), 0x0074000010F0);
}

#[test]
fn test_access_mode_ids() {
    for id in 0..=4 {
        let m = MemoryAccessMode::from_id(id).unwrap();
        assert_eq!(m.to_id(), id);
    }
    assert!(MemoryAccessMode::from_id(5).is_none());
    assert!(MemoryAccessMode::from_id(2).unwrap().uses_bound_path());
    assert!(!MemoryAccessMode::from_id(0).unwrap().uses_bound_path());
}

#[test]
fn test_merge_regions_and_validity() {
    let regions = vec![
        (0x2000u64, 0x3000u64),
        (0x1000, 0x1800),
        (0x1700, 0x2000),
        (0x5000, 0x6000),
    ];
    let merged = merge_regions(&regions);
    assert_eq!(merged, vec![(0x1000, 0x3000), (0x5000, 0x6000)]);
    assert!(is_valid_pointer(0x1000, &merged));
    assert!(is_valid_pointer(0x2FFF, &merged));
    assert!(!is_valid_pointer(0x3000, &merged));
    assert!(!is_valid_pointer(0x4000, &merged));
    assert!(is_valid_pointer(0x5500, &merged));
    assert!(!is_valid_pointer(0x6000, &merged));
}

#[test]
fn test_empty_region_list_is_invalid_address() {
    // submitting a scan without regions is refused as an invalid address
    let mut mgr = PointerScanManager::new();
    let empty: Vec<(u64, u64)> = Vec::new();
    assert_eq!(
        mgr.start_scan_begin(0x1000, 5, 0x1000, 8, &empty),
        Err(ScanErrorCode::InvalidAddress)
    );
    assert_eq!(mgr.get_error(), ScanErrorCode::InvalidAddress);
    let some = vec![(0x1000u64, 0x2000u64)];
    assert!(mgr.start_scan_begin(0x1000, 5, 0x1000, 8, &some).is_ok());
    assert!(mgr.is_scanning());
    assert_eq!(mgr.get_phase(), ScanPhase::ScanningPointers);
    assert_eq!(
        mgr.start_scan_begin(0x1000, 5, 0x1000, 8, &some),
        Err(ScanErrorCode::AlreadyScanning)
    );
    mgr.commit_completed(3, String::from("chains.txt"));
    assert_eq!(mgr.get_phase(), ScanPhase::Completed);
    let result = mgr.get_scan_result().unwrap();
    assert_eq!(result.total_count, 3);
}

#[test]
fn test_collect_pointers_in_chunk() {
    let base: u64 = 0x7400000000;
    let mut buf = vec![0u8; 0x2000];
    buf[0x1000..0x1008].copy_from_slice(&0x76000000F0u64.to_le_bytes());
    // a tagged value canonicalises before the validity test
    buf[0x1008..0x1010].copy_from_slice(&0xFF00007400000010u64.to_le_bytes());
    let mut bm = PageStatusBitmap::new(buf.len(), base as usize);
    bm.mark_all_success();
    let ranges = merge_regions(&vec![
        (0x7400000000u64, 0x7400010000u64),
        (0x7600000000, 0x7600010040),
    ]);
    let mut out: Vec<PointerData> = Vec::new();
    collect_pointers_in_chunk(&buf, base, 8, &ranges, &bm, &mut out);
    assert_eq!(out.len(), 2);
    assert_eq!(out[0], PointerData::new(base + 0x1000, 0x76000000F0));
    assert_eq!(out[1], PointerData::new(base + 0x1008, 0x7400000010));
}

#[test]
fn test_pointer_chain_walk() {
    // two static module instances; one planted two-hop chain
    let module0 = VmStaticData::new(String::from("lib.so"), 0x7400000000, 0x7400010000, true);
    let mut module1 = VmStaticData::new(String::from("lib.so"), 0x7500000000, 0x7500010000, true);
    module1.index = 1;
    let modules = vec![module0, module1];
    let target: u64 = 0x7600010020;
    let window: u64 = 0x20;

    // the collected pointer library: the root in lib.so[0] and one heap hop
    let root = PointerData::new(0x7400001000, 0x76000000F0);
    let hop = PointerData::new(0x76000000F8, 0x7600010010);
    let global = sort_pointers_by_address(&vec![hop, root]);

    // level 0: the target itself (not inside a static module)
    let mut dirs: Vec<MapQueue<PointerDir>> = Vec::new();
    for _ in 0..3 {
        dirs.push(MapQueue::new());
    }
    let mut ranges: Vec<PointerRange> = Vec::new();
    filter_pointer_ranges(
        &modules,
        &mut dirs,
        &mut ranges,
        vec![PointerData::new(target, 0)],
        0,
    )
    .unwrap();
    assert_eq!(ranges.len(), 0);
    assert_eq!(dirs[0].len(), 1);

    // level 1: pointers that land within the window below the target
    let curr1 = search_pointer(global.as_slice(), &dirs[0], window);
    assert_eq!(curr1, vec![hop]);
    filter_pointer_ranges(&modules, &mut dirs, &mut ranges, curr1, 1).unwrap();
    assert_eq!(dirs[1].len(), 1);
    {
        let (a, b) = dirs.split_at_mut(1);
        create_assoc_dir_index(&a[0], &mut b[0], window);
    }
    assert_eq!(dirs[1].get(0).unwrap().start, 0);
    assert_eq!(dirs[1].get(0).unwrap().end, 1);

    // level 2: the static root links into level 1
    let curr2 = search_pointer(global.as_slice(), &dirs[1], window);
    assert_eq!(curr2, vec![root]);
    filter_pointer_ranges(&modules, &mut dirs, &mut ranges, curr2, 2).unwrap();
    assert_eq!(ranges.len(), 1);
    assert_eq!(ranges[0].level, 2);
    create_assoc_dir_index(&dirs[1], &mut ranges[0].results, window);

    // the prefix-sum table counts exactly one chain below the root
    let info = build_pointer_dirs_tree(&dirs);
    assert_eq!(info.counts.len(), 3);
    assert_eq!(info.counts[0].as_slice().to_vec(), vec![0usize, 1]);
    let root_dir = *ranges[0].results.get(0).unwrap();
    let below = info.counts[2].get(root_dir.end as usize).unwrap()
        - info.counts[2].get(root_dir.start as usize).unwrap();
    assert_eq!(below, 1);

    // the emitted chain re-walks to the target
    let mut chains: Vec<PointerChain> = Vec::new();
    collect_chains_for_range(&info, &ranges[0], target, 100000, &mut chains);
    assert_eq!(chains.len(), 1);
    assert_eq!(chains[0].format(), "lib.so[0]+0x1000->+0x8->+0x10");
    // re-walk: module base + offsets through the recorded values
    let mut addr = 0x7400000000u64 + 0x1000;
    assert_eq!(addr, root.address);
    addr = (root.value as i64 + 0x8) as u64;
    assert_eq!(addr, hop.address);
    addr = (hop.value as i64 + 0x10) as u64;
    assert_eq!(addr, target);
}

#[test]
fn test_pointer_chain_format_negative_offset() {
    let mut chain = PointerChain::new(0x1000);
    chain.push(PointerChainStep::static_root(String::from("libx.so"), 2, 0x1A2B));
    chain.push(PointerChainStep::dynamic_offset(-0x20));
    chain.push(PointerChainStep::dynamic_offset(0x18));
    assert_eq!(chain.format(), "libx.so[2]+0x1A2B->-0x20->+0x18");
    assert_eq!(chain.depth(), 3);
}

#[test]
fn test_scan_config_builders() {
    let cfg = PointerScanConfig::new(0xAB).with_depth(7).with_offset(0x800).with_align(8);
    assert_eq!(cfg.target_address, 0xAB);
    assert_eq!(cfg.max_depth, 7);
    assert_eq!(cfg.max_offset, 0x800);
    assert_eq!(cfg.align, 8);
    let dflt = PointerScanConfig::default();
    assert_eq!(dflt.max_depth, 5);
    assert_eq!(dflt.max_offset, 0x1000);
    assert_eq!(dflt.align, 4);
}

#[test]
fn test_vm_static_data() {
    let vma = VmStaticData::new(String::from("libt.so"), 0x1000, 0x2000, true);
    assert!(vma.contains(0x1000));
    assert!(vma.contains(0x1FFF));
    assert!(!vma.contains(0x2000));
    assert_eq!(vma.offset_from_base(0x1800), 0x800);
    assert_eq!(vma.offset_from_base(0x800), 0);
    let area = VmAreaData::from_static(&vma);
    assert_eq!(area.size(), 0x1000);
    assert_eq!(area.range, MemRange::CData);
}

#[test]
fn test_chain_header_defaults() {
    let hdr = ChainHeader::default();
    assert_eq!(hdr.version, 101);
    assert_eq!(hdr.size, 8);
    assert_eq!(hdr.level, 0);
    assert_eq!(hdr.module_count, 0);
}

#[test]
fn test_map_queue_spill_sum() {
    // ten million pushed values come back complete through iteration
    let mut q: MapQueue<u64> = MapQueue::new();
    let n: u64 = 10_000_000;
    for i in 0..n {
        q.push(i).unwrap();
    }
    assert_eq!(q.len(), n as usize);
    let mut sum: u64 = 0;
    for v in q.as_slice() {
        sum += *v;
    }
    assert_eq!(sum, n * (n - 1) / 2);
    q.truncate(10);
    assert_eq!(q.len(), 10);
    assert_eq!(q.pop(), Some(9));
    assert_eq!(q.first().copied(), Some(0));
}

#[test]
fn test_map_queue_reserve_and_resize() {
    let mut q: MapQueue<u32> = MapQueue::with_capacity(4).unwrap();
    assert_eq!(q.capacity(), 4);
    q.extend_from_slice(&[1, 2, 3]).unwrap();
    q.resize(5, 9).unwrap();
    assert_eq!(q.as_slice(), &[1, 2, 3, 9, 9]);
    q.resize(2, 0).unwrap();
    assert_eq!(q.as_slice(), &[1, 2]);
    assert_eq!(q.last().copied(), Some(2));
    q.clear();
    assert!(q.is_empty());
}

#[test]
fn test_status_buffer_layout() {
    let mut sb = PointerScanSharedBuffer::new();
    assert!(!sb.is_initialized());
    assert!(!sb.set(10));
    assert!(sb.set(48));
    assert!(sb.is_initialized());
    sb.write_phase(ScanPhase::Searching);
    sb.write_progress(250);
    sb.write_regions_done(3);
    sb.write_pointers_found(77);
    sb.write_current_depth(2);
    sb.write_error_code(ScanErrorCode::NoError);
    let img = sb.image();
    assert_eq!(i32::from_le_bytes(img[0..4].try_into().unwrap()), 7);
    // out-of-range progress clamps to the top of the bar
    assert_eq!(i32::from_le_bytes(img[4..8].try_into().unwrap()), 100);
    assert_eq!(i32::from_le_bytes(img[8..12].try_into().unwrap()), 3);
    assert_eq!(i64::from_le_bytes(img[12..20].try_into().unwrap()), 77);
    assert_eq!(i32::from_le_bytes(img[28..32].try_into().unwrap()), 2);
    assert!(!sb.is_cancel_requested());
    sb.write_progress(-5);
    let img2 = sb.image();
    assert_eq!(i32::from_le_bytes(img2[4..8].try_into().unwrap()), 0);
}

#[test]
fn test_scan_phase_ids() {
    assert_eq!(ScanPhase::from_id(3), ScanPhase::Completed);
    assert_eq!(ScanPhase::from_id(6), ScanPhase::WritingFile);
    assert_eq!(ScanPhase::from_id(99), ScanPhase::Idle);
    assert_eq!(ScanPhase::Cancelled.to_id(), 4);
    assert_eq!(ScanErrorCode::StorageError.to_id(), 7);
}

#[test]
fn test_build_chain_levels_walk() {
    // the one-shot walk matches the hand-driven levels
    let module0 = VmStaticData::new(String::from("lib.so"), 0x7400000000, 0x7400010000, true);
    let modules = vec![module0];
    let target: u64 = 0x7600010020;
    let window: u64 = 0x20;
    let root = PointerData::new(0x7400001000, 0x76000000F0);
    let hop = PointerData::new(0x76000000F8, 0x7600010010);
    let sorted = sort_pointers_by_address(&vec![hop, root]);
    let mut global: MapQueue<PointerData> = MapQueue::new();
    global.extend_from_slice(sorted.as_slice()).unwrap();

    let (dirs, ranges) = build_chain_levels(&global, &modules, target, 2, window);
    assert_eq!(dirs.len(), 3);
    // level 0: the target itself, outside every module
    assert_eq!(dirs[0].len(), 1);
    assert_eq!(dirs[0].get(0).unwrap().address, target);
    // level 1: the heap hop, bound to the target below it
    assert_eq!(dirs[1].len(), 1);
    assert_eq!(dirs[1].get(0).unwrap().address, hop.address);
    assert_eq!(dirs[1].get(0).unwrap().start, 0);
    assert_eq!(dirs[1].get(0).unwrap().end, 1);
    // level 2: the static root left through the module band
    assert_eq!(dirs[2].len(), 0);
    assert_eq!(ranges.len(), 1);
    assert_eq!(ranges[0].level, 2);
    assert_eq!(ranges[0].results.len(), 1);
    let rd = *ranges[0].results.get(0).unwrap();
    assert_eq!(rd.address, root.address);
    assert_eq!((rd.start, rd.end), (0, 1));

    // the unclamped total agrees with the emitted chains
    let info = build_pointer_dirs_tree(&dirs);
    assert_eq!(count_total_chains(&info, &ranges), 1);
    let mut chains: Vec<PointerChain> = Vec::new();
    collect_chains_for_range(&info, &ranges[0], target, 100000, &mut chains);
    assert_eq!(chains.len(), 1);
    assert_eq!(chains[0].format(), "lib.so[0]+0x1000->+0x8->+0x10");
}
