use hook86::mem::{
    AddressScan, ByteSearcher, ModuleEntry, PatternScan, RegionInfo, PAGE_EXECUTE_READ,
    PAGE_READONLY, PAGE_READWRITE,
};

fn region(base: u32, size: u32, committed: bool, protect: u32) -> RegionInfo {
    RegionInfo { base, size, committed, protect }
}

#[test]
fn single_pattern_short_circuits_before_later_regions() {
    // two ranges; the pattern sits in the first, so the second is never queried
    let mut scan: PatternScan = ByteSearcher::find_bytes_in_ranges(
        vec![b"AB".to_vec()],
        None,
        vec![(0x1000, 0x2000), (0x8000, 0x9000)],
    );
    assert_eq!(scan.next_query(), Some(0x1000));
    let accepted = scan.walk.advance(Some(region(0x1000, 0x1000, true, PAGE_READWRITE)));
    assert_eq!(accepted, Some((0x1000, 0x1000)));
    let mut bytes = vec![0u8; 0x1000];
    bytes[5] = b'A';
    bytes[6] = b'B';
    scan.scan_region(0x1000, &bytes);
    assert_eq!(scan.results[0], Some(0x1005));
    // resolved: the scan stops asking, without ever reaching the second range
    assert_eq!(scan.next_query(), None);
}

#[test]
fn empty_pattern_list_never_queries() {
    let scan: PatternScan =
        ByteSearcher::find_bytes_in_ranges(vec![], None, vec![(0x1000, 0x2000)]);
    assert_eq!(scan.next_query(), None);
}

#[test]
fn first_match_wins_within_a_region() {
    let mut scan: PatternScan =
        ByteSearcher::find_bytes_in_ranges(vec![vec![0xCC, 0xCC]], None, vec![(0x1000, 0x2000)]);
    let bytes = vec![0x00, 0xCC, 0xCC, 0xCC, 0x00];
    scan.scan_region(0x1000, &bytes);
    assert_eq!(scan.results[0], Some(0x1001));
}

#[test]
fn pattern_not_found_is_no_error() {
    let mut scan: PatternScan =
        ByteSearcher::find_bytes_in_ranges(vec![b"XYZ".to_vec()], None, vec![(0x1000, 0x1800)]);
    assert_eq!(scan.next_query(), Some(0x1000));
    assert_eq!(
        scan.walk.advance(Some(region(0x1000, 0x800, true, PAGE_READONLY))),
        Some((0x1000, 0x800))
    );
    scan.scan_region(0x1000, &vec![0u8; 0x800]);
    // the range is exhausted, the pattern unresolved
    assert_eq!(scan.next_query(), None);
    assert_eq!(scan.results[0], None);
}

#[test]
fn uncommitted_and_filtered_regions_are_skipped() {
    let mut scan: PatternScan = ByteSearcher::find_bytes_in_ranges(
        vec![b"AB".to_vec()],
        Some(PAGE_READWRITE),
        vec![(0x1000, 0x3000)],
    );
    // not committed: skipped, but the walk moves past it
    assert_eq!(scan.walk.advance(Some(region(0x1000, 0x1000, false, PAGE_READWRITE))), None);
    assert_eq!(scan.next_query(), Some(0x2000));
    // wrong protection for the filter: skipped too
    assert_eq!(scan.walk.advance(Some(region(0x2000, 0x800, true, PAGE_EXECUTE_READ))), None);
    assert_eq!(scan.next_query(), Some(0x2800));
    // readable + writable region within the filter qualifies
    assert_eq!(
        scan.walk.advance(Some(region(0x2800, 0x800, true, PAGE_READWRITE))),
        Some((0x2800, 0x800))
    );
    assert_eq!(scan.next_query(), None);
}

#[test]
fn failed_query_skips_the_rest_of_the_range() {
    let mut scan: PatternScan = ByteSearcher::find_bytes_in_ranges(
        vec![b"AB".to_vec()],
        None,
        vec![(0x1000, 0x2000), (0x5000, 0x6000)],
    );
    assert_eq!(scan.next_query(), Some(0x1000));
    assert_eq!(scan.walk.advance(None), None);
    assert_eq!(scan.next_query(), Some(0x5000));
}

#[test]
fn empty_ranges_are_never_queried() {
    let scan: PatternScan = ByteSearcher::find_bytes_in_ranges(
        vec![b"AB".to_vec()],
        None,
        vec![(0x2000, 0x2000), (0x3000, 0x2000)],
    );
    assert_eq!(scan.next_query(), None);
}

#[test]
fn address_scan_finds_contained_addresses() {
    let mut scan: AddressScan = ByteSearcher::find_addresses_in_ranges(
        vec![0x1800, 0x7000],
        None,
        vec![(0x1000, 0x2000)],
    );
    assert_eq!(scan.next_query(), Some(0x1000));
    let accepted = scan.walk.advance(Some(region(0x1000, 0x1000, true, PAGE_READONLY)));
    assert_eq!(accepted, Some((0x1000, 0x1000)));
    scan.check_region(0x1000, 0x1000);
    assert_eq!(scan.found, vec![true, false]);
    // the range is exhausted; the second address was nowhere
    assert_eq!(scan.next_query(), None);
}

#[test]
fn address_scan_short_circuits_when_all_found() {
    let mut scan: AddressScan =
        ByteSearcher::find_addresses_in_ranges(vec![0x1234], None, vec![(0x1000, 0x9000)]);
    scan.walk.advance(Some(region(0x1000, 0x1000, true, PAGE_READONLY)));
    scan.check_region(0x1000, 0x1000);
    assert_eq!(scan.found, vec![true]);
    assert_eq!(scan.next_query(), None);
}

#[test]
fn write_and_exec_presets_pick_their_protections() {
    let searcher = ByteSearcher::new();
    let scan = searcher.find_addresses_write(vec![0x1234], &vec![]);
    let mut s = scan;
    // a read-only region does not pass the writable preset
    assert_eq!(s.next_query(), Some(0x1000));
    assert_eq!(s.walk.advance(Some(region(0x1000, 0x1000, true, PAGE_READONLY))), None);
    // a read-write region does
    assert_eq!(
        s.walk.advance(Some(region(0x2000, 0x1000, true, PAGE_READWRITE))),
        Some((0x2000, 0x1000))
    );

    let mut s = searcher.find_addresses_exec(vec![0x1234], &vec![]);
    assert_eq!(s.walk.advance(Some(region(0x1000, 0x1000, true, PAGE_READWRITE))), None);
    assert_eq!(
        s.walk.advance(Some(region(0x2000, 0x1000, true, PAGE_EXECUTE_READ))),
        Some((0x2000, 0x1000))
    );
}

#[test]
fn discovery_records_lowercased_ranges() {
    let mut searcher = ByteSearcher::new();
    searcher.discover_modules(&vec![
        ModuleEntry { name: b"Kernel32.DLL".to_vec(), base: 0x10000, size: 0x5000 },
        ModuleEntry { name: b"ntdll.dll".to_vec(), base: 0x20000, size: 0x8000 },
    ]);
    assert_eq!(searcher.modules.len(), 2);
    assert_eq!(searcher.modules[0].name, b"kernel32.dll".to_vec());
    assert_eq!(searcher.modules[0].start, 0x10000);
    assert_eq!(searcher.modules[0].end, 0x15000);
    assert_eq!(searcher.get_module_range(&b"KERNEL32.dll".to_vec()), Some((0x10000, 0x15000)));
    assert_eq!(searcher.get_module_range(&b"ntdll.dll".to_vec()), Some((0x20000, 0x28000)));
    assert_eq!(searcher.get_module_range(&b"user32.dll".to_vec()), None);
}

#[test]
fn discovery_twice_yields_identical_ranges() {
    let entries = vec![
        ModuleEntry { name: b"Kernel32.DLL".to_vec(), base: 0x10000, size: 0x5000 },
        ModuleEntry { name: b"ntdll.dll".to_vec(), base: 0x20000, size: 0x8000 },
    ];
    let mut first = ByteSearcher::new();
    first.discover_modules(&entries);
    let mut second = ByteSearcher::new();
    second.discover_modules(&entries);
    assert_eq!(first.modules, second.modules);
    // and re-discovery on the same searcher replaces, not appends
    first.discover_modules(&entries);
    assert_eq!(first.modules, second.modules);
}

#[test]
fn module_scoped_search_takes_the_named_ranges() {
    let mut searcher = ByteSearcher::new();
    searcher.discover_modules(&vec![
        ModuleEntry { name: b"a.dll".to_vec(), base: 0x10000, size: 0x1000 },
        ModuleEntry { name: b"b.dll".to_vec(), base: 0x20000, size: 0x1000 },
    ]);
    let ranges =
        searcher.get_module_ranges(&vec![b"B.DLL".to_vec(), b"missing.dll".to_vec(), b"a.dll"
            .to_vec()]);
    assert_eq!(ranges, vec![(0x20000, 0x21000), (0x10000, 0x11000)]);
    let scan = searcher.find_bytes(vec![b"AB".to_vec()], None, &vec![b"a.dll".to_vec()]);
    assert_eq!(scan.next_query(), Some(0x10000));
}

#[test]
fn repeated_module_entries_resolve_to_the_latest() {
    let mut searcher = ByteSearcher::new();
    searcher.discover_modules(&vec![
        ModuleEntry { name: b"a.dll".to_vec(), base: 0x10000, size: 0x1000 },
        ModuleEntry { name: b"A.DLL".to_vec(), base: 0x30000, size: 0x2000 },
    ]);
    assert_eq!(searcher.get_module_range(&b"a.dll".to_vec()), Some((0x30000, 0x32000)));
}
