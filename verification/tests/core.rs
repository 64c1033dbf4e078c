use rawmem::AddressRemapper;
use rawmem::MemError;
use rawmem::MemRaw;
use rawmem::ReadRequest;
use rawmem::WriteRequest;

fn image_of(bytes: &[u8]) -> Vec<u8> {
    bytes.to_vec()
}

fn sixteen() -> Vec<u8> {
    (0u8..16).collect()
}

#[test]
fn metadata_identity() {
    let m = MemRaw::with_image(image_of(&[9; 8]), 0x100, false).unwrap();
    let md = m.metadata();
    assert_eq!(md.max_address, 0x107);
    assert_eq!(md.real_size, 8);
    assert!(md.readonly);

    let m = MemRaw::with_image(image_of(&[9; 8]), 0x100, true).unwrap();
    let md = m.metadata();
    assert_eq!(md.max_address, 0x107);
    assert_eq!(md.real_size, 8);
    assert!(!md.readonly);
}

#[test]
fn metadata_base_zero() {
    let m = MemRaw::with_image(image_of(&[1, 2, 3]), 0, false).unwrap();
    let md = m.metadata();
    assert_eq!(md.max_address, 2);
    assert_eq!(md.real_size, 3);
}

#[test]
fn translate_in_and_out_of_bounds() {
    let map = AddressRemapper::identity(0x1000, 16).unwrap();
    assert_eq!(map.translate(0x1000, 4), Ok(0));
    assert_eq!(map.translate(0x100f, 1), Ok(0xf));
    assert_eq!(map.translate(0x1008, 8), Ok(8));
    assert_eq!(map.translate(0xfff, 1), Err(MemError::OutOfBounds));
    assert_eq!(map.translate(0x100d, 4), Err(MemError::OutOfBounds));
    assert_eq!(map.translate(0x1010, 1), Err(MemError::OutOfBounds));
    assert_eq!(map.translate(0x0, 1), Err(MemError::OutOfBounds));
}

#[test]
fn push_remap_rejects_bad_entries() {
    let mut map = AddressRemapper::new();
    assert_eq!(map.push_remap(0x1000, 0, 0), Err(MemError::MappingFailed));
    assert_eq!(map.push_remap(0x1000, 16, 0), Ok(()));
    // overlapping destination range
    assert_eq!(map.push_remap(0x1008, 16, 16), Err(MemError::OutOfBounds));
    // destination range overflows the address domain
    assert_eq!(map.push_remap(u64::MAX, 2, 0), Err(MemError::OutOfBounds));
    // adjacent is fine
    assert_eq!(map.push_remap(0x1010, 16, 16), Ok(()));
    assert_eq!(map.translate(0x1010, 4), Ok(16));
}

#[test]
fn read_scenario_base_0x1000() {
    let m = MemRaw::with_image(sixteen(), 0x1000, false).unwrap();
    assert_eq!(m.read_at(0x1000, 4), Ok(vec![0x00, 0x01, 0x02, 0x03]));
    assert_eq!(m.read_at(0x1010, 1), Err(MemError::OutOfBounds));
}

#[test]
fn write_scenario_base_zero() {
    let mut m = MemRaw::with_image((10u8..18).collect(), 0x0, true).unwrap();
    assert_eq!(m.write_at(0x4, &vec![0xff, 0xff]), Ok(()));
    assert_eq!(
        m.read_at(0x0, 8),
        Ok(vec![10, 11, 12, 13, 0xff, 0xff, 16, 17])
    );
}

#[test]
fn write_then_read_round_trip() {
    let mut m = MemRaw::with_image(image_of(&[0; 32]), 0x2000, true).unwrap();
    let md_before = m.metadata();
    let data = vec![1, 2, 3, 4, 5];
    assert_eq!(m.write_at(0x2010, &data), Ok(()));
    assert_eq!(m.read_at(0x2010, 5), Ok(data));
    // metadata was computed at construction and never changes
    assert_eq!(m.metadata(), md_before);
}

#[test]
fn empty_remap_table_fails_mapping() {
    let map = AddressRemapper::new();
    assert!(matches!(
        MemRaw::with_mem_map(image_of(&[1, 2, 3]), map, true),
        Err(MemError::MappingFailed)
    ));
}

#[test]
fn repeated_reads_are_identical() {
    let m = MemRaw::with_image(sixteen(), 0x0, false).unwrap();
    let first = m.read_at(0x4, 8);
    let second = m.read_at(0x4, 8);
    assert_eq!(first, second);
    let md1 = m.metadata();
    let md2 = m.metadata();
    assert_eq!(md1, md2);
}

#[test]
fn read_only_rejects_every_write_and_keeps_bytes() {
    let mut m = MemRaw::with_image(sixteen(), 0x0, false).unwrap();
    let before = m.read_at(0x0, 16).unwrap();
    let batch = vec![
        WriteRequest { address: 0x0, data: vec![0xff] },
        WriteRequest { address: 0x8, data: vec![1, 2, 3] },
        // even an out-of-bounds element reports the read-only violation
        WriteRequest { address: 0x100, data: vec![9] },
    ];
    let outs = m.phys_write(&batch);
    assert_eq!(outs.len(), 3);
    for r in &outs {
        assert_eq!(*r, Err(MemError::ReadOnlyViolation));
    }
    assert_eq!(m.read_at(0x0, 16).unwrap(), before);
}

#[test]
fn single_write_on_read_only_fails() {
    let mut m = MemRaw::with_image(sixteen(), 0x1000, false).unwrap();
    assert_eq!(
        m.write_at(0x1000, &vec![1]),
        Err(MemError::ReadOnlyViolation)
    );
}

#[test]
fn batched_read_reports_per_element() {
    let m = MemRaw::with_image(sixteen(), 0x1000, false).unwrap();
    let batch = vec![
        ReadRequest { address: 0x1000, length: 2 },
        ReadRequest { address: 0x1020, length: 1 },
        ReadRequest { address: 0x100e, length: 2 },
    ];
    let outs = m.phys_read(&batch);
    assert_eq!(outs.len(), 3);
    assert_eq!(outs[0], Ok(vec![0x00, 0x01]));
    assert_eq!(outs[1], Err(MemError::OutOfBounds));
    assert_eq!(outs[2], Ok(vec![0x0e, 0x0f]));
}

#[test]
fn batched_write_is_best_effort_and_ordered() {
    let mut m = MemRaw::with_image(image_of(&[0; 8]), 0x0, true).unwrap();
    let batch = vec![
        WriteRequest { address: 0x0, data: vec![1, 1] },
        WriteRequest { address: 0x100, data: vec![9] },
        WriteRequest { address: 0x1, data: vec![7] },
    ];
    let outs = m.phys_write(&batch);
    assert_eq!(outs.len(), 3);
    assert_eq!(outs[0], Ok(()));
    assert_eq!(outs[1], Err(MemError::OutOfBounds));
    assert_eq!(outs[2], Ok(()));
    // the later element sees the earlier write
    assert_eq!(m.read_at(0x0, 3).unwrap(), vec![1, 7, 0]);
}

#[test]
fn empty_image_fails_mapping() {
    assert!(matches!(
        MemRaw::with_image(Vec::new(), 0x0, false),
        Err(MemError::MappingFailed)
    ));
    assert!(matches!(
        MemRaw::with_image(Vec::new(), 0x0, true),
        Err(MemError::MappingFailed)
    ));
}

#[test]
fn base_overflow_fails_construction() {
    assert!(matches!(
        MemRaw::with_image(image_of(&[1, 2]), u64::MAX, false),
        Err(MemError::OutOfBounds)
    ));
    // the last byte may sit exactly at the top of the address domain
    let m = MemRaw::with_image(image_of(&[1, 2]), u64::MAX - 2, false).unwrap();
    assert_eq!(m.metadata().max_address, u64::MAX - 1);
}

#[test]
fn short_io_on_entry_past_image_end() {
    // a remap table that promises more bytes than the image holds
    let mut map = AddressRemapper::new();
    map.push_remap(0x0, 10, 0).unwrap();
    let mut m = MemRaw::with_mem_map(image_of(&[5; 4]), map, true).unwrap();
    assert_eq!(m.read_at(0x0, 10), Err(MemError::ShortIo));
    assert_eq!(m.read_at(0x8, 2), Err(MemError::ShortIo));
    assert_eq!(m.read_at(0x0, 4), Ok(vec![5, 5, 5, 5]));
    assert_eq!(m.write_at(0x2, &vec![1, 1, 1]), Err(MemError::ShortIo));
    assert_eq!(m.write_at(0x2, &vec![1, 1]), Ok(()));
}

#[test]
fn with_mem_map_two_entries() {
    // two disjoint destination windows into one image
    let mut map = AddressRemapper::new();
    map.push_remap(0x1000, 4, 0).unwrap();
    map.push_remap(0x2000, 4, 4).unwrap();
    let m = MemRaw::with_mem_map(sixteen(), map, false).unwrap();
    let md = m.metadata();
    assert_eq!(md.real_size, 8);
    assert_eq!(md.max_address, 0x2003);
    assert_eq!(m.read_at(0x1000, 4).unwrap(), vec![0, 1, 2, 3]);
    assert_eq!(m.read_at(0x2000, 4).unwrap(), vec![4, 5, 6, 7]);
    assert_eq!(m.read_at(0x1800, 1), Err(MemError::OutOfBounds));
}

#[test]
fn error_descriptions() {
    assert_eq!(MemError::OpenFailed.describe(), "open failed");
    assert_eq!(MemError::StatFailed.describe(), "stat failed");
    assert_eq!(MemError::MappingFailed.describe(), "mapping failed");
    assert_eq!(MemError::OutOfBounds.describe(), "address out of bounds");
    assert_eq!(
        MemError::ReadOnlyViolation.describe(),
        "write to read-only memory"
    );
    assert_eq!(MemError::ShortIo.describe(), "short read or write");
}
