use mmreg::{create_mapper, page_window, probe_verdict, uio_region_offset, MapperType, ProbeVerdict};

#[test]
fn page_window_splits_address() {
    assert_eq!(page_window(0x4000_0123, 0x1000), (0x4000_0000, 0x123));
    assert_eq!(page_window(0x4000_0000, 0x1000), (0x4000_0000, 0));
    assert_eq!(page_window(0xFFFF_FFFF_FFFF_FFFF, 0x10000), (0xFFFF_FFFF_FFFF_0000, 0xFFFF));
    assert_eq!(page_window(0x1234, 1), (0x1234, 0));
}

#[test]
fn mapper_map_and_release() {
    let mut m = create_mapper(MapperType::DevMem);
    assert!(!m.mapped);
    assert_eq!(m.map_size, 0);
    assert_eq!(m.record_map(0x1000, Ok(0x44)), Ok(0x44));
    assert!(m.mapped);
    assert_eq!(m.release(), Ok(0x1000));
    assert_eq!(m.release(), Err("Memory not mapped".to_string()));
}

#[test]
fn uio_mapper_offset_is_zero() {
    let mut m = create_mapper(MapperType::Uio { device_path: "/dev/uio0".to_string(), region_index: 1 });
    assert_eq!(m.record_map(0x100, Ok(0x44)), Ok(0));
    assert_eq!(m.map_size, 0x100);
}

#[test]
fn failed_map_changes_nothing() {
    let mut m = create_mapper(MapperType::DevMem);
    assert_eq!(m.record_map(0x100, Err("mmap failed".to_string())), Err("mmap failed".to_string()));
    assert!(!m.mapped);
    assert_eq!(m.map_size, 0);
}

#[test]
fn uio_region_offsets() {
    assert_eq!(uio_region_offset(0, 4096), 0);
    assert_eq!(uio_region_offset(3, 4096), 12288);
}

#[test]
fn probe_verdicts() {
    assert_eq!(probe_verdict(Some(0), None), ProbeVerdict::Accessible);
    assert_eq!(probe_verdict(Some(1), None), ProbeVerdict::NotAccessible);
    assert_eq!(probe_verdict(None, Some(7)), ProbeVerdict::KilledBySignal(7));
    assert_eq!(probe_verdict(None, None), ProbeVerdict::Unexpected);
}
