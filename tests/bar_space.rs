use hwalloc::bar32alloc::{parse_range, AddressRange, PciMemory32Allocator, PciRangeType};
use hwalloc::bars::{allocate_bar, BarDescriptor, BarStep, BarWrite, MemoryBarKind};
use hwalloc::error::AllocError;

fn record(head: u8, bus: u64, host: u64, size: u64) -> Vec<u8> {
    let mut r = vec![head, 0, 0, 0];
    r.extend_from_slice(&bus.to_be_bytes());
    r.extend_from_slice(&host.to_be_bytes());
    r.extend_from_slice(&size.to_be_bytes());
    r
}

#[test]
fn bar_allocation_example() {
    let mut a = PciMemory32Allocator::new(0x1000, 0x2000);
    assert_eq!(a.allocate_memory_32(0x100), Ok(0x1000));
    assert_eq!(a.allocate_memory_32(0x200), Ok(0x1200));
    assert_eq!(a.start(), 0x1400);
    assert_eq!(a.allocate_memory_32(0x1000), Err(AllocError::AllocationExhausted));
    assert_eq!(a.start(), 0x1400);
}

#[test]
fn bar_allocations_aligned_and_disjoint() {
    let mut a = PciMemory32Allocator::new(0x1000, 0x2000);
    let sizes: [u32; 6] = [0x10, 0x400, 0x8, 0x100, 0x800, 0x20];
    let mut got: Vec<(u32, u32)> = Vec::new();
    for s in sizes {
        if let Ok(addr) = a.allocate_memory_32(s) {
            assert_eq!(addr % s, 0);
            assert!(addr >= 0x1000 && addr + s <= 0x2000);
            got.push((addr, s));
        }
    }
    assert!(got.len() >= 4);
    for i in 0..got.len() {
        for j in (i + 1)..got.len() {
            assert!(got[i].0 + got[i].1 <= got[j].0);
        }
    }
}

#[test]
fn bar_size_not_power_of_two() {
    let mut a = PciMemory32Allocator::new(0x1000, 0x2000);
    assert_eq!(a.allocate_memory_32(0x300), Err(AllocError::InvalidArgument));
    assert_eq!(a.allocate_memory_32(0), Err(AllocError::InvalidArgument));
    assert_eq!(a.start(), 0x1000);
}

#[test]
fn bar_allocation_from_zero_and_up_to_the_end() {
    let mut a = PciMemory32Allocator::new(0, 0x100);
    assert_eq!(a.allocate_memory_32(0x10), Ok(0));
    assert_eq!(a.allocate_memory_32(0x80), Ok(0x80));
    assert_eq!(a.start(), 0x100);
    assert_eq!(a.end(), 0x100);
    assert_eq!(a.allocate_memory_32(1), Err(AllocError::AllocationExhausted));
}

#[test]
fn range_type_codes() {
    assert_eq!(PciRangeType::from(0), PciRangeType::ConfigurationSpace);
    assert_eq!(PciRangeType::from(1), PciRangeType::IoSpace);
    assert_eq!(PciRangeType::from(2), PciRangeType::Memory32);
    assert_eq!(PciRangeType::from(3), PciRangeType::Memory64);
}

#[test]
fn parse_one_record() {
    let bytes = record(0x83, 0x0102_0304_0506_0708, 0x1112_1314_1516_1718, 0x2000);
    let r = parse_range(&bytes, 0);
    assert_eq!(
        r,
        AddressRange {
            kind: PciRangeType::Memory64,
            prefetchable: true,
            bus_address: 0x0102_0304_0506_0708,
            host_address: 0x1112_1314_1516_1718,
            size: 0x2000,
        }
    );
}

#[test]
fn range_selection_example() {
    let mut table = record(0x01, 0x0, 0x3eff_0000, 0x1000);
    table.extend(record(0x03, 0x1000_0000, 0x1000_0000, 0x1000_0000));
    let a = PciMemory32Allocator::from_ranges(&table).unwrap();
    assert_eq!(a.start(), 0x1000_0000);
    assert_eq!(a.end(), 0x2000_0000);
}

#[test]
fn range_selection_prefers_largest_low_window() {
    let mut table = record(0x02, 0x4000_0000, 0x4000_0000, 0x10_0000);
    table.extend(record(0x83, 0x5000_0000, 0x5000_0000, 0x1000_0000));
    table.extend(record(0x03, 0x1_0000_0000, 0x1_0000_0000, 0x1_0000_0000));
    table.extend(record(0x02, 0x6000_0000, 0x6000_0000, 0x100_0000));
    table.extend(record(0x03, 0x7000_0000, 0x7000_0000, 0x100_0000));
    table.extend_from_slice(&[0xff, 0xff, 0xff]);
    let a = PciMemory32Allocator::from_ranges(&table).unwrap();
    assert_eq!(a.start(), 0x6000_0000);
    assert_eq!(a.end(), 0x6100_0000);
}

#[test]
fn range_selection_without_window() {
    let table = record(0x01, 0x0, 0x0, 0x1000);
    assert_eq!(
        PciMemory32Allocator::from_ranges(&table).map(|a| a.start()),
        Err(AllocError::ConfigurationError)
    );
    assert_eq!(
        PciMemory32Allocator::from_ranges(&[]).map(|a| a.start()),
        Err(AllocError::ConfigurationError)
    );
}

#[test]
fn range_selection_not_identity_mapped() {
    let table = record(0x02, 0x1000_0000, 0x8000_0000, 0x1000);
    assert_eq!(
        PciMemory32Allocator::from_ranges(&table).map(|a| a.start()),
        Err(AllocError::ConfigurationError)
    );
}

#[test]
fn bar_steps() {
    let mut a = PciMemory32Allocator::new(0x1000_0000, 0x2000_0000);
    assert_eq!(
        allocate_bar(&mut a, 0, BarDescriptor::Io { size: 0x20 }),
        Ok(BarStep { write: BarWrite::Unchanged, next_index: 1 })
    );
    let m32 = BarDescriptor::Memory { address_type: MemoryBarKind::Width32, prefetchable: false, size: 0x1000 };
    assert_eq!(
        allocate_bar(&mut a, 1, m32),
        Ok(BarStep { write: BarWrite::Bar32 { index: 1, address: 0x1000_0000 }, next_index: 2 })
    );
    let m64 = BarDescriptor::Memory { address_type: MemoryBarKind::Width64, prefetchable: true, size: 0x4000 };
    assert_eq!(
        allocate_bar(&mut a, 2, m64),
        Ok(BarStep { write: BarWrite::Bar64 { index: 2, address: 0x1000_4000 }, next_index: 4 })
    );
    let empty64 = BarDescriptor::Memory { address_type: MemoryBarKind::Width64, prefetchable: false, size: 0 };
    assert_eq!(
        allocate_bar(&mut a, 4, empty64),
        Ok(BarStep { write: BarWrite::Unchanged, next_index: 6 })
    );
    assert_eq!(a.start(), 0x1000_8000);
}

#[test]
fn bar_step_errors() {
    let mut a = PciMemory32Allocator::new(0x1000, 0x2000);
    let low = BarDescriptor::Memory { address_type: MemoryBarKind::Below1MiB, prefetchable: false, size: 0x10 };
    assert_eq!(allocate_bar(&mut a, 0, low), Err(AllocError::UnsupportedHardware));
    let big = BarDescriptor::Memory { address_type: MemoryBarKind::Width32, prefetchable: false, size: 0x2000 };
    assert_eq!(allocate_bar(&mut a, 0, big), Err(AllocError::AllocationExhausted));
    let odd = BarDescriptor::Memory { address_type: MemoryBarKind::Width32, prefetchable: false, size: 0x30 };
    assert_eq!(allocate_bar(&mut a, 0, odd), Err(AllocError::InvalidArgument));
    assert_eq!(a.start(), 0x1000);
}

#[test]
fn range_selection_window_up_to_top_of_32_bit_space() {
    let table = record(0x02, 0xf000_0000, 0xf000_0000, 0x0fff_ffff);
    let a = PciMemory32Allocator::from_ranges(&table).unwrap();
    assert_eq!(a.start(), 0xf000_0000);
    assert_eq!(a.end(), 0xffff_ffff);
    let too_far = record(0x02, 0xf000_0000, 0xf000_0000, 0x1000_0000);
    assert_eq!(
        PciMemory32Allocator::from_ranges(&too_far).map(|a| a.start()),
        Err(AllocError::ConfigurationError)
    );
}

#[test]
fn range_selection_top_window_not_identity_mapped() {
    let mut table = record(0x02, 0x1000_0000, 0x1000_0000, 0x1000);
    table.extend(record(0x02, 0xf000_0000, 0x7000_0000, 0x0fff_ffff));
    assert_eq!(
        PciMemory32Allocator::from_ranges(&table).map(|a| a.start()),
        Err(AllocError::ConfigurationError)
    );
}

#[test]
fn range_selection_ignores_mapping_of_smaller_records() {
    let large = record(0x02, 0x1000_0000, 0x1000_0000, 0x1000_0000);
    let small = record(0x02, 0x4000_0000, 0x5000_0000, 0x1000);
    let mut first = large.clone();
    first.extend(small.clone());
    let mut second = small;
    second.extend(large);
    for table in [first, second] {
        let a = PciMemory32Allocator::from_ranges(&table).unwrap();
        assert_eq!(a.start(), 0x1000_0000);
        assert_eq!(a.end(), 0x2000_0000);
    }
}
