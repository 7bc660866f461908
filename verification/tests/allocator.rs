use hypervisor_fw::efi::allocator::{
    Allocator, MemoryDescriptor, Status, ALLOCATE_ADDRESS, ALLOCATE_ANY_PAGES, ALLOCATE_MAX_ADDRESS,
    CONVENTIONAL_MEMORY, LOADER_DATA, MAX_ALLOCATIONS, MEMORY_MAPPED_IO,
};

const PAGE_SIZE: u64 = 4096;

fn add_initial_allocations(allocator: &mut Allocator) {
    // Add range 0 - 0x9fc00
    assert_eq!(
        allocator.add_initial_allocation(CONVENTIONAL_MEMORY, allocator.page_count(0x9fc00), 0, 0),
        Status::Success
    );

    assert_eq!(allocator.first_allocation(), Some(0));
    assert!(allocator.allocation(0).in_use);
    assert_eq!(allocator.allocation(0).next_allocation, None);
    assert_eq!(allocator.allocation(0).descriptor.physical_start, 0);
    assert_eq!(allocator.allocation(0).descriptor.number_of_pages, allocator.page_count(0x9fc00));

    // Add range 1 - 128MiB
    assert_eq!(
        allocator.add_initial_allocation(
            CONVENTIONAL_MEMORY,
            allocator.page_count(127 * 1024 * 1024),
            1024 * 1024,
            0
        ),
        Status::Success
    );
    assert_eq!(allocator.first_allocation(), Some(0));
    assert!(allocator.allocation(0).in_use);
    assert_eq!(allocator.allocation(0).next_allocation, Some(1));
    assert_eq!(allocator.allocation(0).descriptor.physical_start, 0);
    assert_eq!(allocator.allocation(0).descriptor.number_of_pages, allocator.page_count(0x9fc00));

    assert!(allocator.allocation(1).in_use);
    assert_eq!(allocator.allocation(1).next_allocation, None);
    assert_eq!(allocator.allocation(1).descriptor.physical_start, 1024 * 1024);
    assert_eq!(
        allocator.allocation(1).descriptor.number_of_pages,
        allocator.page_count(127 * 1024 * 1024)
    );
    assert_eq!(allocator.allocation(0).descriptor.memory_type, CONVENTIONAL_MEMORY);

    // Add range 3.5GiB to 4.0
    assert_eq!(
        allocator.add_initial_allocation(
            MEMORY_MAPPED_IO,
            allocator.page_count(512 * 1024 * 1024),
            3584 * 1024 * 1024,
            0
        ),
        Status::Success
    );

    assert!(allocator.allocation(2).in_use);
    assert_eq!(allocator.allocation(2).next_allocation, None);
    assert_eq!(allocator.allocation(2).descriptor.physical_start, 3584 * 1024 * 1024);
    assert_eq!(
        allocator.allocation(2).descriptor.number_of_pages,
        allocator.page_count(512 * 1024 * 1024)
    );
    assert_eq!(allocator.allocation(2).descriptor.memory_type, MEMORY_MAPPED_IO);

    // Add memory from 4GiB to 8GiB of conventional
    assert_eq!(
        allocator.add_initial_allocation(
            CONVENTIONAL_MEMORY,
            allocator.page_count(4096 * 1024 * 1024),
            4096 * 1024 * 1024,
            0
        ),
        Status::Success
    );
}

#[test]
fn test_initial_allocations() {
    let mut allocator = Allocator::new(PAGE_SIZE);

    assert_eq!(allocator.first_allocation(), None);

    add_initial_allocations(&mut allocator);
}

#[test]
fn test_split_allocation() {
    let mut allocator = Allocator::new(PAGE_SIZE);

    add_initial_allocations(&mut allocator);

    // Split second range into 1..2MiB, 2..128Mib
    assert_eq!(allocator.split_allocation(1, 1024 * 1024 / 4096), Some(4));

    assert_eq!(allocator.first_allocation(), Some(0));
    assert!(allocator.allocation(1).in_use);
    assert_eq!(allocator.allocation(1).next_allocation, Some(4));
    assert_eq!(allocator.allocation(1).descriptor.physical_start, 0x10_0000);
    assert_eq!(allocator.allocation(1).descriptor.number_of_pages, allocator.page_count(1024 * 1024));
    assert_eq!(allocator.allocation(0).descriptor.memory_type, CONVENTIONAL_MEMORY);

    assert!(allocator.allocation(4).in_use);
    assert_eq!(allocator.allocation(4).next_allocation, Some(2));
    assert_eq!(allocator.allocation(4).descriptor.physical_start, 2 * 1024 * 1024);
    assert_eq!(
        allocator.allocation(4).descriptor.number_of_pages,
        allocator.page_count(126 * 1024 * 1024)
    );
    assert_eq!(allocator.allocation(4).descriptor.memory_type, CONVENTIONAL_MEMORY);
}

#[test]
fn test_find_free_allocation() {
    let mut allocator = Allocator::new(PAGE_SIZE);

    assert_eq!(allocator.find_free_allocation(), 0);

    add_initial_allocations(&mut allocator);

    assert_eq!(allocator.find_free_allocation(), 4);
}

#[test]
fn test_find_free_memory() {
    let mut allocator = Allocator::new(PAGE_SIZE);

    assert_eq!(
        allocator.find_free_memory(ALLOCATE_ADDRESS, allocator.page_count(1024 * 1024), 1024 * 1024),
        None
    );

    add_initial_allocations(&mut allocator);

    // 4K at 1MiB
    assert_eq!(allocator.find_free_memory(ALLOCATE_ADDRESS, 1024, 1024 * 1024), Some(1));

    // 1MiB at 1GiB
    assert_eq!(
        allocator.find_free_memory(ALLOCATE_ADDRESS, allocator.page_count(1024 * 1024), 1024 * 1024 * 1024),
        None
    );

    // 1 GiB at 0
    assert_eq!(
        allocator.find_free_memory(ALLOCATE_ADDRESS, allocator.page_count(1024 * 1024 * 1024), 0),
        None
    );

    // 2MiB at 127MiB
    assert_eq!(
        allocator.find_free_memory(
            ALLOCATE_ADDRESS,
            allocator.page_count(2 * 1024 * 1024),
            127 * 1024 * 1024
        ),
        None
    );

    // Add memory from 4GiB to 8GiB of conventional
    assert_eq!(
        allocator.add_initial_allocation(
            CONVENTIONAL_MEMORY,
            allocator.page_count(4096 * 1024 * 1024),
            4096 * 1024 * 1024,
            0
        ),
        Status::Success
    );

    // 64MiB below 4Gib
    assert_eq!(
        allocator.find_free_memory(
            ALLOCATE_MAX_ADDRESS,
            allocator.page_count(64 * 1024 * 1024),
            4096 * 1024 * 1024
        ),
        Some(1)
    );

    // 256MiB below 4Gib
    assert_eq!(
        allocator.find_free_memory(
            ALLOCATE_MAX_ADDRESS,
            allocator.page_count(256 * 1024 * 1024),
            4096 * 1024 * 1024
        ),
        None,
    );

    // 256MiB below 8Gib
    assert_eq!(
        allocator.find_free_memory(
            ALLOCATE_MAX_ADDRESS,
            allocator.page_count(256 * 1024 * 1024),
            8192 * 1024 * 1024
        ),
        Some(3)
    );

    // 128 MiB anywhere
    assert_eq!(
        allocator.find_free_memory(ALLOCATE_ANY_PAGES, allocator.page_count(128 * 1024 * 1024), 0,),
        Some(3)
    );

    // 256 MiB anywhere
    assert_eq!(
        allocator.find_free_memory(ALLOCATE_ANY_PAGES, allocator.page_count(256 * 1024 * 1024), 0,),
        Some(3)
    );
}

fn check_first_three(descriptors: &[MemoryDescriptor], allocator: &Allocator, first_type: u32) {
    assert_eq!(descriptors[0].physical_start, 0);
    assert_eq!(descriptors[0].number_of_pages, 1);
    assert_eq!(descriptors[0].memory_type, first_type);

    assert_eq!(descriptors[1].physical_start, 0x1000);
    assert_eq!(descriptors[1].number_of_pages, 1);
    assert_eq!(descriptors[1].memory_type, LOADER_DATA);

    assert_eq!(descriptors[2].physical_start, 0x2000);
    assert_eq!(descriptors[2].number_of_pages, allocator.page_count(0x9fc00) - 2);
    assert_eq!(descriptors[2].memory_type, CONVENTIONAL_MEMORY);
}

#[test]
fn test_allocate_pages() {
    let mut allocator = Allocator::new(PAGE_SIZE);

    add_initial_allocations(&mut allocator);

    let mut descriptors = [MemoryDescriptor::empty(); MAX_ALLOCATIONS];

    let count = allocator.get_descriptors(&mut descriptors);

    assert_eq!(count, 4);

    // 4KiB at 0x1000
    assert_eq!(
        allocator.allocate_pages(ALLOCATE_ADDRESS, LOADER_DATA, 1, 0x1000),
        (Status::Success, 0x1000)
    );

    let count = allocator.get_descriptors(&mut descriptors);

    assert_eq!(count, 6);
    check_first_three(&descriptors, &allocator, CONVENTIONAL_MEMORY);

    // 4KiB at 0x1000
    assert_eq!(
        allocator.allocate_pages(ALLOCATE_ADDRESS, LOADER_DATA, 1, 0x1000),
        (Status::OutOfResources, 0)
    );

    let count = allocator.get_descriptors(&mut descriptors);

    assert_eq!(count, 6);
    check_first_three(&descriptors, &allocator, CONVENTIONAL_MEMORY);

    // 4KiB at 0
    assert_eq!(allocator.allocate_pages(ALLOCATE_ADDRESS, LOADER_DATA, 1, 0), (Status::Success, 0));

    let count = allocator.get_descriptors(&mut descriptors);

    assert_eq!(count, 6);
    check_first_three(&descriptors, &allocator, LOADER_DATA);
}

#[test]
fn test_free_pages() {
    let mut allocator = Allocator::new(PAGE_SIZE);

    add_initial_allocations(&mut allocator);

    let mut descriptors = [MemoryDescriptor::empty(); MAX_ALLOCATIONS];

    let count = allocator.get_descriptors(&mut descriptors);

    assert_eq!(count, 4);

    // 4KiB at 0x1000
    assert_eq!(
        allocator.allocate_pages(ALLOCATE_ADDRESS, LOADER_DATA, 1, 0x1000),
        (Status::Success, 0x1000)
    );

    let count = allocator.get_descriptors(&mut descriptors);

    assert_eq!(count, 6);
    check_first_three(&descriptors, &allocator, CONVENTIONAL_MEMORY);

    assert_eq!(allocator.free_pages(0x1000), Status::Success);

    let count = allocator.get_descriptors(&mut descriptors);

    assert_eq!(count, 4);
}

/// Whether the first `count` descriptors come in order of address without
/// overlapping.
fn in_order(descriptors: &[MemoryDescriptor], count: usize) -> bool {
    (1..count).all(|i| {
        let prev = &descriptors[i - 1];
        prev.physical_start + prev.number_of_pages * PAGE_SIZE <= descriptors[i].physical_start
    })
}

#[test]
fn memory_map_stays_in_order() {
    let mut allocator = Allocator::new(PAGE_SIZE);
    add_initial_allocations(&mut allocator);
    let mut descriptors = vec![MemoryDescriptor::empty(); MAX_ALLOCATIONS];
    let count = allocator.get_descriptors(&mut descriptors);
    assert!(in_order(&descriptors, count));

    let (status, low) = allocator.allocate_pages(ALLOCATE_ADDRESS, LOADER_DATA, 2, 0x3000);
    assert_eq!(status, Status::Success);
    assert_eq!(low, 0x3000);
    let (status, high) = allocator.allocate_pages(ALLOCATE_ANY_PAGES, LOADER_DATA, 16, 0);
    assert_eq!(status, Status::Success);
    let count = allocator.get_descriptors(&mut descriptors);
    assert!(in_order(&descriptors, count));
    assert!(count > 4);

    assert_eq!(allocator.free_pages(low), Status::Success);
    assert_eq!(allocator.free_pages(high), Status::Success);
    let count = allocator.get_descriptors(&mut descriptors);
    assert!(in_order(&descriptors, count));
}
