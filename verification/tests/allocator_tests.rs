use gpu_allocator::allocator::Allocator;
use gpu_allocator::allocator::AllocatorCreateDesc;
use gpu_allocator::config::AllocationSizes;
use gpu_allocator::config::AllocatorDebugSettings;
use gpu_allocator::config::MemoryLocation;
use gpu_allocator::device::DeviceDescription;
use gpu_allocator::device::ID3D12DeviceVersion;
use gpu_allocator::device::ResourceHeapTier;
use gpu_allocator::result::AllocationError;
use gpu_allocator::types::Allocation;
use gpu_allocator::types::AllocationCreateDesc;
use gpu_allocator::types::ResourceCategory;

const ONE_GIB: u64 = 1 << 30;
const DEFAULT_DEVICE_BLOCK: u64 = 256 * 1024 * 1024;

fn device12_tier2(budget: u64) -> ID3D12DeviceVersion {
    ID3D12DeviceVersion::Device12(DeviceDescription {
        resource_heap_tier: ResourceHeapTier::Tier2,
        memory_budget: budget,
    })
}

fn base_device_tier1(budget: u64) -> ID3D12DeviceVersion {
    ID3D12DeviceVersion::Device(DeviceDescription {
        resource_heap_tier: ResourceHeapTier::Tier1,
        memory_budget: budget,
    })
}

fn new_allocator(device: ID3D12DeviceVersion) -> Allocator {
    Allocator::new(&AllocatorCreateDesc {
        device,
        debug_settings: AllocatorDebugSettings::default(),
        allocation_sizes: AllocationSizes::default(),
    })
    .expect("allocator construction is infallible")
}

fn alloc_desc(
    name: &str,
    location: MemoryLocation,
    size: u64,
    alignment: u64,
    category: ResourceCategory,
) -> AllocationCreateDesc {
    AllocationCreateDesc {
        name: name.to_owned(),
        location,
        size,
        alignment,
        resource_category: category,
    }
}

#[test]
fn tier2_small_buffer_pool_shares_one_block() {
    let mut allocator = new_allocator(device12_tier2(ONE_GIB));
    let mut allocations = Vec::new();
    for i in 0..4 {
        let name = format!("buffer {i}");
        let a = allocator
            .allocate(&alloc_desc(&name, MemoryLocation::GpuOnly, 4096, 4096, ResourceCategory::Buffer))
            .expect("pool allocation succeeds");
        allocations.push(a);
    }
    // one general block of the policy's default size backs all four
    assert_eq!(allocator.capacity(), DEFAULT_DEVICE_BLOCK);
    let heap = allocations[0].heap();
    for a in &allocations {
        assert_eq!(a.heap(), heap);
        assert_eq!(a.size(), 4096);
        assert_eq!(a.offset() % 4096, 0);
        assert!(!a.is_null());
    }
    // non-overlap of live allocations within the block
    for i in 0..allocations.len() {
        for j in 0..allocations.len() {
            if i != j {
                let (a, b) = (&allocations[i], &allocations[j]);
                assert!(
                    a.offset() + a.size() <= b.offset() || b.offset() + b.size() <= a.offset()
                );
            }
        }
    }
    // retention: freeing everything keeps exactly the one warm block
    for a in allocations {
        allocator.free(a).expect("freeing a live allocation succeeds");
    }
    assert_eq!(allocator.capacity(), DEFAULT_DEVICE_BLOCK);
    let report = allocator.generate_report();
    assert_eq!(report.total_allocated_bytes, 0);
    assert_eq!(report.total_capacity_bytes, DEFAULT_DEVICE_BLOCK);
}

#[test]
fn oversize_request_gets_dedicated_block_and_full_round_trip() {
    let mut allocator = new_allocator(device12_tier2(ONE_GIB));
    let size = DEFAULT_DEVICE_BLOCK + 1;
    let a = allocator
        .allocate(&alloc_desc(
            "huge texture",
            MemoryLocation::GpuOnly,
            size,
            64 * 1024,
            ResourceCategory::OtherTexture,
        ))
        .expect("dedicated allocation succeeds");
    assert_eq!(a.size(), size);
    assert_eq!(a.offset(), 0);
    assert_eq!(allocator.capacity(), size);
    // a dedicated block is destroyed as soon as it is freed: the capacity
    // returns to the pre-call state, byte for byte
    allocator.free(a).expect("freeing the dedicated block succeeds");
    assert_eq!(allocator.capacity(), 0);
}

#[test]
fn tier1_splits_categories_into_separate_blocks() {
    let mut allocator = new_allocator(base_device_tier1(ONE_GIB));
    let buffer = allocator
        .allocate(&alloc_desc("b", MemoryLocation::GpuOnly, 4096, 4096, ResourceCategory::Buffer))
        .expect("buffer allocation succeeds");
    let texture = allocator
        .allocate(&alloc_desc(
            "t",
            MemoryLocation::GpuOnly,
            4096,
            4096,
            ResourceCategory::RtvDsvTexture,
        ))
        .expect("texture allocation succeeds");
    // two distinct memory types, each with its own heap
    assert_ne!(buffer.heap(), texture.heap());
    let report = allocator.generate_report();
    assert_eq!(report.blocks.len(), 2);
    assert_eq!(allocator.capacity(), 2 * DEFAULT_DEVICE_BLOCK);
    allocator.free(buffer).unwrap();
    allocator.free(texture).unwrap();
}

#[test]
fn null_free_succeeds_and_mutates_nothing() {
    let mut allocator = new_allocator(device12_tier2(ONE_GIB));
    let a = allocator
        .allocate(&alloc_desc("x", MemoryLocation::GpuOnly, 4096, 4096, ResourceCategory::Buffer))
        .unwrap();
    let capacity = allocator.capacity();
    let live = allocator.generate_report().total_allocated_bytes;
    allocator.free(Allocation::default()).expect("null free succeeds");
    assert_eq!(allocator.capacity(), capacity);
    assert_eq!(allocator.generate_report().total_allocated_bytes, live);
    allocator.free(a).unwrap();
}

#[test]
fn zero_size_is_an_invalid_descriptor() {
    let mut allocator = new_allocator(device12_tier2(ONE_GIB));
    let r = allocator.allocate(&alloc_desc(
        "zero",
        MemoryLocation::GpuOnly,
        0,
        4096,
        ResourceCategory::Buffer,
    ));
    assert_eq!(r.unwrap_err(), AllocationError::InvalidAllocationCreateDesc);
}

#[test]
fn non_power_of_two_alignment_is_an_invalid_descriptor() {
    let mut allocator = new_allocator(device12_tier2(ONE_GIB));
    for alignment in [0u64, 3, 6, 4095] {
        let r = allocator.allocate(&alloc_desc(
            "misaligned",
            MemoryLocation::GpuOnly,
            4096,
            alignment,
            ResourceCategory::Buffer,
        ));
        assert_eq!(r.unwrap_err(), AllocationError::InvalidAllocationCreateDesc);
    }
}

#[test]
fn exhausted_budget_reports_out_of_memory() {
    // the budget cannot even hold the smallest general block
    let mut allocator = new_allocator(device12_tier2(1024 * 1024));
    let r = allocator.allocate(&alloc_desc(
        "too big for the device",
        MemoryLocation::GpuOnly,
        4096,
        4096,
        ResourceCategory::Buffer,
    ));
    assert_eq!(r.unwrap_err(), AllocationError::OutOfMemory);
}

#[test]
fn residency_is_honored_for_host_visible_requests() {
    let mut allocator = new_allocator(device12_tier2(ONE_GIB));
    let upload = allocator
        .allocate(&alloc_desc(
            "staging",
            MemoryLocation::CpuToGpu,
            4096,
            256,
            ResourceCategory::Buffer,
        ))
        .expect("host-visible allocation succeeds");
    let gpu = allocator
        .allocate(&alloc_desc("gpu", MemoryLocation::GpuOnly, 4096, 256, ResourceCategory::Buffer))
        .expect("device-local allocation succeeds");
    // distinct residency classes come from distinct heaps
    assert_ne!(upload.heap(), gpu.heap());
    allocator.free(upload).unwrap();
    allocator.free(gpu).unwrap();
}

#[test]
fn report_totals_match_live_allocations() {
    let mut allocator = new_allocator(device12_tier2(ONE_GIB));
    let a = allocator
        .allocate(&alloc_desc("a", MemoryLocation::GpuOnly, 4096, 4096, ResourceCategory::Buffer))
        .unwrap();
    let b = allocator
        .allocate(&alloc_desc("b", MemoryLocation::GpuOnly, 12288, 4096, ResourceCategory::Buffer))
        .unwrap();
    let report = allocator.generate_report();
    assert_eq!(report.total_allocated_bytes, 4096 + 12288);
    assert_eq!(report.allocations.len(), 2);
    assert_eq!(report.total_capacity_bytes, allocator.capacity());
    let sum: u64 = report.allocations.iter().map(|entry| entry.size).sum();
    assert_eq!(sum, report.total_allocated_bytes);
    let block_sum: u64 = report.blocks.iter().map(|entry| entry.size).sum();
    assert_eq!(block_sum, report.total_capacity_bytes);
    allocator.free(a).unwrap();
    allocator.free(b).unwrap();
    let after = allocator.generate_report();
    assert_eq!(after.total_allocated_bytes, 0);
    assert_eq!(after.allocations.len(), 0);
}

#[test]
fn rename_allocation_updates_the_report() {
    let mut allocator = new_allocator(device12_tier2(ONE_GIB));
    let mut a = allocator
        .allocate(&alloc_desc("before", MemoryLocation::GpuOnly, 4096, 4096, ResourceCategory::Buffer))
        .unwrap();
    allocator
        .rename_allocation(&mut a, "after")
        .expect("renaming a live allocation succeeds");
    let report = allocator.generate_report();
    assert_eq!(report.allocations.len(), 1);
    assert_eq!(report.allocations[0].name, "after");
    allocator.free(a).unwrap();
}

#[test]
fn rename_of_the_null_allocation_only_touches_the_token() {
    let mut allocator = new_allocator(device12_tier2(ONE_GIB));
    let mut null = Allocation::default();
    allocator
        .rename_allocation(&mut null, "still null")
        .expect("renaming the null allocation succeeds");
    assert!(null.is_null());
}

#[test]
fn memory_leak_report_lists_live_allocations() {
    let mut allocator = new_allocator(device12_tier2(ONE_GIB));
    let a = allocator
        .allocate(&alloc_desc("leaked", MemoryLocation::GpuOnly, 8192, 4096, ResourceCategory::Buffer))
        .unwrap();
    let leaks = allocator.report_memory_leaks();
    assert_eq!(leaks.len(), 1);
    assert_eq!(leaks[0].size, 8192);
    assert_eq!(leaks[0].name, "leaked");
    allocator.free(a).unwrap();
    assert!(allocator.report_memory_leaks().is_empty());
}

#[test]
fn pool_reuses_space_after_a_free() {
    let mut allocator = new_allocator(device12_tier2(ONE_GIB));
    let a = allocator
        .allocate(&alloc_desc("a", MemoryLocation::GpuOnly, 65536, 65536, ResourceCategory::Buffer))
        .unwrap();
    let first_offset = a.offset();
    allocator.free(a).unwrap();
    let b = allocator
        .allocate(&alloc_desc("b", MemoryLocation::GpuOnly, 65536, 65536, ResourceCategory::Buffer))
        .unwrap();
    // the freed range is available again: the same offset comes back and no
    // extra block was created
    assert_eq!(b.offset(), first_offset);
    assert_eq!(allocator.capacity(), DEFAULT_DEVICE_BLOCK);
    allocator.free(b).unwrap();
}

#[test]
fn unknown_location_takes_the_first_compatible_type() {
    let mut allocator = new_allocator(device12_tier2(ONE_GIB));
    let any = allocator
        .allocate(&alloc_desc("any", MemoryLocation::Unknown, 4096, 4096, ResourceCategory::Buffer))
        .expect("unknown residency accepts any memory type");
    let gpu = allocator
        .allocate(&alloc_desc("gpu", MemoryLocation::GpuOnly, 4096, 4096, ResourceCategory::Buffer))
        .expect("device-local allocation succeeds");
    // the first table entry is device-local, so both land in the same block
    assert_eq!(any.heap(), gpu.heap());
    allocator.free(any).unwrap();
    allocator.free(gpu).unwrap();
}

#[test]
fn second_general_block_is_destroyed_when_it_empties() {
    let mut allocator = new_allocator(device12_tier2(ONE_GIB));
    // two block-sized requests force two general blocks
    let first = allocator
        .allocate(&alloc_desc(
            "first",
            MemoryLocation::GpuOnly,
            DEFAULT_DEVICE_BLOCK,
            4096,
            ResourceCategory::Buffer,
        ))
        .expect("first block-filling allocation succeeds");
    let second = allocator
        .allocate(&alloc_desc(
            "second",
            MemoryLocation::GpuOnly,
            DEFAULT_DEVICE_BLOCK,
            4096,
            ResourceCategory::Buffer,
        ))
        .expect("second block-filling allocation succeeds");
    assert_ne!(first.heap(), second.heap());
    assert_eq!(allocator.capacity(), 2 * DEFAULT_DEVICE_BLOCK);
    // with two general blocks active, an emptied one is destroyed at once
    allocator.free(first).unwrap();
    assert_eq!(allocator.capacity(), DEFAULT_DEVICE_BLOCK);
    // the last general block is retained instead
    allocator.free(second).unwrap();
    assert_eq!(allocator.capacity(), DEFAULT_DEVICE_BLOCK);
}
