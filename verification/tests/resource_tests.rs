use gpu_allocator::allocator::Allocator;
use gpu_allocator::allocator::AllocatorCreateDesc;
use gpu_allocator::config::AllocationSizes;
use gpu_allocator::config::AllocatorDebugSettings;
use gpu_allocator::config::MemoryLocation;
use gpu_allocator::device::DeviceDescription;
use gpu_allocator::device::ID3D12DeviceVersion;
use gpu_allocator::device::ResourceHeapTier;
use gpu_allocator::result::AllocationError;
use gpu_allocator::types::ResourceCategory;
use gpu_allocator::types::ResourceCreateDesc;
use gpu_allocator::types::ResourceStateOrBarrierLayout;
use gpu_allocator::types::ResourceType;

const ONE_GIB: u64 = 1 << 30;
const DEFAULT_DEVICE_BLOCK: u64 = 256 * 1024 * 1024;

fn device(version: u32, budget: u64) -> ID3D12DeviceVersion {
    let description = DeviceDescription {
        resource_heap_tier: ResourceHeapTier::Tier2,
        memory_budget: budget,
    };
    match version {
        12 => ID3D12DeviceVersion::Device12(description),
        10 => ID3D12DeviceVersion::Device10(description),
        _ => ID3D12DeviceVersion::Device(description),
    }
}

fn new_allocator(d: ID3D12DeviceVersion) -> Allocator {
    Allocator::new(&AllocatorCreateDesc {
        device: d,
        debug_settings: AllocatorDebugSettings::default(),
        allocation_sizes: AllocationSizes::default(),
    })
    .expect("allocator construction is infallible")
}

fn resource_desc(
    resource_type: ResourceType,
    initial: ResourceStateOrBarrierLayout,
    castable_formats: Vec<u32>,
    size: u64,
) -> ResourceCreateDesc {
    ResourceCreateDesc {
        name: "resource".to_owned(),
        memory_location: MemoryLocation::GpuOnly,
        resource_category: ResourceCategory::RtvDsvTexture,
        size,
        alignment: 65536,
        castable_formats,
        initial_state_or_layout: initial,
        resource_type,
    }
}

fn committed() -> ResourceType {
    ResourceType::Committed {
        heap_properties: gpu_allocator::device::heap_properties_of(MemoryLocation::GpuOnly),
        heap_flags: 0,
    }
}

#[test]
fn committed_with_castable_formats_and_legacy_state_is_gated() {
    let mut allocator = new_allocator(device(12, ONE_GIB));
    let r = allocator.create_resource(&resource_desc(
        committed(),
        ResourceStateOrBarrierLayout::ResourceState(0),
        vec![28],
        65536,
    ));
    assert_eq!(
        r.unwrap_err(),
        AllocationError::CastableFormatsRequiresEnhancedBarriers
    );
    // nothing was created and the statistics are untouched
    let report = allocator.generate_report();
    assert_eq!(report.total_allocated_bytes, 0);
    assert_eq!(report.total_capacity_bytes, 0);
}

#[test]
fn barrier_layout_on_the_base_device_is_gated() {
    let mut allocator = new_allocator(device(0, ONE_GIB));
    let r = allocator.create_resource(&resource_desc(
        committed(),
        ResourceStateOrBarrierLayout::BarrierLayout(0),
        Vec::new(),
        65536,
    ));
    assert_eq!(r.unwrap_err(), AllocationError::BarrierLayoutNeedsDevice10);
}

#[test]
fn gate_matrix_maps_exactly_as_tabled() {
    let barrier = ResourceStateOrBarrierLayout::BarrierLayout(0);
    let legacy = ResourceStateOrBarrierLayout::ResourceState(0);
    let castable: Vec<u32> = vec![28];
    let none: Vec<u32> = Vec::new();
    // (device version, initial, castable formats, expected error)
    let failing: Vec<(u32, ResourceStateOrBarrierLayout, Vec<u32>, AllocationError)> = vec![
        (12, legacy, castable.clone(), AllocationError::CastableFormatsRequiresEnhancedBarriers),
        (10, legacy, castable.clone(), AllocationError::CastableFormatsRequiresEnhancedBarriers),
        (0, legacy, castable.clone(), AllocationError::CastableFormatsRequiresEnhancedBarriers),
        (10, barrier, castable.clone(), AllocationError::CastableFormatsRequiresAtLeastDevice12),
        (0, barrier, none.clone(), AllocationError::BarrierLayoutNeedsDevice10),
        (0, barrier, castable.clone(), AllocationError::BarrierLayoutNeedsDevice10),
    ];
    for (version, initial, formats, expected) in failing {
        let mut allocator = new_allocator(device(version, ONE_GIB));
        let r = allocator.create_resource(&resource_desc(committed(), initial, formats, 65536));
        assert_eq!(r.unwrap_err(), expected);
    }
    let passing: Vec<(u32, ResourceStateOrBarrierLayout, Vec<u32>)> = vec![
        (12, barrier, castable.clone()),
        (12, barrier, none.clone()),
        (10, barrier, none.clone()),
        (12, legacy, none.clone()),
        (0, legacy, none.clone()),
    ];
    for (version, initial, formats) in passing {
        let mut allocator = new_allocator(device(version, ONE_GIB));
        let r = allocator.create_resource(&resource_desc(committed(), initial, formats, 65536));
        assert!(r.is_ok());
    }
}

#[test]
fn committed_resource_tracks_statistics_and_reverses_them() {
    let mut allocator = new_allocator(device(12, ONE_GIB));
    let resource = allocator
        .create_resource(&resource_desc(
            committed(),
            ResourceStateOrBarrierLayout::BarrierLayout(0),
            Vec::new(),
            65536,
        ))
        .expect("committed creation succeeds");
    assert!(resource.allocation.is_none());
    assert_eq!(resource.size, 65536);
    // committed resources own their heap: the pooled capacity stays zero
    assert_eq!(allocator.capacity(), 0);
    allocator
        .free_resource(resource)
        .expect("freeing a committed resource succeeds");
}

#[test]
fn placed_resource_round_trip_retains_the_warm_block() {
    let mut allocator = new_allocator(device(12, ONE_GIB));
    let resource = allocator
        .create_resource(&resource_desc(
            ResourceType::Placed,
            ResourceStateOrBarrierLayout::BarrierLayout(0),
            vec![28],
            256 * 1024,
        ))
        .expect("placed creation succeeds");
    assert_eq!(resource.size, 256 * 1024);
    let allocation = resource.allocation.as_ref().expect("placed resources carry a token");
    assert_eq!(allocation.size(), 256 * 1024);
    assert_eq!(allocation.offset() % 65536, 0);
    assert_eq!(allocator.capacity(), DEFAULT_DEVICE_BLOCK);
    allocator
        .free_resource(resource)
        .expect("freeing a placed resource succeeds");
    // the general block is retained as a warm pool entry, but its
    // sub-allocator reports empty
    assert_eq!(allocator.capacity(), DEFAULT_DEVICE_BLOCK);
    let report = allocator.generate_report();
    assert_eq!(report.total_allocated_bytes, 0);
    assert_eq!(report.blocks.len(), 1);
    assert_eq!(report.blocks[0].allocations_start, report.blocks[0].allocations_end);
}

#[test]
fn committed_resource_with_zero_size_is_an_invalid_descriptor() {
    let mut allocator = new_allocator(device(12, ONE_GIB));
    let r = allocator.create_resource(&resource_desc(
        committed(),
        ResourceStateOrBarrierLayout::BarrierLayout(0),
        Vec::new(),
        0,
    ));
    assert_eq!(r.unwrap_err(), AllocationError::InvalidAllocationCreateDesc);
}

#[test]
fn committed_creation_beyond_the_budget_is_an_internal_error() {
    // the budget is smaller than the committed resource
    let mut allocator = new_allocator(device(12, 1024 * 1024));
    let r = allocator.create_resource(&resource_desc(
        committed(),
        ResourceStateOrBarrierLayout::BarrierLayout(0),
        Vec::new(),
        2 * 1024 * 1024,
    ));
    assert!(matches!(r.unwrap_err(), AllocationError::Internal(_)));
}
