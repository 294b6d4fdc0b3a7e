//! The plain-data face of the host device that the pooling logic reads:
//! version tier, resource heap tier and a memory budget.  The host API calls
//! themselves are made by the embedding layer, which owns the real device.

use vstd::prelude::*;

verus! {

/// Heap support level reported by the device feature probe.  Tier 1 devices
/// need one heap per resource category; tier 2 devices may mix categories.
#[derive(Clone, Copy, Debug, PartialEq, Eq, Structural)]
pub enum ResourceHeapTier {
    Tier1,
    Tier2,
}

/// What the allocator reads off a device: its heap tier and how many bytes
/// of memory it will hand out before reporting out-of-memory.
#[derive(Clone, Copy, Debug, PartialEq, Eq, Structural)]
pub struct DeviceDescription {
    pub resource_heap_tier: ResourceHeapTier,
    pub memory_budget: u64,
}

/// Version-discriminated device handle.  The base device supports only
/// legacy resource states; `Device10` adds barrier layouts; `Device12`
/// further adds castable-format lists.
#[derive(Clone, Copy, Debug, PartialEq, Eq, Structural)]
pub enum ID3D12DeviceVersion {
    Device(DeviceDescription),
    Device10(DeviceDescription),
    Device12(DeviceDescription),
}

impl ID3D12DeviceVersion {
    pub open spec fn spec_description(self) -> DeviceDescription {
        match self {
            ID3D12DeviceVersion::Device(d) => d,
            ID3D12DeviceVersion::Device10(d) => d,
            ID3D12DeviceVersion::Device12(d) => d,
        }
    }

    /// Barrier layouts need at least `Device10`.
    pub open spec fn spec_supports_barrier_layout(self) -> bool {
        match self {
            ID3D12DeviceVersion::Device(_) => false,
            ID3D12DeviceVersion::Device10(_) => true,
            ID3D12DeviceVersion::Device12(_) => true,
        }
    }

    /// Castable formats need `Device12`.
    pub open spec fn spec_supports_castable_formats(self) -> bool {
        match self {
            ID3D12DeviceVersion::Device12(_) => true,
            _ => false,
        }
    }

    pub fn description(&self) -> (r: DeviceDescription)
        ensures
            r == self.spec_description(),
    {
        match self {
            ID3D12DeviceVersion::Device(d) => *d,
            ID3D12DeviceVersion::Device10(d) => *d,
            ID3D12DeviceVersion::Device12(d) => *d,
        }
    }
}

/// Kind of a heap, mirroring the host API's heap types.
#[derive(Clone, Copy, Debug, PartialEq, Eq, Structural)]
pub enum HeapType {
    Default,
    Upload,
    Readback,
    Custom,
}

/// CPU page property of a custom heap.
#[derive(Clone, Copy, Debug, PartialEq, Eq, Structural)]
pub enum CpuPageProperty {
    Unknown,
    NotAvailable,
    WriteCombine,
    WriteBack,
}

/// Memory pool preference of a custom heap.
#[derive(Clone, Copy, Debug, PartialEq, Eq, Structural)]
pub enum MemoryPool {
    Unknown,
    L0,
    L1,
}

/// Properties a heap is created with.
#[derive(Clone, Copy, Debug, PartialEq, Eq, Structural)]
pub struct HeapProperties {
    pub heap_type: HeapType,
    pub cpu_page_property: CpuPageProperty,
    pub memory_pool_preference: MemoryPool,
}

impl HeapProperties {
    /// A heap is host visible exactly when its type is not `Default`.
    pub open spec fn spec_is_host(self) -> bool {
        self.heap_type != HeapType::Default
    }

    pub fn is_host(&self) -> (r: bool)
        ensures
            r == self.spec_is_host(),
    {
        match self.heap_type {
            HeapType::Default => false,
            _ => true,
        }
    }
}

/// The fixed heap properties of each concrete residency class: device-local
/// memory is a default heap; host-visible memory is a custom L0 heap that is
/// write-combined towards the GPU and write-back towards the CPU.
pub open spec fn spec_heap_properties_of(location: crate::config::MemoryLocation) -> HeapProperties
    recommends
        location != crate::config::MemoryLocation::Unknown,
{
    match location {
        crate::config::MemoryLocation::CpuToGpu => HeapProperties {
            heap_type: HeapType::Custom,
            cpu_page_property: CpuPageProperty::WriteCombine,
            memory_pool_preference: MemoryPool::L0,
        },
        crate::config::MemoryLocation::GpuToCpu => HeapProperties {
            heap_type: HeapType::Custom,
            cpu_page_property: CpuPageProperty::WriteBack,
            memory_pool_preference: MemoryPool::L0,
        },
        _ => HeapProperties {
            heap_type: HeapType::Default,
            cpu_page_property: CpuPageProperty::Unknown,
            memory_pool_preference: MemoryPool::Unknown,
        },
    }
}

pub fn heap_properties_of(location: crate::config::MemoryLocation) -> (r: HeapProperties)
    ensures
        r == spec_heap_properties_of(location),
{
    match location {
        crate::config::MemoryLocation::CpuToGpu => HeapProperties {
            heap_type: HeapType::Custom,
            cpu_page_property: CpuPageProperty::WriteCombine,
            memory_pool_preference: MemoryPool::L0,
        },
        crate::config::MemoryLocation::GpuToCpu => HeapProperties {
            heap_type: HeapType::Custom,
            cpu_page_property: CpuPageProperty::WriteBack,
            memory_pool_preference: MemoryPool::L0,
        },
        _ => HeapProperties {
            heap_type: HeapType::Default,
            cpu_page_property: CpuPageProperty::Unknown,
            memory_pool_preference: MemoryPool::Unknown,
        },
    }
}

} // verus!
