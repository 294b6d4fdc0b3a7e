//! Caller-facing value types: categories, creation descriptors, the
//! allocation token and the resource handle.

use vstd::prelude::*;
use crate::config::MemoryLocation;
use crate::device::HeapProperties;

verus! {

/// Bucketing of resources by the heap flags required to back them.  It
/// matters only on heap tier 1 devices; tier 2 heaps take every category.
#[derive(Clone, Copy, Debug, PartialEq, Eq, Structural)]
pub enum ResourceCategory {
    Buffer,
    RtvDsvTexture,
    OtherTexture,
}

/// Category a heap was created for; `All` only on heap tier 2.
#[derive(Clone, Copy, Debug, PartialEq, Eq, Structural)]
pub enum HeapCategory {
    All,
    Buffer,
    RtvDsvTexture,
    OtherTexture,
}

/// The heap category that backs a resource category.
pub open spec fn spec_heap_category_of(c: ResourceCategory) -> HeapCategory {
    match c {
        ResourceCategory::Buffer => HeapCategory::Buffer,
        ResourceCategory::RtvDsvTexture => HeapCategory::RtvDsvTexture,
        ResourceCategory::OtherTexture => HeapCategory::OtherTexture,
    }
}

pub fn heap_category_of(c: ResourceCategory) -> (r: HeapCategory)
    ensures
        r == spec_heap_category_of(c),
{
    match c {
        ResourceCategory::Buffer => HeapCategory::Buffer,
        ResourceCategory::RtvDsvTexture => HeapCategory::RtvDsvTexture,
        ResourceCategory::OtherTexture => HeapCategory::OtherTexture,
    }
}

/// Initial state of a created resource: a legacy resource-state mask, or an
/// enhanced-barriers layout value.  Only devices of version 10 and above
/// accept barrier layouts.
#[derive(Clone, Copy, Debug, PartialEq, Eq, Structural)]
pub enum ResourceStateOrBarrierLayout {
    ResourceState(u32),
    BarrierLayout(u32),
}

/// Whether a resource owns its backing heap (committed) or is placed into a
/// pooled heap at an offset.
#[derive(Clone, Copy, Debug, PartialEq, Eq, Structural)]
pub enum ResourceType {
    Committed { heap_properties: HeapProperties, heap_flags: u32 },
    Placed,
}

/// Request for a sub-allocation.  `size` and `alignment` are the natural
/// allocation size and alignment the device reports for the resource.
#[derive(Clone, Debug)]
pub struct AllocationCreateDesc {
    pub name: String,
    pub location: MemoryLocation,
    pub size: u64,
    pub alignment: u64,
    pub resource_category: ResourceCategory,
}

/// Request for a full resource creation, committed or placed.
#[derive(Clone, Debug)]
pub struct ResourceCreateDesc {
    pub name: String,
    pub memory_location: MemoryLocation,
    pub resource_category: ResourceCategory,
    /// Natural allocation size of the resource, as the device reports it.
    pub size: u64,
    /// Natural allocation alignment of the resource.
    pub alignment: u64,
    /// Formats the resource may additionally be cast to; needs enhanced
    /// barriers and a version 12 device.
    pub castable_formats: Vec<u32>,
    pub initial_state_or_layout: ResourceStateOrBarrierLayout,
    pub resource_type: ResourceType,
}

/// Per-memory-type statistics over committed resources.
#[derive(Clone, Copy, Debug, PartialEq, Eq, Structural)]
pub struct CommittedAllocationStatistics {
    pub num_allocations: u64,
    pub total_size: u64,
}

/// Ghost image of an allocation token.
#[verifier::ext_equal]
pub ghost struct AllocationModel {
    /// `None` marks the null allocation.
    pub chunk_id: Option<u64>,
    pub offset: u64,
    pub size: u64,
    pub memory_block_index: usize,
    pub memory_type_index: usize,
    pub heap_id: u64,
    pub name: Option<Seq<char>>,
}

/// An owned token for a sub-range of a pooled heap, valid until it is given
/// back to [`crate::allocator::Allocator::free`].
#[derive(Debug)]
pub struct Allocation {
    pub(crate) chunk_id: Option<u64>,
    pub(crate) offset: u64,
    pub(crate) size: u64,
    pub(crate) memory_block_index: usize,
    pub(crate) memory_type_index: usize,
    pub(crate) heap_id: u64,
    pub(crate) name: Option<String>,
}

impl View for Allocation {
    type V = AllocationModel;

    open(crate) spec fn view(&self) -> AllocationModel {
        AllocationModel {
            chunk_id: self.chunk_id,
            offset: self.offset,
            size: self.size,
            memory_block_index: self.memory_block_index,
            memory_type_index: self.memory_type_index,
            heap_id: self.heap_id,
            name: match self.name {
                Some(s) => Some(s@),
                None => None,
            },
        }
    }
}

impl Allocation {
    /// Construct a token; only the allocator itself creates non-null ones.
    pub(crate) fn make(
        chunk_id: Option<u64>,
        offset: u64,
        size: u64,
        memory_block_index: usize,
        memory_type_index: usize,
        heap_id: u64,
        name: Option<String>,
    ) -> (r: Self)
        ensures
            r@.chunk_id == chunk_id,
            r@.offset == offset,
            r@.size == size,
            r@.memory_block_index == memory_block_index,
            r@.memory_type_index == memory_type_index,
            r@.heap_id == heap_id,
    {
        Allocation { chunk_id, offset, size, memory_block_index, memory_type_index, heap_id, name }
    }

    /// The sub-allocator chunk id backing this token; `None` for the null
    /// allocation.
    pub fn chunk_id(&self) -> (r: Option<u64>)
        ensures
            r == self@.chunk_id,
    {
        self.chunk_id
    }

    /// Handle of the heap backing this allocation.  Pass it, together with
    /// [`Self::offset`], to the device call that creates a placed resource.
    pub fn heap(&self) -> (r: u64)
        ensures
            r == self@.heap_id,
    {
        self.heap_id
    }

    /// Offset of the allocation inside its heap.
    pub fn offset(&self) -> (r: u64)
        ensures
            r == self@.offset,
    {
        self.offset
    }

    /// Size of the allocation in bytes.
    pub fn size(&self) -> (r: u64)
        ensures
            r == self@.size,
    {
        self.size
    }

    /// Whether this is the null allocation, which backs nothing.
    pub fn is_null(&self) -> (r: bool)
        ensures
            r == (self@.chunk_id is None),
    {
        match self.chunk_id {
            None => true,
            Some(_) => false,
        }
    }

    pub(crate) fn set_name(&mut self, name: String)
        ensures
            final(self)@ == (AllocationModel { name: Some(name@), ..old(self)@ }),
    {
        self.name = Some(name);
    }

    pub(crate) fn memory_block_index(&self) -> (r: usize)
        ensures
            r == self@.memory_block_index,
    {
        self.memory_block_index
    }

    pub(crate) fn memory_type_index(&self) -> (r: usize)
        ensures
            r == self@.memory_type_index,
    {
        self.memory_type_index
    }
}

impl Default for Allocation {
    /// The null allocation.
    fn default() -> (r: Self)
        ensures
            r@.chunk_id is None,
    {
        Allocation {
            chunk_id: None,
            offset: 0,
            size: 0,
            memory_block_index: 0,
            memory_type_index: 0,
            heap_id: 0,
            name: None,
        }
    }
}

/// Ghost image of a resource handle.
#[verifier::ext_equal]
pub ghost struct ResourceModel {
    pub allocation: Option<AllocationModel>,
    pub memory_location: MemoryLocation,
    pub memory_type_index: Option<usize>,
    pub size: u64,
}

/// A created resource: placed resources carry their allocation token,
/// committed resources carry the index of the memory type whose statistics
/// track them.  Dispose of it through
/// [`crate::allocator::Allocator::free_resource`].
#[derive(Debug)]
pub struct Resource {
    pub(crate) name: String,
    pub allocation: Option<Allocation>,
    pub memory_location: MemoryLocation,
    pub(crate) memory_type_index: Option<usize>,
    pub size: u64,
}

impl View for Resource {
    type V = ResourceModel;

    open(crate) spec fn view(&self) -> ResourceModel {
        ResourceModel {
            allocation: match self.allocation {
                Some(a) => Some(a@),
                None => None,
            },
            memory_location: self.memory_location,
            memory_type_index: self.memory_type_index,
            size: self.size,
        }
    }
}

impl Resource {
    pub(crate) fn make(
        name: String,
        allocation: Option<Allocation>,
        memory_location: MemoryLocation,
        memory_type_index: Option<usize>,
        size: u64,
    ) -> (r: Self)
        ensures
            r@.allocation == match allocation {
                Some(a) => Some(a@),
                None => None::<AllocationModel>,
            },
            r@.memory_location == memory_location,
            r@.memory_type_index == memory_type_index,
            r@.size == size,
    {
        Resource { name, allocation, memory_location, memory_type_index, size }
    }

    /// Display name the resource was created with.
    pub fn resource_name(&self) -> &String {
        &self.name
    }

    pub(crate) fn take_parts(self) -> (r: (Option<Allocation>, Option<usize>, u64))
        ensures
            (match r.0 {
                Some(a) => Some(a@),
                None => None::<AllocationModel>,
            }) == self@.allocation,
            r.1 == self@.memory_type_index,
            r.2 == self@.size,
    {
        (self.allocation, self.memory_type_index, self.size)
    }
}

} // verus!
