//! The allocator façade: it owns the memory-type table derived from the
//! device's heap tier, routes requests to the right memory type, tracks the
//! device memory budget, and orchestrates resource creation and teardown.

use vstd::prelude::*;
use crate::config::AllocationSizes;
use crate::config::AllocatorDebugSettings;
use crate::config::MemoryLocation;
use crate::device::ID3D12DeviceVersion;
use crate::device::ResourceHeapTier;
use crate::device::heap_properties_of;
use crate::device::spec_heap_properties_of;
use crate::memory_type::MemoryType;
use crate::memory_type::MemoryTypeModel;
use crate::memory_type::mt_wf;
use crate::memory_type::type_capacity;
use crate::memory_type::type_live;
use crate::memory_type::type_live_count;
use crate::report::AllocationReport;
use crate::report::AllocatorReport;
use crate::report::MemoryBlockReport;
use crate::report::block_reports_bytes;
use crate::report::reports_bytes;
use crate::result::AllocationError;
use crate::sums::sum_by;
use crate::types::Allocation;
use crate::types::AllocationCreateDesc;
use crate::types::CommittedAllocationStatistics;
use crate::types::HeapCategory;
use crate::types::ResourceCategory;
use crate::types::spec_heap_category_of;

verus! {

/// Everything an allocator is constructed from.
pub struct AllocatorCreateDesc {
    pub device: ID3D12DeviceVersion,
    pub debug_settings: AllocatorDebugSettings,
    pub allocation_sizes: AllocationSizes,
}

/// Ghost image of an allocator.
#[verifier::ext_equal]
pub ghost struct AllocatorModel {
    pub device: ID3D12DeviceVersion,
    pub debug_settings: AllocatorDebugSettings,
    pub memory_types: Seq<MemoryTypeModel>,
    pub allocation_sizes: AllocationSizes,
    /// Bytes of device memory held: pooled blocks plus committed resources.
    pub heap_bytes_in_use: u64,
    pub next_heap_id: u64,
}

/// The fixed memory-type table layout for a heap tier: tier 1 splits each
/// residency class into the three concrete categories, tier 2 uses one
/// `All` entry per residency class.
pub open spec fn spec_table(tier: ResourceHeapTier) -> Seq<(MemoryLocation, HeapCategory)> {
    if tier == ResourceHeapTier::Tier1 {
        seq![
            (MemoryLocation::GpuOnly, HeapCategory::Buffer),
            (MemoryLocation::GpuOnly, HeapCategory::RtvDsvTexture),
            (MemoryLocation::GpuOnly, HeapCategory::OtherTexture),
            (MemoryLocation::CpuToGpu, HeapCategory::Buffer),
            (MemoryLocation::CpuToGpu, HeapCategory::RtvDsvTexture),
            (MemoryLocation::CpuToGpu, HeapCategory::OtherTexture),
            (MemoryLocation::GpuToCpu, HeapCategory::Buffer),
            (MemoryLocation::GpuToCpu, HeapCategory::RtvDsvTexture),
            (MemoryLocation::GpuToCpu, HeapCategory::OtherTexture),
        ]
    } else {
        seq![
            (MemoryLocation::GpuOnly, HeapCategory::All),
            (MemoryLocation::CpuToGpu, HeapCategory::All),
            (MemoryLocation::GpuToCpu, HeapCategory::All),
        ]
    }
}

/// Pooled plus committed bytes of one memory type.
pub open spec fn type_total(t: MemoryTypeModel) -> int {
    type_capacity(t.blocks) + t.committed_allocations.total_size
}

/// Device bytes held over all memory types.
pub open spec fn types_total(types: Seq<MemoryTypeModel>) -> int {
    sum_by(types, |t: MemoryTypeModel| type_total(t))
}

/// Pooled block bytes over all memory types.
pub open spec fn types_capacity(types: Seq<MemoryTypeModel>) -> int {
    sum_by(types, |t: MemoryTypeModel| type_capacity(t.blocks))
}

/// Live sub-allocation bytes over all memory types.
pub open spec fn types_live(types: Seq<MemoryTypeModel>) -> int {
    sum_by(types, |t: MemoryTypeModel| type_live(t.blocks))
}

/// Live sub-allocations over all memory types.
pub open spec fn types_live_count(types: Seq<MemoryTypeModel>) -> int {
    sum_by(types, |t: MemoryTypeModel| type_live_count(t.blocks))
}

/// Well-formedness of the allocator: the table layout is the one derived
/// from the device tier and is immutable, every bucket is wellformed and
/// numbered by its slot, and the tracked byte count is exact and within
/// the device's budget.
pub open spec fn allocator_wf(a: AllocatorModel) -> bool {
    &&& a.allocation_sizes.wf()
    &&& a.memory_types.len() == spec_table(a.device.spec_description().resource_heap_tier).len()
    &&& forall|i: int| 0 <= i < a.memory_types.len() ==> mt_wf(#[trigger] a.memory_types[i])
    &&& forall|i: int|
        0 <= i < a.memory_types.len() ==> (#[trigger] a.memory_types[i]).memory_type_index == i
    &&& forall|i: int|
        0 <= i < a.memory_types.len() ==> ({
            let e = spec_table(a.device.spec_description().resource_heap_tier)[i];
            &&& (#[trigger] a.memory_types[i]).memory_location == e.0
            &&& a.memory_types[i].heap_category == e.1
            &&& a.memory_types[i].heap_properties == spec_heap_properties_of(e.0)
        })
    &&& forall|i: int|
        0 <= i < a.memory_types.len() ==> (
        #[trigger] a.memory_types[i]).committed_allocations.num_allocations
            <= a.memory_types[i].committed_allocations.total_size
    &&& types_total(a.memory_types) == a.heap_bytes_in_use as int
    &&& a.heap_bytes_in_use <= a.device.spec_description().memory_budget
}

/// Whether a memory type can serve a request for this residency and
/// resource category.
pub open spec fn type_compatible(
    t: MemoryTypeModel,
    location: MemoryLocation,
    category: ResourceCategory,
) -> bool {
    &&& (location == MemoryLocation::Unknown || location == t.memory_location)
    &&& (t.heap_category == HeapCategory::All || t.heap_category == spec_heap_category_of(
        category,
    ))
}

/// `i` is the first compatible memory type.
pub open spec fn is_first_compatible(
    types: Seq<MemoryTypeModel>,
    location: MemoryLocation,
    category: ResourceCategory,
    i: int,
) -> bool {
    &&& 0 <= i < types.len()
    &&& type_compatible(types[i], location, category)
    &&& forall|j: int| 0 <= j < i ==> !type_compatible(#[trigger] types[j], location, category)
}

/// No memory type is compatible with the request.
pub open spec fn no_compatible(
    types: Seq<MemoryTypeModel>,
    location: MemoryLocation,
    category: ResourceCategory,
) -> bool {
    forall|j: int| 0 <= j < types.len() ==> !type_compatible(#[trigger] types[j], location, category)
}

/// A positive power of two.
pub open spec fn spec_is_power_of_two(v: int) -> bool
    decreases v,
{
    if v <= 0 {
        false
    } else if v == 1 {
        true
    } else {
        v % 2 == 0 && spec_is_power_of_two(v / 2)
    }
}

/// Exec check matching [`spec_is_power_of_two`].
pub fn is_power_of_two(v: u64) -> (r: bool)
    ensures
        r == spec_is_power_of_two(v as int),
{
    if v == 0 {
        return false;
    }
    let mut x = v;
    while x % 2 == 0
        invariant
            x >= 1,
            spec_is_power_of_two(v as int) == spec_is_power_of_two(x as int),
        decreases x,
    {
        x = x / 2;
    }
    x == 1
}

/// Sum the sizes of a list of allocation reports.
fn sum_report_sizes(v: &Vec<AllocationReport>) -> (r: u64)
    requires
        reports_bytes(v@) <= u64::MAX,
    ensures
        r as int == reports_bytes(v@),
{
    let n = v.len();
    let mut total: u64 = 0;
    let mut i: usize = 0;
    while i < n
        invariant
            n == v@.len(),
            i <= n,
            reports_bytes(v@) <= u64::MAX,
            total == crate::sums::sum_by(v@.take(i as int), |e: AllocationReport| e.size as int),
        decreases n - i,
    {
        proof {
            crate::sums::lemma_sum_by_take_step(
                v@,
                i as int,
                |e: AllocationReport| e.size as int,
            );
            assert(forall|j: int| 0 <= j < v@.len() ==> (#[trigger] v@[j]).size >= 0);
            crate::sums::lemma_sum_by_take_le(
                v@,
                i as int + 1,
                |e: AllocationReport| e.size as int,
            );
        }
        total = total + v[i].size;
        i += 1;
    }
    proof {
        crate::sums::lemma_sum_by_take_all(v@, |e: AllocationReport| e.size as int);
    }
    total
}

/// The GPU memory sub-allocator.  It owns one bucket of heaps per table
/// entry and serves aligned sub-ranges out of them.
pub struct Allocator {
    pub(crate) device: ID3D12DeviceVersion,
    pub(crate) debug_settings: AllocatorDebugSettings,
    pub(crate) memory_types: Vec<MemoryType>,
    pub(crate) allocation_sizes: AllocationSizes,
    pub(crate) heap_bytes_in_use: u64,
    pub(crate) next_heap_id: u64,
}

impl View for Allocator {
    type V = AllocatorModel;

    open(crate) spec fn view(&self) -> AllocatorModel {
        AllocatorModel {
            device: self.device,
            debug_settings: self.debug_settings,
            memory_types: self.memory_types@.map_values(|t: MemoryType| t@),
            allocation_sizes: self.allocation_sizes,
            heap_bytes_in_use: self.heap_bytes_in_use,
            next_heap_id: self.next_heap_id,
        }
    }
}

impl Allocator {
    /// The device handle the allocator was created over.
    pub fn device(&self) -> (r: &ID3D12DeviceVersion)
        ensures
            *r == self@.device,
    {
        &self.device
    }

    /// Build the allocator: clone the device handle, read its heap tier,
    /// and derive the fixed memory-type table.
    pub fn new(desc: &AllocatorCreateDesc) -> (r: Result<Allocator, AllocationError>)
        requires
            desc.allocation_sizes.wf(),
        ensures
            r matches Ok(a) && ({
                &&& allocator_wf(a@)
                &&& a@.device == desc.device
                &&& a@.debug_settings == desc.debug_settings
                &&& a@.allocation_sizes == desc.allocation_sizes
                &&& a@.heap_bytes_in_use == 0
                &&& a@.next_heap_id == 1
                &&& forall|i: int|
                    0 <= i < a@.memory_types.len() ==> ((#[trigger] a@.memory_types[i]).blocks.len()
                        == 0 && a@.memory_types[i].committed_allocations == (
                    CommittedAllocationStatistics { num_allocations: 0, total_size: 0 }))
            }),
    {
        let device = desc.device.clone();
        let tier = device.description().resource_heap_tier;
        let mut memory_types: Vec<MemoryType> = Vec::new();
        match tier {
            ResourceHeapTier::Tier1 => {
                memory_types.push(
                    MemoryType::new(
                        MemoryLocation::GpuOnly,
                        HeapCategory::Buffer,
                        heap_properties_of(MemoryLocation::GpuOnly),
                        0,
                    ),
                );
                memory_types.push(
                    MemoryType::new(
                        MemoryLocation::GpuOnly,
                        HeapCategory::RtvDsvTexture,
                        heap_properties_of(MemoryLocation::GpuOnly),
                        1,
                    ),
                );
                memory_types.push(
                    MemoryType::new(
                        MemoryLocation::GpuOnly,
                        HeapCategory::OtherTexture,
                        heap_properties_of(MemoryLocation::GpuOnly),
                        2,
                    ),
                );
                memory_types.push(
                    MemoryType::new(
                        MemoryLocation::CpuToGpu,
                        HeapCategory::Buffer,
                        heap_properties_of(MemoryLocation::CpuToGpu),
                        3,
                    ),
                );
                memory_types.push(
                    MemoryType::new(
                        MemoryLocation::CpuToGpu,
                        HeapCategory::RtvDsvTexture,
                        heap_properties_of(MemoryLocation::CpuToGpu),
                        4,
                    ),
                );
                memory_types.push(
                    MemoryType::new(
                        MemoryLocation::CpuToGpu,
                        HeapCategory::OtherTexture,
                        heap_properties_of(MemoryLocation::CpuToGpu),
                        5,
                    ),
                );
                memory_types.push(
                    MemoryType::new(
                        MemoryLocation::GpuToCpu,
                        HeapCategory::Buffer,
                        heap_properties_of(MemoryLocation::GpuToCpu),
                        6,
                    ),
                );
                memory_types.push(
                    MemoryType::new(
                        MemoryLocation::GpuToCpu,
                        HeapCategory::RtvDsvTexture,
                        heap_properties_of(MemoryLocation::GpuToCpu),
                        7,
                    ),
                );
                memory_types.push(
                    MemoryType::new(
                        MemoryLocation::GpuToCpu,
                        HeapCategory::OtherTexture,
                        heap_properties_of(MemoryLocation::GpuToCpu),
                        8,
                    ),
                );
            },
            ResourceHeapTier::Tier2 => {
                memory_types.push(
                    MemoryType::new(
                        MemoryLocation::GpuOnly,
                        HeapCategory::All,
                        heap_properties_of(MemoryLocation::GpuOnly),
                        0,
                    ),
                );
                memory_types.push(
                    MemoryType::new(
                        MemoryLocation::CpuToGpu,
                        HeapCategory::All,
                        heap_properties_of(MemoryLocation::CpuToGpu),
                        1,
                    ),
                );
                memory_types.push(
                    MemoryType::new(
                        MemoryLocation::GpuToCpu,
                        HeapCategory::All,
                        heap_properties_of(MemoryLocation::GpuToCpu),
                        2,
                    ),
                );
            },
        }
        let r = Allocator {
            device,
            debug_settings: desc.debug_settings,
            memory_types,
            allocation_sizes: desc.allocation_sizes,
            heap_bytes_in_use: 0,
            next_heap_id: 1,
        };
        proof {
            let ms = r@.memory_types;
            let table = spec_table(desc.device.spec_description().resource_heap_tier);
            assert(ms.len() == table.len());
            assert forall|i: int| 0 <= i < ms.len() implies (#[trigger] ms[i]).memory_location
                == table[i].0 && ms[i].heap_category == table[i].1 && ms[i].heap_properties
                == spec_heap_properties_of(table[i].0) && mt_wf(ms[i]) && ms[i].memory_type_index
                == i && ms[i].blocks.len() == 0 && ms[i].committed_allocations == (
            CommittedAllocationStatistics { num_allocations: 0, total_size: 0 }) by {}
            crate::sums::lemma_sum_by_zero(ms, |t: MemoryTypeModel| type_total(t));
        }
        Ok(r)
    }

    /// Current total capacity of the pooled memory blocks, in bytes.
    pub fn capacity(&self) -> (r: u64)
        requires
            allocator_wf(self@),
        ensures
            r as int == types_capacity(self@.memory_types),
    {
        proof {
            Allocator::lemma_capacity_bounds(self@);
        }
        let n = self.memory_types.len();
        let mut total: u64 = 0;
        let mut i: usize = 0;
        while i < n
            invariant
                allocator_wf(self@),
                n == self@.memory_types.len(),
                i <= n,
                total == crate::sums::sum_by(
                    self@.memory_types.take(i as int),
                    |t: MemoryTypeModel| type_capacity(t.blocks),
                ),
            decreases n - i,
        {
            proof {
                Allocator::lemma_capacity_bounds(self@);
                crate::sums::lemma_sum_by_take_step(
                    self@.memory_types,
                    i as int,
                    |t: MemoryTypeModel| type_capacity(t.blocks),
                );
                crate::sums::lemma_sum_by_take_le(
                    self@.memory_types,
                    i as int + 1,
                    |t: MemoryTypeModel| type_capacity(t.blocks),
                );
                crate::sums::lemma_sum_by_bound(
                    self@.memory_types,
                    i as int,
                    |t: MemoryTypeModel| type_capacity(t.blocks),
                );
                assert(self@.memory_types[i as int] == self.memory_types@[i as int]@);
            }
            let part = self.memory_types[i].capacity();
            total = total + part;
            i += 1;
        }
        proof {
            crate::sums::lemma_sum_by_take_all(
                self@.memory_types,
                |t: MemoryTypeModel| type_capacity(t.blocks),
            );
        }
        total
    }

    /// Size of the pooled block backing the given heap handle, if one is
    /// live.  An embedding layer uses this to create the real heap object
    /// for a fresh block before placing resources on it.
    pub fn heap_size(&self, heap_id: u64) -> (r: Option<u64>)
        ensures
            match r {
                Some(s) => exists|i: int, j: int|
                    #![trigger self@.memory_types[i].blocks[j]]
                    0 <= i < self@.memory_types.len() && 0 <= j
                        < self@.memory_types[i].blocks.len()
                        && (self@.memory_types[i].blocks[j] matches Some(b) && b.heap_id == heap_id
                        && b.size == s),
                None => forall|i: int, j: int|
                    #![trigger self@.memory_types[i].blocks[j]]
                    0 <= i < self@.memory_types.len() && 0 <= j
                        < self@.memory_types[i].blocks.len() ==> (
                    match self@.memory_types[i].blocks[j] {
                        Some(b) => b.heap_id != heap_id,
                        None => true,
                    }),
            },
    {
        let n = self.memory_types.len();
        let mut i: usize = 0;
        while i < n
            invariant
                n == self@.memory_types.len(),
                i <= n,
                forall|k: int, j: int|
                    #![trigger self@.memory_types[k].blocks[j]]
                    0 <= k < i && 0 <= j < self@.memory_types[k].blocks.len() ==> (
                    match self@.memory_types[k].blocks[j] {
                        Some(b) => b.heap_id != heap_id,
                        None => true,
                    }),
            decreases n - i,
        {
            proof {
                assert(self@.memory_types[i as int] == self.memory_types@[i as int]@);
            }
            match self.memory_types[i].find_heap(heap_id) {
                Some(s) => {
                    return Some(s);
                },
                None => {},
            }
            i += 1;
        }
        None
    }

    /// Sub-allocate an aligned range out of a compatible memory type.
    ///
    /// A zero size or a non-power-of-two alignment is rejected as an
    /// invalid descriptor; with no matching (residency, category) entry the
    /// request reports that no compatible memory type exists.  A successful
    /// allocation honors the requested residency and category and hands
    /// back a token for a live, aligned, in-bounds chunk.
    #[verifier::rlimit(100)]
    #[verifier::spinoff_prover]
    pub fn allocate(&mut self, desc: &AllocationCreateDesc) -> (r: Result<
        Allocation,
        AllocationError,
    >)
        requires
            allocator_wf(old(self)@),
        ensures
            allocator_wf(final(self)@),
            final(self)@.device == old(self)@.device,
            final(self)@.debug_settings == old(self)@.debug_settings,
            final(self)@.allocation_sizes == old(self)@.allocation_sizes,
            final(self)@.memory_types.len() == old(self)@.memory_types.len(),
            final(self)@.heap_bytes_in_use >= old(self)@.heap_bytes_in_use,
            ((desc.size == 0 || !spec_is_power_of_two(desc.alignment as int)) <==> r
                == Err::<Allocation, AllocationError>(
                AllocationError::InvalidAllocationCreateDesc,
            )),
            (desc.size >= 1 && spec_is_power_of_two(desc.alignment as int)) ==> ((r == Err::<
                Allocation,
                AllocationError,
            >(AllocationError::NoCompatibleMemoryTypeFound)) <==> no_compatible(
                old(self)@.memory_types,
                desc.location,
                desc.resource_category,
            )),
            match r {
                Ok(alloc) => ({
                    let ti = alloc@.memory_type_index as int;
                    &&& is_first_compatible(
                        old(self)@.memory_types,
                        desc.location,
                        desc.resource_category,
                        ti,
                    )
                    &&& crate::memory_type::token_matches(
                        final(self)@.memory_types[ti],
                        alloc@,
                        desc.size,
                        desc.alignment,
                    )
                    &&& (final(self)@.memory_types[ti].heap_category == HeapCategory::All
                        || final(self)@.memory_types[ti].heap_category == spec_heap_category_of(
                        desc.resource_category,
                    ))
                    &&& (desc.location != MemoryLocation::Unknown
                        ==> final(self)@.memory_types[ti].memory_location == desc.location)
                    &&& forall|j: int|
                        0 <= j < old(self)@.memory_types.len() && j != ti
                            ==> #[trigger] final(self)@.memory_types[j]
                            == old(self)@.memory_types[j]
                    &&& types_live(final(self)@.memory_types) == types_live(
                        old(self)@.memory_types,
                    ) + desc.size
                    &&& types_capacity(final(self)@.memory_types) - types_capacity(
                        old(self)@.memory_types,
                    ) == final(self)@.heap_bytes_in_use - old(self)@.heap_bytes_in_use
                }),
                Err(e) => ({
                    &&& final(self)@ == old(self)@
                    &&& (e == AllocationError::OutOfMemory || e
                        == AllocationError::InvalidAllocationCreateDesc || e
                        == AllocationError::NoCompatibleMemoryTypeFound || e
                        matches AllocationError::Internal(_))
                }),
            },
            (desc.size >= 1 && spec_is_power_of_two(desc.alignment as int) && !no_compatible(
                old(self)@.memory_types,
                desc.location,
                desc.resource_category,
            )) ==> ({
                let ti = choose|i: int|
                    is_first_compatible(
                        old(self)@.memory_types,
                        desc.location,
                        desc.resource_category,
                        i,
                    );
                let t = old(self)@.memory_types[ti];
                let mb = old(self)@.allocation_sizes.spec_memblock_size(
                    t.heap_properties.spec_is_host(),
                    t.active_general_blocks,
                );
                let headroom = old(self)@.device.spec_description().memory_budget - old(self)@.heap_bytes_in_use;
                &&& (desc.size > mb && desc.size <= headroom && old(self)@.next_heap_id < u64::MAX
                    ==> r is Ok)
                &&& (desc.size <= mb && old(self)@.next_heap_id < u64::MAX
                    && crate::memory_type::no_block_exhausted(t) && (headroom >= mb
                    || !crate::memory_type::no_block_can_take(t, desc.size, desc.alignment)) ==> r
                    is Ok)
            }),
    {
        let ghost a0 = self@;
        if desc.size == 0 || !is_power_of_two(desc.alignment) {
            return Err(AllocationError::InvalidAllocationCreateDesc);
        }
        let n = self.memory_types.len();
        let mut i: usize = 0;
        let mut found: Option<usize> = None;
        while i < n
            invariant
                *self == *old(self),
                a0 == self@,
                n == self@.memory_types.len(),
                i <= n,
                found is None ==> forall|j: int|
                    0 <= j < i ==> !type_compatible(
                        #[trigger] a0.memory_types[j],
                        desc.location,
                        desc.resource_category,
                    ),
                found matches Some(f) ==> (f < i && is_first_compatible(
                    a0.memory_types,
                    desc.location,
                    desc.resource_category,
                    f as int,
                )),
            decreases n - i,
        {
            if found.is_none() {
                let loc_ok = match desc.location {
                    MemoryLocation::Unknown => true,
                    _ => {
                        let ghost ti = self@.memory_types[i as int];
                        proof {
                            assert(ti == self.memory_types@[i as int]@);
                        }
                        self.memory_types[i].memory_location == desc.location
                    },
                };
                let cat_ok = match self.memory_types[i].heap_category {
                    HeapCategory::All => true,
                    c => c == crate::types::heap_category_of(desc.resource_category),
                };
                proof {
                    assert(self@.memory_types[i as int] == self.memory_types@[i as int]@);
                }
                if loc_ok && cat_ok {
                    proof {
                        assert(type_compatible(
                            a0.memory_types[i as int],
                            desc.location,
                            desc.resource_category,
                        ));
                    }
                    found = Some(i);
                } else {
                    proof {
                        assert(!type_compatible(
                            a0.memory_types[i as int],
                            desc.location,
                            desc.resource_category,
                        ));
                    }
                }
            }
            i += 1;
        }
        let ti = match found {
            Some(t) => t,
            None => {
                return Err(AllocationError::NoCompatibleMemoryTypeFound);
            },
        };
        let budget = self.device.description().memory_budget;
        let sizes = self.allocation_sizes;
        let mut heap_in_use = self.heap_bytes_in_use;
        let mut next_heap_id = self.next_heap_id;
        proof {
            assert(self@.memory_types[ti as int] == self.memory_types@[ti as int]@);
            let c = choose|i: int|
                is_first_compatible(
                    a0.memory_types,
                    desc.location,
                    desc.resource_category,
                    i,
                );
            assert(is_first_compatible(
                a0.memory_types,
                desc.location,
                desc.resource_category,
                ti as int,
            ));
            if c != ti {
                if c < ti {
                    assert(type_compatible(
                        a0.memory_types[c],
                        desc.location,
                        desc.resource_category,
                    ));
                    assert(false);
                } else {
                    assert(type_compatible(
                        a0.memory_types[ti as int],
                        desc.location,
                        desc.resource_category,
                    ));
                    assert(false);
                }
            }
        }
        let res = self.memory_types[ti].allocate(
            desc,
            &sizes,
            &mut heap_in_use,
            budget,
            &mut next_heap_id,
        );
        self.heap_bytes_in_use = heap_in_use;
        self.next_heap_id = next_heap_id;
        proof {
            assert(self@.memory_types =~= a0.memory_types.update(
                ti as int,
                self@.memory_types[ti as int],
            ));
            crate::sums::lemma_sum_by_update(
                a0.memory_types,
                ti as int,
                self@.memory_types[ti as int],
                |t: MemoryTypeModel| type_total(t),
            );
            crate::sums::lemma_sum_by_update(
                a0.memory_types,
                ti as int,
                self@.memory_types[ti as int],
                |t: MemoryTypeModel| type_capacity(t.blocks),
            );
            crate::sums::lemma_sum_by_update(
                a0.memory_types,
                ti as int,
                self@.memory_types[ti as int],
                |t: MemoryTypeModel| type_live(t.blocks),
            );
        }
        match res {
            Ok(allocation) => {
                proof {
                    assert(allocation@.memory_type_index == ti);
                    assert forall|k: int| 0 <= k < self@.memory_types.len() implies mt_wf(
                        #[trigger] self@.memory_types[k],
                    ) by {
                        if k != ti {
                            assert(self@.memory_types[k] == a0.memory_types[k]);
                        }
                    }
                    assert(allocator_wf(self@));
                }
                Ok(allocation)
            },
            Err(e) => {
                proof {
                    assert(self@.memory_types =~= a0.memory_types);
                    assert(self@ =~= a0);
                }
                Err(e)
            },
        }
    }

    /// Give an allocation token back.  Freeing the null allocation
    /// succeeds and changes nothing; a token for a live chunk always frees
    /// successfully; anything else (a stale token, a double free) is an
    /// internal error and changes nothing.
    #[verifier::rlimit(100)]
    #[verifier::spinoff_prover]
    pub fn free(&mut self, allocation: Allocation) -> (r: Result<(), AllocationError>)
        requires
            allocator_wf(old(self)@),
        ensures
            allocator_wf(final(self)@),
            final(self)@.device == old(self)@.device,
            final(self)@.debug_settings == old(self)@.debug_settings,
            final(self)@.allocation_sizes == old(self)@.allocation_sizes,
            final(self)@.memory_types.len() == old(self)@.memory_types.len(),
            final(self)@.next_heap_id == old(self)@.next_heap_id,
            final(self)@.heap_bytes_in_use <= old(self)@.heap_bytes_in_use,
            allocation@.chunk_id is None ==> (r is Ok && final(self)@ == old(self)@),
            match r {
                Ok(u) => allocation@.chunk_id is None || ({
                    let ti = allocation@.memory_type_index as int;
                    &&& 0 <= ti < old(self)@.memory_types.len()
                    &&& crate::memory_type::valid_free_token(
                        old(self)@.memory_types[ti],
                        allocation@,
                    )
                    &&& crate::memory_type::freed_outcome(
                        old(self)@.memory_types[ti],
                        final(self)@.memory_types[ti],
                        allocation@.memory_block_index as int,
                        allocation@.chunk_id->Some_0,
                    )
                    &&& forall|j: int|
                        0 <= j < old(self)@.memory_types.len() && j != ti
                            ==> #[trigger] final(self)@.memory_types[j]
                            == old(self)@.memory_types[j]
                    &&& types_capacity(final(self)@.memory_types) - types_capacity(
                        old(self)@.memory_types,
                    ) == final(self)@.heap_bytes_in_use - old(self)@.heap_bytes_in_use
                }),
                Err(e) => ({
                    &&& final(self)@ == old(self)@
                    &&& e matches AllocationError::Internal(_)
                    &&& !(allocation@.memory_type_index < old(self)@.memory_types.len()
                        && crate::memory_type::valid_free_token(
                        old(self)@.memory_types[allocation@.memory_type_index as int],
                        allocation@,
                    ))
                }),
            },
            (allocation@.memory_type_index < old(self)@.memory_types.len()
                && crate::memory_type::valid_free_token(
                old(self)@.memory_types[allocation@.memory_type_index as int],
                allocation@,
            )) ==> r is Ok,
    {
        let ghost a0 = self@;
        if allocation.is_null() {
            return Ok(());
        }
        let ti = allocation.memory_type_index();
        let n = self.memory_types.len();
        if ti >= n {
            return Err(AllocationError::Internal("Memory type index out of range.".to_owned()));
        }
        let mut heap_in_use = self.heap_bytes_in_use;
        proof {
            assert(self@.memory_types[ti as int] == self.memory_types@[ti as int]@);
            Allocator::lemma_capacity_bounds(a0);
            assert forall|j: int| 0 <= j < a0.memory_types.len() implies #[trigger] type_total(
                a0.memory_types[j],
            ) >= 0 by {
                MemoryType::lemma_live_le_capacity(a0.memory_types[j]);
            }
            crate::sums::lemma_sum_by_bound(
                a0.memory_types,
                ti as int,
                |t: MemoryTypeModel| type_total(t),
            );
            MemoryType::lemma_live_le_capacity(a0.memory_types[ti as int]);
        }
        let res = self.memory_types[ti].free(allocation, &mut heap_in_use);
        self.heap_bytes_in_use = heap_in_use;
        proof {
            assert(self@.memory_types =~= a0.memory_types.update(
                ti as int,
                self@.memory_types[ti as int],
            ));
            crate::sums::lemma_sum_by_update(
                a0.memory_types,
                ti as int,
                self@.memory_types[ti as int],
                |t: MemoryTypeModel| type_total(t),
            );
            crate::sums::lemma_sum_by_update(
                a0.memory_types,
                ti as int,
                self@.memory_types[ti as int],
                |t: MemoryTypeModel| type_capacity(t.blocks),
            );
        }
        match res {
            Ok(u) => {
                proof {
                    assert forall|k: int| 0 <= k < self@.memory_types.len() implies mt_wf(
                        #[trigger] self@.memory_types[k],
                    ) by {
                        if k != ti {
                            assert(self@.memory_types[k] == a0.memory_types[k]);
                        }
                    }
                    assert(allocator_wf(self@));
                }
                Ok(())
            },
            Err(e) => {
                proof {
                    assert(self@.memory_types =~= a0.memory_types);
                    assert(self@ =~= a0);
                }
                Err(e)
            },
        }
    }

    /// Update the display name carried by the token and by its chunk in
    /// the sub-allocator.  Renaming the null allocation only updates the
    /// token.
    pub fn rename_allocation(&mut self, allocation: &mut Allocation, name: &str) -> (r: Result<
        (),
        AllocationError,
    >)
        requires
            allocator_wf(old(self)@),
        ensures
            allocator_wf(final(self)@),
            final(self)@ == old(self)@,
            final(allocation)@ == (crate::types::AllocationModel {
                name: Some(name@),
                ..old(allocation)@
            }),
            old(allocation)@.chunk_id is None ==> r is Ok,
            r is Ok <==> (old(allocation)@.chunk_id is None || (old(
                allocation,
            )@.memory_type_index < old(self)@.memory_types.len()
                && crate::memory_type::live_chunk_in_block(
                old(self)@.memory_types[old(allocation)@.memory_type_index as int],
                old(allocation)@.memory_block_index as int,
                old(allocation)@.chunk_id,
            ))),
            r is Err ==> r matches Err(AllocationError::Internal(_)),
    {
        let ghost a0 = self@;
        allocation.set_name(name.to_owned());
        if allocation.is_null() {
            return Ok(());
        }
        let ti = allocation.memory_type_index();
        let n = self.memory_types.len();
        if ti >= n {
            return Err(AllocationError::Internal("Memory type index out of range.".to_owned()));
        }
        proof {
            assert(self@.memory_types[ti as int] == self.memory_types@[ti as int]@);
        }
        let bi = allocation.memory_block_index();
        let cid = allocation.chunk_id();
        let res = self.memory_types[ti].rename_allocation(bi, cid, name);
        proof {
            assert(self@.memory_types =~= a0.memory_types.update(
                ti as int,
                self@.memory_types[ti as int],
            ));
            assert(self@.memory_types =~= a0.memory_types);
            assert(self@ =~= a0);
        }
        res
    }

    /// Walk every block of every memory type and report each live
    /// allocation, each block, and the totals over both: the allocated
    /// bytes are exactly the live sub-allocation bytes, the capacity is
    /// exactly the pooled block bytes.
    pub fn generate_report(&self) -> (r: AllocatorReport)
        requires
            allocator_wf(self@),
        ensures
            r.total_allocated_bytes as int == types_live(self@.memory_types),
            r.total_capacity_bytes as int == types_capacity(self@.memory_types),
            reports_bytes(r.allocations@) == types_live(self@.memory_types),
            r.allocations@.len() == types_live_count(self@.memory_types),
            block_reports_bytes(r.blocks@) == types_capacity(self@.memory_types),
            forall|k: int|
                0 <= k < r.blocks@.len() ==> ((#[trigger] r.blocks@[k]).allocations_start
                    <= r.blocks@[k].allocations_end && r.blocks@[k].allocations_end
                    <= r.allocations@.len()),
    {
        let mut allocations: Vec<AllocationReport> = Vec::new();
        let mut blocks: Vec<MemoryBlockReport> = Vec::new();
        let n = self.memory_types.len();
        let mut i: usize = 0;
        while i < n
            invariant
                allocator_wf(self@),
                n == self@.memory_types.len(),
                i <= n,
                allocations@.len() == crate::sums::sum_by(
                    self@.memory_types.take(i as int),
                    |t: MemoryTypeModel| type_live_count(t.blocks),
                ),
                reports_bytes(allocations@) == crate::sums::sum_by(
                    self@.memory_types.take(i as int),
                    |t: MemoryTypeModel| type_live(t.blocks),
                ),
                block_reports_bytes(blocks@) == crate::sums::sum_by(
                    self@.memory_types.take(i as int),
                    |t: MemoryTypeModel| type_capacity(t.blocks),
                ),
                forall|k: int|
                    0 <= k < blocks@.len() ==> ((#[trigger] blocks@[k]).allocations_start
                        <= blocks@[k].allocations_end && blocks@[k].allocations_end
                        <= allocations@.len()),
            decreases n - i,
        {
            proof {
                crate::sums::lemma_sum_by_take_step(
                    self@.memory_types,
                    i as int,
                    |t: MemoryTypeModel| type_live_count(t.blocks),
                );
                crate::sums::lemma_sum_by_take_step(
                    self@.memory_types,
                    i as int,
                    |t: MemoryTypeModel| type_live(t.blocks),
                );
                crate::sums::lemma_sum_by_take_step(
                    self@.memory_types,
                    i as int,
                    |t: MemoryTypeModel| type_capacity(t.blocks),
                );
                assert(self@.memory_types[i as int] == self.memory_types@[i as int]@);
            }
            self.memory_types[i].collect_reports(&mut allocations, &mut blocks);
            i += 1;
        }
        proof {
            crate::sums::lemma_sum_by_take_all(
                self@.memory_types,
                |t: MemoryTypeModel| type_live_count(t.blocks),
            );
            crate::sums::lemma_sum_by_take_all(
                self@.memory_types,
                |t: MemoryTypeModel| type_live(t.blocks),
            );
            crate::sums::lemma_sum_by_take_all(
                self@.memory_types,
                |t: MemoryTypeModel| type_capacity(t.blocks),
            );
            Allocator::lemma_capacity_bounds(self@);
        }
        let total_capacity_bytes = self.capacity();
        let total_allocated_bytes = sum_report_sizes(&allocations);
        AllocatorReport { allocations, blocks, total_allocated_bytes, total_capacity_bytes }
    }

    /// One report entry per leaked (still live) allocation.
    pub fn report_memory_leaks(&self) -> (r: Vec<AllocationReport>)
        requires
            allocator_wf(self@),
        ensures
            reports_bytes(r@) == types_live(self@.memory_types),
            r@.len() == types_live_count(self@.memory_types),
    {
        let report = self.generate_report();
        report.allocations
    }

    /// Pooled bytes are non-negative everywhere and within the tracked
    /// total, hence within the budget.
    proof fn lemma_capacity_bounds(a: AllocatorModel)
        requires
            allocator_wf(a),
        ensures
            types_capacity(a.memory_types) <= types_total(a.memory_types),
            0 <= types_capacity(a.memory_types),
            types_live(a.memory_types) <= types_capacity(a.memory_types),
            0 <= types_live(a.memory_types),
            forall|i: int|
                0 <= i < a.memory_types.len() ==> 0 <= #[trigger] type_capacity(
                    a.memory_types[i].blocks,
                ) <= types_total(a.memory_types),
    {
        assert forall|i: int| 0 <= i < a.memory_types.len() implies 0 <= #[trigger] type_live(
            a.memory_types[i].blocks,
        ) && type_live(a.memory_types[i].blocks) <= type_capacity(a.memory_types[i].blocks)
            && type_capacity(a.memory_types[i].blocks) <= type_total(a.memory_types[i]) by {
            MemoryType::lemma_live_le_capacity(a.memory_types[i]);
        }
        crate::sums::lemma_sum_by_le(
            a.memory_types,
            |t: MemoryTypeModel| type_capacity(t.blocks),
            |t: MemoryTypeModel| type_total(t),
        );
        crate::sums::lemma_sum_by_le(
            a.memory_types,
            |t: MemoryTypeModel| type_live(t.blocks),
            |t: MemoryTypeModel| type_capacity(t.blocks),
        );
        assert forall|j: int| 0 <= j < a.memory_types.len() implies #[trigger] type_capacity(
            a.memory_types[j].blocks,
        ) >= 0 by {
            MemoryType::lemma_live_le_capacity(a.memory_types[j]);
        }
        assert forall|j: int| 0 <= j < a.memory_types.len() implies #[trigger] type_live(
            a.memory_types[j].blocks,
        ) >= 0 by {
            MemoryType::lemma_live_le_capacity(a.memory_types[j]);
        }
        crate::sums::lemma_sum_by_nonneg(
            a.memory_types,
            |t: MemoryTypeModel| type_capacity(t.blocks),
        );
        crate::sums::lemma_sum_by_nonneg(a.memory_types, |t: MemoryTypeModel| type_live(t.blocks));
        assert forall|i: int| 0 <= i < a.memory_types.len() implies 0 <= #[trigger] type_capacity(
            a.memory_types[i].blocks,
        ) && type_capacity(a.memory_types[i].blocks) <= types_total(a.memory_types) by {
            MemoryType::lemma_live_le_capacity(a.memory_types[i]);
            assert forall|j: int| 0 <= j < a.memory_types.len() implies #[trigger] type_total(
                a.memory_types[j],
            ) >= 0 by {
                MemoryType::lemma_live_le_capacity(a.memory_types[j]);
            }
            crate::sums::lemma_sum_by_bound(
                a.memory_types,
                i,
                |t: MemoryTypeModel| type_total(t),
            );
        }
    }
}

} // verus!
