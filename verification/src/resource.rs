//! Resource creation and teardown: the capability gate over (device
//! version, initial state, castable formats), the committed path that only
//! tracks statistics, and the placed path that sub-allocates and binds a
//! token to the resource handle.

use vstd::prelude::*;
use crate::allocator::Allocator;
use crate::allocator::allocator_wf;
use crate::allocator::is_first_compatible;
use crate::allocator::no_compatible;
use crate::allocator::spec_is_power_of_two;
use crate::allocator::type_total;
use crate::allocator::types_live;
use crate::config::MemoryLocation;
use crate::device::ID3D12DeviceVersion;
use crate::memory_type::MemoryType;
use crate::memory_type::MemoryTypeModel;
use crate::memory_type::mt_wf;
use crate::memory_type::token_matches;
use crate::result::AllocationError;
use crate::types::AllocationCreateDesc;
use crate::types::CommittedAllocationStatistics;
use crate::types::Resource;
use crate::types::ResourceCreateDesc;
use crate::types::ResourceStateOrBarrierLayout;
use crate::types::ResourceType;

verus! {

/// The precondition gate applied to every resource creation:
/// castable formats need enhanced barriers; barrier layouts need at least
/// a version 10 device; castable formats with a barrier layout need a
/// version 12 device.
pub open spec fn spec_create_gate(
    device: ID3D12DeviceVersion,
    initial: ResourceStateOrBarrierLayout,
    has_castable_formats: bool,
) -> Option<AllocationError> {
    match initial {
        ResourceStateOrBarrierLayout::ResourceState(_) => if has_castable_formats {
            Some(AllocationError::CastableFormatsRequiresEnhancedBarriers)
        } else {
            None
        },
        ResourceStateOrBarrierLayout::BarrierLayout(_) => match device {
            ID3D12DeviceVersion::Device(_) => Some(AllocationError::BarrierLayoutNeedsDevice10),
            ID3D12DeviceVersion::Device10(_) => if has_castable_formats {
                Some(AllocationError::CastableFormatsRequiresAtLeastDevice12)
            } else {
                None
            },
            ID3D12DeviceVersion::Device12(_) => None,
        },
    }
}

/// Exec decision matching [`spec_create_gate`].
pub fn create_gate(
    device: &ID3D12DeviceVersion,
    initial: ResourceStateOrBarrierLayout,
    has_castable_formats: bool,
) -> (r: Option<AllocationError>)
    ensures
        r == spec_create_gate(*device, initial, has_castable_formats),
{
    match initial {
        ResourceStateOrBarrierLayout::ResourceState(_) => if has_castable_formats {
            Some(AllocationError::CastableFormatsRequiresEnhancedBarriers)
        } else {
            None
        },
        ResourceStateOrBarrierLayout::BarrierLayout(_) => match device {
            ID3D12DeviceVersion::Device(_) => Some(AllocationError::BarrierLayoutNeedsDevice10),
            ID3D12DeviceVersion::Device10(_) => if has_castable_formats {
                Some(AllocationError::CastableFormatsRequiresAtLeastDevice12)
            } else {
                None
            },
            ID3D12DeviceVersion::Device12(_) => None,
        },
    }
}

impl Allocator {
    /// Create a resource.  The capability check runs first; a committed resource
    /// only updates the statistics of its compatible memory type, while a
    /// placed resource carries a sub-allocation token.  The embedding layer
    /// makes the actual device call with the returned placement.
    #[verifier::rlimit(100)]
    #[verifier::spinoff_prover]
    pub fn create_resource(&mut self, desc: &ResourceCreateDesc) -> (r: Result<
        Resource,
        AllocationError,
    >)
        requires
            allocator_wf(old(self)@),
        ensures
            allocator_wf(final(self)@),
            final(self)@.device == old(self)@.device,
            final(self)@.debug_settings == old(self)@.debug_settings,
            final(self)@.allocation_sizes == old(self)@.allocation_sizes,
            final(self)@.memory_types.len() == old(self)@.memory_types.len(),
            (spec_create_gate(
                old(self)@.device,
                desc.initial_state_or_layout,
                desc.castable_formats@.len() > 0,
            ) matches Some(e) ==> (r == Err::<Resource, AllocationError>(e) && final(self)@ == old(self)@)),
            (spec_create_gate(
                old(self)@.device,
                desc.initial_state_or_layout,
                desc.castable_formats@.len() > 0,
            ) is None ==> (r != Err::<Resource, AllocationError>(
                AllocationError::BarrierLayoutNeedsDevice10,
            ) && r != Err::<Resource, AllocationError>(
                AllocationError::CastableFormatsRequiresEnhancedBarriers,
            ) && r != Err::<Resource, AllocationError>(
                AllocationError::CastableFormatsRequiresAtLeastDevice12,
            ))),
            match r {
                Ok(res) => ({
                    &&& spec_create_gate(
                        old(self)@.device,
                        desc.initial_state_or_layout,
                        desc.castable_formats@.len() > 0,
                    ) is None
                    &&& res@.memory_location == desc.memory_location
                    &&& res@.size == desc.size
                    &&& match desc.resource_type {
                        ResourceType::Committed { .. } => ({
                            &&& res@.allocation is None
                            &&& desc.size >= 1
                            &&& res@.memory_type_index matches Some(ti) && ({
                                &&& ti < old(self)@.memory_types.len()
                                &&& is_first_compatible(
                                    old(self)@.memory_types,
                                    desc.memory_location,
                                    desc.resource_category,
                                    ti as int,
                                )
                                &&& final(self)@.memory_types == old(self)@.memory_types.update(
                                    ti as int,
                                    MemoryTypeModel {
                                        committed_allocations: CommittedAllocationStatistics {
                                            num_allocations: (old(self)@.memory_types[ti as int].committed_allocations.num_allocations
                                                + 1) as u64,
                                            total_size: (old(self)@.memory_types[ti as int].committed_allocations.total_size
                                                + desc.size) as u64,
                                        },
                                        ..old(self)@.memory_types[ti as int]
                                    },
                                )
                                &&& final(self)@.heap_bytes_in_use == old(self)@.heap_bytes_in_use
                                    + desc.size
                            })
                        }),
                        ResourceType::Placed => ({
                            &&& res@.memory_type_index is None
                            &&& res@.allocation matches Some(a) && ({
                                let ti = a.memory_type_index as int;
                                &&& is_first_compatible(
                                    old(self)@.memory_types,
                                    desc.memory_location,
                                    desc.resource_category,
                                    ti,
                                )
                                &&& token_matches(
                                    final(self)@.memory_types[ti],
                                    a,
                                    desc.size,
                                    desc.alignment,
                                )
                                &&& (desc.memory_location != MemoryLocation::Unknown ==> final(self)@.memory_types[ti].memory_location == desc.memory_location)
                                &&& types_live(final(self)@.memory_types) == types_live(
                                    old(self)@.memory_types,
                                ) + desc.size
                            })
                        }),
                    }
                }),
                Err(e) => final(self)@ == old(self)@,
            },
            (match desc.resource_type {
                ResourceType::Committed { .. } => ({
                    let gate = spec_create_gate(
                        old(self)@.device,
                        desc.initial_state_or_layout,
                        desc.castable_formats@.len() > 0,
                    );
                    &&& ((gate is None && desc.size == 0) <==> r == Err::<
                        Resource,
                        AllocationError,
                    >(AllocationError::InvalidAllocationCreateDesc))
                    &&& ((gate is None && desc.size >= 1 && no_compatible(
                        old(self)@.memory_types,
                        desc.memory_location,
                        desc.resource_category,
                    )) <==> r == Err::<Resource, AllocationError>(
                        AllocationError::NoCompatibleMemoryTypeFound,
                    ))
                    &&& (gate is None && desc.size >= 1 && !no_compatible(
                        old(self)@.memory_types,
                        desc.memory_location,
                        desc.resource_category,
                    ) ==> (r is Err <==> old(self)@.device.spec_description().memory_budget - old(self)@.heap_bytes_in_use < desc.size))
                }),
                ResourceType::Placed => ({
                    let gate = spec_create_gate(
                        old(self)@.device,
                        desc.initial_state_or_layout,
                        desc.castable_formats@.len() > 0,
                    );
                    &&& ((gate is None && (desc.size == 0 || !spec_is_power_of_two(
                        desc.alignment as int,
                    ))) <==> r == Err::<Resource, AllocationError>(
                        AllocationError::InvalidAllocationCreateDesc,
                    ))
                    &&& ((gate is None && desc.size >= 1 && spec_is_power_of_two(
                        desc.alignment as int,
                    ) && no_compatible(
                        old(self)@.memory_types,
                        desc.memory_location,
                        desc.resource_category,
                    )) <==> r == Err::<Resource, AllocationError>(
                        AllocationError::NoCompatibleMemoryTypeFound,
                    ))
                    &&& ((gate is None && desc.size >= 1 && spec_is_power_of_two(
                        desc.alignment as int,
                    ) && !no_compatible(
                        old(self)@.memory_types,
                        desc.memory_location,
                        desc.resource_category,
                    )) ==> ({
                        let ti = choose|i: int|
                            is_first_compatible(
                                old(self)@.memory_types,
                                desc.memory_location,
                                desc.resource_category,
                                i,
                            );
                        let t = old(self)@.memory_types[ti];
                        let mb = old(self)@.allocation_sizes.spec_memblock_size(
                            t.heap_properties.spec_is_host(),
                            t.active_general_blocks,
                        );
                        let headroom = old(self)@.device.spec_description().memory_budget
                            - old(self)@.heap_bytes_in_use;
                        &&& (desc.size > mb && desc.size <= headroom && old(self)@.next_heap_id
                            < u64::MAX ==> r is Ok)
                        &&& (desc.size <= mb && old(self)@.next_heap_id < u64::MAX
                            && crate::memory_type::no_block_exhausted(t) && (headroom >= mb
                            || !crate::memory_type::no_block_can_take(
                            t,
                            desc.size,
                            desc.alignment,
                        )) ==> r is Ok)
                    }))
                }),
            }),
    {
        let ghost a0 = self@;
        let has_castable = desc.castable_formats.len() > 0;
        match create_gate(&self.device, desc.initial_state_or_layout, has_castable) {
            Some(e) => {
                return Err(e);
            },
            None => {},
        }
        match desc.resource_type {
            ResourceType::Committed { heap_properties: _, heap_flags: _ } => {
                if desc.size == 0 {
                    return Err(AllocationError::InvalidAllocationCreateDesc);
                }
                // find the compatible memory type for the statistics
                let n = self.memory_types.len();
                let mut i: usize = 0;
                let mut found: Option<usize> = None;
                while i < n
                    invariant
                        *self == *old(self),
                        a0 == self@,
                        n == self@.memory_types.len(),
                        i <= n,
                        found is None ==> forall|j: int|
                            0 <= j < i ==> !crate::allocator::type_compatible(
                                #[trigger] a0.memory_types[j],
                                desc.memory_location,
                                desc.resource_category,
                            ),
                        found matches Some(f) ==> (f < i && is_first_compatible(
                            a0.memory_types,
                            desc.memory_location,
                            desc.resource_category,
                            f as int,
                        )),
                    decreases n - i,
                {
                    if found.is_none() {
                        let loc_ok = match desc.memory_location {
                            MemoryLocation::Unknown => true,
                            _ => self.memory_types[i].memory_location == desc.memory_location,
                        };
                        let cat_ok = match self.memory_types[i].heap_category {
                            crate::types::HeapCategory::All => true,
                            c => c == crate::types::heap_category_of(desc.resource_category),
                        };
                        proof {
                            assert(self@.memory_types[i as int] == self.memory_types@[i as int]@);
                        }
                        if loc_ok && cat_ok {
                            proof {
                                assert(crate::allocator::type_compatible(
                                    a0.memory_types[i as int],
                                    desc.memory_location,
                                    desc.resource_category,
                                ));
                            }
                            found = Some(i);
                        } else {
                            proof {
                                assert(!crate::allocator::type_compatible(
                                    a0.memory_types[i as int],
                                    desc.memory_location,
                                    desc.resource_category,
                                ));
                            }
                        }
                    }
                    i += 1;
                }
                let ti = match found {
                    Some(t) => t,
                    None => {
                        return Err(AllocationError::NoCompatibleMemoryTypeFound);
                    },
                };
                // the model of a committed creation failing is an exhausted
                // memory budget; the host API reports such failures as
                // plain errors, surfaced as internal
                let budget = self.device.description().memory_budget;
                if budget - self.heap_bytes_in_use < desc.size {
                    return Err(
                        AllocationError::Internal(
                            "ID3D12Device::CreateCommittedResource failed.".to_owned(),
                        ),
                    );
                }
                proof {
                    assert(self@.memory_types[ti as int] == self.memory_types@[ti as int]@);
                }
                let old_stats = self.memory_types[ti].committed_allocations;
                proof {
                    assert(old_stats == a0.memory_types[ti as int].committed_allocations);
                    assert(old_stats.num_allocations <= old_stats.total_size);
                    assert forall|j: int|
                        0 <= j < a0.memory_types.len() implies #[trigger] type_total(
                        a0.memory_types[j],
                    ) >= 0 by {
                        MemoryType::lemma_live_le_capacity(a0.memory_types[j]);
                    }
                    crate::sums::lemma_sum_by_bound(
                        a0.memory_types,
                        ti as int,
                        |t: MemoryTypeModel| type_total(t),
                    );
                    MemoryType::lemma_live_le_capacity(a0.memory_types[ti as int]);
                }
                self.memory_types[ti].committed_allocations = CommittedAllocationStatistics {
                    num_allocations: old_stats.num_allocations + 1,
                    total_size: old_stats.total_size + desc.size,
                };
                self.heap_bytes_in_use = self.heap_bytes_in_use + desc.size;
                proof {
                    assert(self@.memory_types =~= a0.memory_types.update(
                        ti as int,
                        self@.memory_types[ti as int],
                    ));
                    crate::sums::lemma_sum_by_update(
                        a0.memory_types,
                        ti as int,
                        self@.memory_types[ti as int],
                        |t: MemoryTypeModel| type_total(t),
                    );
                    assert(self@.memory_types[ti as int] =~= (MemoryTypeModel {
                        committed_allocations: CommittedAllocationStatistics {
                            num_allocations: (a0.memory_types[
                                ti as int
                            ].committed_allocations.num_allocations + 1) as u64,
                            total_size: (a0.memory_types[
                                ti as int
                            ].committed_allocations.total_size + desc.size) as u64,
                        },
                        ..a0.memory_types[ti as int]
                    }));
                    assert forall|k: int| 0 <= k < self@.memory_types.len() implies mt_wf(
                        #[trigger] self@.memory_types[k],
                    ) by {
                        if k != ti {
                            assert(self@.memory_types[k] == a0.memory_types[k]);
                        } else {
                            assert(self@.memory_types[k].blocks
                                == a0.memory_types[k].blocks);
                        }
                    }
                    assert(allocator_wf(self@));
                }
                Ok(
                    Resource::make(
                        desc.name.clone(),
                        None,
                        desc.memory_location,
                        Some(ti),
                        desc.size,
                    ),
                )
            },
            ResourceType::Placed => {
                let allocation_desc = AllocationCreateDesc {
                    name: desc.name.clone(),
                    location: desc.memory_location,
                    size: desc.size,
                    alignment: desc.alignment,
                    resource_category: desc.resource_category,
                };
                let allocation = match self.allocate(&allocation_desc) {
                    Ok(a) => a,
                    Err(e) => {
                        return Err(e);
                    },
                };
                let size = allocation.size();
                Ok(
                    Resource::make(
                        desc.name.clone(),
                        Some(allocation),
                        desc.memory_location,
                        None,
                        size,
                    ),
                )
            },
        }
    }

    /// Free a resource.  The embedding layer must release the host API
    /// resource object first; this routine then gives the sub-allocation
    /// back, or, for a committed resource, reverses the statistics of its
    /// memory type.
    #[verifier::rlimit(100)]
    #[verifier::spinoff_prover]
    pub fn free_resource(&mut self, resource: Resource) -> (r: Result<(), AllocationError>)
        requires
            allocator_wf(old(self)@),
        ensures
            allocator_wf(final(self)@),
            final(self)@.device == old(self)@.device,
            final(self)@.debug_settings == old(self)@.debug_settings,
            final(self)@.allocation_sizes == old(self)@.allocation_sizes,
            final(self)@.memory_types.len() == old(self)@.memory_types.len(),
            final(self)@.heap_bytes_in_use <= old(self)@.heap_bytes_in_use,
            match resource@.allocation {
                Some(a) => ({
                    &&& (a.chunk_id is None ==> (r is Ok && final(self)@ == old(self)@))
                    &&& ((a.memory_type_index < old(self)@.memory_types.len()
                        && crate::memory_type::valid_free_token(
                        old(self)@.memory_types[a.memory_type_index as int],
                        a,
                    )) ==> r is Ok)
                    &&& (r is Ok && a.chunk_id is Some ==> crate::memory_type::freed_outcome(
                        old(self)@.memory_types[a.memory_type_index as int],
                        final(self)@.memory_types[a.memory_type_index as int],
                        a.memory_block_index as int,
                        a.chunk_id->Some_0,
                    ))
                    &&& (r is Err ==> final(self)@ == old(self)@)
                }),
                None => match resource@.memory_type_index {
                    Some(ti) => ({
                        let stats = old(self)@.memory_types[ti as int].committed_allocations;
                        if ti < old(self)@.memory_types.len() && stats.num_allocations >= 1
                            && stats.total_size >= resource@.size && stats.total_size
                            - resource@.size >= stats.num_allocations - 1 {
                            &&& r is Ok
                            &&& final(self)@.memory_types == old(self)@.memory_types.update(
                                ti as int,
                                MemoryTypeModel {
                                    committed_allocations: CommittedAllocationStatistics {
                                        num_allocations: (stats.num_allocations - 1) as u64,
                                        total_size: (stats.total_size - resource@.size) as u64,
                                    },
                                    ..old(self)@.memory_types[ti as int]
                                },
                            )
                            &&& final(self)@.heap_bytes_in_use == old(self)@.heap_bytes_in_use
                                - resource@.size
                        } else {
                            r is Err && final(self)@ == old(self)@
                        }
                    }),
                    None => r is Ok && final(self)@ == old(self)@,
                },
            },
    {
        let ghost a0 = self@;
        let (allocation, memory_type_index, size) = resource.take_parts();
        match allocation {
            Some(alloc) => self.free(alloc),
            None => {
                match memory_type_index {
                    Some(ti) => {
                        let n = self.memory_types.len();
                        if ti >= n {
                            return Err(
                                AllocationError::Internal(
                                    "Memory type index out of range.".to_owned(),
                                ),
                            );
                        }
                        proof {
                            assert(self@.memory_types[ti as int]
                                == self.memory_types@[ti as int]@);
                        }
                        let stats = self.memory_types[ti].committed_allocations;
                        if !(stats.num_allocations >= 1 && stats.total_size >= size
                            && stats.total_size - size >= stats.num_allocations - 1) {
                            return Err(
                                AllocationError::Internal(
                                    "Committed statistics out of balance.".to_owned(),
                                ),
                            );
                        }
                        proof {
                            assert(stats == a0.memory_types[ti as int].committed_allocations);
                            assert forall|j: int|
                                0 <= j < a0.memory_types.len() implies #[trigger] type_total(
                                a0.memory_types[j],
                            ) >= 0 by {
                                MemoryType::lemma_live_le_capacity(a0.memory_types[j]);
                            }
                            crate::sums::lemma_sum_by_bound(
                                a0.memory_types,
                                ti as int,
                                |t: MemoryTypeModel| type_total(t),
                            );
                            MemoryType::lemma_live_le_capacity(a0.memory_types[ti as int]);
                        }
                        self.memory_types[ti].committed_allocations =
                            CommittedAllocationStatistics {
                            num_allocations: stats.num_allocations - 1,
                            total_size: stats.total_size - size,
                        };
                        self.heap_bytes_in_use = self.heap_bytes_in_use - size;
                        proof {
                            assert(self@.memory_types =~= a0.memory_types.update(
                                ti as int,
                                self@.memory_types[ti as int],
                            ));
                            crate::sums::lemma_sum_by_update(
                                a0.memory_types,
                                ti as int,
                                self@.memory_types[ti as int],
                                |t: MemoryTypeModel| type_total(t),
                            );
                            assert(self@.memory_types[ti as int] =~= (MemoryTypeModel {
                                committed_allocations: CommittedAllocationStatistics {
                                    num_allocations: (stats.num_allocations - 1) as u64,
                                    total_size: (stats.total_size - size) as u64,
                                },
                                ..a0.memory_types[ti as int]
                            }));
                            assert forall|k: int|
                                0 <= k < self@.memory_types.len() implies mt_wf(
                                #[trigger] self@.memory_types[k],
                            ) by {
                                if k != ti {
                                    assert(self@.memory_types[k] == a0.memory_types[k]);
                                } else {
                                    assert(self@.memory_types[k].blocks
                                        == a0.memory_types[k].blocks);
                                }
                            }
                            assert(allocator_wf(self@));
                        }
                        Ok(())
                    },
                    None => Ok(()),
                }
            },
        }
    }
}

} // verus!
