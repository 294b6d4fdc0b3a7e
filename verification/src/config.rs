//! Caller-facing configuration: residency classes, block-size policy and
//! debug switches.

use vstd::prelude::*;

verus! {

/// Residency class requested for an allocation, or `Unknown` to accept any.
#[derive(Clone, Copy, Debug, PartialEq, Eq, Structural)]
pub enum MemoryLocation {
    /// The allocator may choose any memory type.
    Unknown,
    /// Device-local memory.
    GpuOnly,
    /// Host-visible write-combined memory.
    CpuToGpu,
    /// Host-visible write-back memory.
    GpuToCpu,
}

/// Smallest block size the policy will return, in bytes.
pub const MIN_MEMBLOCK_SIZE: u64 = 4194304;

/// Largest block size the policy will return, in bytes.
pub const MAX_MEMBLOCK_SIZE: u64 = 268435456;

/// Policy for the size of the next general memory block.
///
/// The size starts at a per-residency base, doubles with the number of
/// general blocks already active in the memory type, and is capped at
/// [`MAX_MEMBLOCK_SIZE`].
#[derive(Clone, Copy, Debug)]
pub struct AllocationSizes {
    device_memblock_size: u64,
    host_memblock_size: u64,
}

impl AllocationSizes {
    pub closed spec fn spec_device_memblock_size(self) -> u64 {
        self.device_memblock_size
    }

    pub closed spec fn spec_host_memblock_size(self) -> u64 {
        self.host_memblock_size
    }

    /// Both base sizes stay inside the fixed bounds.
    pub open spec fn wf(self) -> bool {
        &&& MIN_MEMBLOCK_SIZE <= self.spec_device_memblock_size() <= MAX_MEMBLOCK_SIZE
        &&& MIN_MEMBLOCK_SIZE <= self.spec_host_memblock_size() <= MAX_MEMBLOCK_SIZE
    }

    /// The size the policy yields for the given residency once `count`
    /// general blocks are active.
    pub open spec fn spec_memblock_size(self, is_host: bool, count: usize) -> u64 {
        let base = if is_host {
            self.spec_host_memblock_size()
        } else {
            self.spec_device_memblock_size()
        };
        let grown = (base as int) * growth_factor(count);
        if grown > MAX_MEMBLOCK_SIZE as int {
            MAX_MEMBLOCK_SIZE
        } else {
            grown as u64
        }
    }

    /// Base sizes are clamped into `[MIN_MEMBLOCK_SIZE, MAX_MEMBLOCK_SIZE]`.
    pub fn new(device_memblock_size: u64, host_memblock_size: u64) -> (r: Self)
        ensures
            r.wf(),
            r.spec_device_memblock_size() == clamp_memblock(device_memblock_size),
            r.spec_host_memblock_size() == clamp_memblock(host_memblock_size),
    {
        AllocationSizes {
            device_memblock_size: clamp_memblock_exec(device_memblock_size),
            host_memblock_size: clamp_memblock_exec(host_memblock_size),
        }
    }

    /// Next general block size for this residency; see
    /// [`Self::spec_memblock_size`] for the exact value.
    pub fn get_memblock_size(&self, is_host: bool, count: usize) -> (r: u64)
        requires
            self.wf(),
        ensures
            r == self.spec_memblock_size(is_host, count),
            MIN_MEMBLOCK_SIZE <= r <= MAX_MEMBLOCK_SIZE,
    {
        let base = if is_host {
            self.host_memblock_size
        } else {
            self.device_memblock_size
        };
        let factor: u64 = if count == 0 {
            1
        } else if count == 1 {
            2
        } else if count == 2 {
            4
        } else if count == 3 {
            8
        } else if count == 4 {
            16
        } else if count == 5 {
            32
        } else {
            64
        };
        let grown: u64 = base * factor;
        if grown > MAX_MEMBLOCK_SIZE {
            MAX_MEMBLOCK_SIZE
        } else {
            grown
        }
    }
}

/// Doubling factor applied to a base block size, saturating at 64.
pub open spec fn growth_factor(count: usize) -> int {
    if count == 0 {
        1
    } else if count == 1 {
        2
    } else if count == 2 {
        4
    } else if count == 3 {
        8
    } else if count == 4 {
        16
    } else if count == 5 {
        32
    } else {
        64
    }
}

/// Value of a base block size after construction clamps it.
pub open spec fn clamp_memblock(v: u64) -> u64 {
    if v < MIN_MEMBLOCK_SIZE {
        MIN_MEMBLOCK_SIZE
    } else if v > MAX_MEMBLOCK_SIZE {
        MAX_MEMBLOCK_SIZE
    } else {
        v
    }
}

fn clamp_memblock_exec(v: u64) -> (r: u64)
    ensures
        r == clamp_memblock(v),
{
    if v < MIN_MEMBLOCK_SIZE {
        MIN_MEMBLOCK_SIZE
    } else if v > MAX_MEMBLOCK_SIZE {
        MAX_MEMBLOCK_SIZE
    } else {
        v
    }
}

impl Default for AllocationSizes {
    /// 256 MiB device blocks and 64 MiB host blocks.
    fn default() -> (r: Self)
        ensures
            r.wf(),
            r.spec_device_memblock_size() == 268435456u64,
            r.spec_host_memblock_size() == 67108864u64,
    {
        AllocationSizes { device_memblock_size: 268435456, host_memblock_size: 67108864 }
    }
}

/// Switches for the diagnostics an embedding layer may emit; the verified
/// core only stores them.
#[derive(Clone, Copy, Debug)]
pub struct AllocatorDebugSettings {
    pub log_memory_information: bool,
    pub log_leaks_on_shutdown: bool,
    pub store_stack_traces: bool,
    pub log_allocations: bool,
    pub log_frees: bool,
    pub log_stack_traces: bool,
}

impl Default for AllocatorDebugSettings {
    fn default() -> (r: Self)
        ensures
            !r.store_stack_traces,
    {
        AllocatorDebugSettings {
            log_memory_information: false,
            log_leaks_on_shutdown: true,
            store_stack_traces: false,
            log_allocations: false,
            log_frees: false,
            log_stack_traces: false,
        }
    }
}

} // verus!
