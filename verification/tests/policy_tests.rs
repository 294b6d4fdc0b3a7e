use gpu_allocator::config::AllocationSizes;
use gpu_allocator::config::MAX_MEMBLOCK_SIZE;
use gpu_allocator::config::MIN_MEMBLOCK_SIZE;

#[test]
fn base_sizes_are_clamped_into_the_fixed_bounds() {
    let sizes = AllocationSizes::new(0, u64::MAX);
    assert_eq!(sizes.get_memblock_size(false, 0), MIN_MEMBLOCK_SIZE);
    assert_eq!(sizes.get_memblock_size(true, 0), MAX_MEMBLOCK_SIZE);
}

#[test]
fn block_sizes_double_per_active_general_block_and_cap() {
    let sizes = AllocationSizes::new(8 * 1024 * 1024, 4 * 1024 * 1024);
    assert_eq!(sizes.get_memblock_size(false, 0), 8 * 1024 * 1024);
    assert_eq!(sizes.get_memblock_size(false, 1), 16 * 1024 * 1024);
    assert_eq!(sizes.get_memblock_size(false, 2), 32 * 1024 * 1024);
    assert_eq!(sizes.get_memblock_size(false, 5), 256 * 1024 * 1024);
    // capped at the largest block size from then on
    assert_eq!(sizes.get_memblock_size(false, 6), MAX_MEMBLOCK_SIZE);
    assert_eq!(sizes.get_memblock_size(false, 100), MAX_MEMBLOCK_SIZE);
    assert_eq!(sizes.get_memblock_size(true, 0), 4 * 1024 * 1024);
}

#[test]
fn default_sizes_match_the_documented_bases() {
    let sizes = AllocationSizes::default();
    assert_eq!(sizes.get_memblock_size(false, 0), 256 * 1024 * 1024);
    assert_eq!(sizes.get_memblock_size(true, 0), 64 * 1024 * 1024);
}
