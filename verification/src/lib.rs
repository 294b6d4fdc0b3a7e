//! A verified core of a Direct3D 12 style GPU memory sub-allocator.
//!
//! The host graphics API hands out coarse heaps; this crate pools such heaps
//! per (residency, category) memory type and sub-allocates aligned ranges out
//! of them.  The device itself is represented by the plain data the pooling
//! logic reads (version tier, resource heap tier, memory budget); the actual
//! API calls live outside the verified core and are driven by the tokens and
//! decisions this crate returns.

pub mod allocator;
pub mod block;
pub mod config;
pub mod dedicated;
pub mod device;
pub mod free_list;
pub mod memory_type;
pub mod report;
pub mod resource;
pub mod result;
pub mod sub_allocator;
pub mod sums;
pub mod types;
