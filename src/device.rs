use vstd::prelude::*;

use crate::errors::{MappingError, OomError};

verus! {

/// What a device reports after waiting on a set of fences.
#[derive(Clone, Copy, Debug, PartialEq, Eq, Structural)]
pub enum WaitStatus {
    /// The wait condition was met.
    Success,
    /// The timeout expired first.
    Timeout,
    OutOfHostMemory,
    OutOfDeviceMemory,
    DeviceLost,
}

/// What a device reports when polled for the state of one fence.
#[derive(Clone, Copy, Debug, PartialEq, Eq, Structural)]
pub enum FenceStatus {
    /// The fence is signalled.
    Ready,
    /// The fence is not signalled yet.
    NotReady,
    DeviceLost,
}

/// The device functions that this library consumes.
///
/// Memory objects and fences are identified by their raw handles. The
/// library makes no assumption about what an implementation returns: every
/// outcome is handled.
pub trait RawDevice {
    /// Allocate a memory object of `size` bytes from memory type `type_index`.
    fn allocate_memory(&self, type_index: u32, size: u64) -> Result<u64, OomError>;

    /// Release a memory object.
    fn free_memory(&self, memory: u64);

    /// Map `size` bytes of `memory` from `offset` into host address space,
    /// returning the host address of the first byte. One memory object may be
    /// asked to map several disjoint ranges at once.
    fn map_memory(&self, memory: u64, offset: u64, size: u64) -> Result<u64, MappingError>;

    /// Undo the mapping of `size` bytes of `memory` from `offset`.
    fn unmap_memory(&self, memory: u64, offset: u64, size: u64);

    /// Wait until all (`wait_all`) or any of `fences` are signalled, or
    /// `timeout` nanoseconds pass.
    fn wait_for_fences(&self, fences: &Vec<u64>, wait_all: bool, timeout: u64) -> WaitStatus;

    /// Poll the state of one fence without blocking.
    fn get_fence_status(&self, fence: u64) -> FenceStatus;
}

} // verus!
