//! Memory allocation and deferred resource reclamation for a graphics device.
//!
//! Memory is handed out by `Heaps`, which picks a memory type for each request
//! and one of three sub-allocators inside it. Resources released by their owner
//! wait in a graveyard until the device has finished every submission that
//! could still use them.
pub mod arena;
pub mod block;
mod candidates;
pub mod dedicated;
pub mod device;
pub mod dynamic;
pub mod errors;
pub mod factory;
pub mod fence;
pub mod heaps;
pub mod image;
pub mod tracker;
pub mod usage;
pub mod util;

pub use arena::ArenaConfig;
pub use block::{Flavor, MappedRange, MemoryBlock};
pub use device::{FenceStatus, RawDevice, WaitStatus};
pub use dynamic::DynamicConfig;
pub use errors::{
    CreateSwapchainError, DeviceError, DeviceLost, DeviceLostOrOomError, InstanceError,
    MappingError, MemoryError, OomError, SurfaceError, SurfaceLost,
};
pub use factory::{CreateQueueFamily, Extension, FactoryBuilder, InstanceConfig, Layer, QueueFamilyProperties};
pub use fence::{
    get_fence_status, wait_for_all_fences, wait_for_any_fence, ArmedFence, QueueId, ReadyFence,
    UnarmedFence, WaitFor,
};
pub use heaps::{Config, Heaps};
pub use image::{Extent3D, Image, ImageType, Kind};
pub use tracker::{Device, DeviceTracker, GraveyardBatch, TrackerError};
pub use usage::{Properties, UsageValue};
