use vstd::prelude::*;

verus! {

/// Vulkan result code: success.
pub const SUCCESS: i32 = 0;

/// Vulkan result code: a fence or query has not completed yet.
pub const NOT_READY: i32 = 1;

/// Vulkan result code: a wait did not complete in the time allowed.
pub const TIMEOUT: i32 = 2;

/// Vulkan result code: a host memory allocation failed.
pub const ERROR_OUT_OF_HOST_MEMORY: i32 = -1;

/// Vulkan result code: a device memory allocation failed.
pub const ERROR_OUT_OF_DEVICE_MEMORY: i32 = -2;

/// Vulkan result code: initialization of an object could not be completed.
pub const ERROR_INITIALIZATION_FAILED: i32 = -3;

/// Vulkan result code: the logical or physical device has been lost.
pub const ERROR_DEVICE_LOST: i32 = -4;

/// Vulkan result code: mapping of a memory object failed.
pub const ERROR_MEMORY_MAP_FAILED: i32 = -5;

/// Vulkan result code: a requested layer is not present.
pub const ERROR_LAYER_NOT_PRESENT: i32 = -6;

/// Vulkan result code: a requested extension is not supported.
pub const ERROR_EXTENSION_NOT_PRESENT: i32 = -7;

/// Vulkan result code: a requested feature is not supported.
pub const ERROR_FEATURE_NOT_PRESENT: i32 = -8;

/// Vulkan result code: the driver is incompatible.
pub const ERROR_INCOMPATIBLE_DRIVER: i32 = -9;

/// Vulkan result code: too many objects of the type have been created.
pub const ERROR_TOO_MANY_OBJECTS: i32 = -10;

/// Vulkan result code: a surface is no longer available.
pub const ERROR_SURFACE_LOST_KHR: i32 = -1000000000;

/// Vulkan result code: the window is already in use by another swapchain.
pub const ERROR_NATIVE_WINDOW_IN_USE_KHR: i32 = -1000000001;

/// The device was lost. Fatal: nothing further can be done with the device.
#[derive(Clone, Copy, Debug, PartialEq, Eq, Structural)]
pub struct DeviceLost;

impl DeviceLost {
    pub fn from_vk_result(code: i32) -> (r: DeviceLost)
        requires
            code == ERROR_DEVICE_LOST,
    {
        DeviceLost
    }

    pub fn message(&self) -> (r: String) {
        String::from_str("Device lost")
    }
}

/// The surface was lost.
#[derive(Clone, Copy, Debug, PartialEq, Eq, Structural)]
pub struct SurfaceLost;

impl SurfaceLost {
    pub fn from_vk_result(code: i32) -> (r: SurfaceLost)
        requires
            code == ERROR_SURFACE_LOST_KHR,
    {
        SurfaceLost
    }

    pub fn message(&self) -> (r: String) {
        String::from_str("Surface lost")
    }
}

/// Out of memory error.
#[derive(Clone, Copy, Debug, PartialEq, Eq, Structural)]
pub enum OomError {
    /// Host memory exhausted.
    OutOfHostMemory,
    /// Device memory exhausted.
    OutOfDeviceMemory,
}

impl OomError {
    pub fn from_vk_result(code: i32) -> (r: OomError)
        requires
            code == ERROR_OUT_OF_HOST_MEMORY || code == ERROR_OUT_OF_DEVICE_MEMORY,
        ensures
            code == ERROR_OUT_OF_HOST_MEMORY ==> r == OomError::OutOfHostMemory,
            code == ERROR_OUT_OF_DEVICE_MEMORY ==> r == OomError::OutOfDeviceMemory,
    {
        if code == ERROR_OUT_OF_HOST_MEMORY {
            OomError::OutOfHostMemory
        } else {
            OomError::OutOfDeviceMemory
        }
    }
}

/// Either the device was lost or memory ran out.
#[derive(Clone, Copy, Debug, PartialEq, Eq, Structural)]
pub enum DeviceLostOrOomError {
    OomError(OomError),
    DeviceLost(DeviceLost),
}

impl DeviceLostOrOomError {
    pub fn from_vk_result(code: i32) -> (r: DeviceLostOrOomError)
        requires
            code == ERROR_OUT_OF_HOST_MEMORY || code == ERROR_OUT_OF_DEVICE_MEMORY || code
                == ERROR_DEVICE_LOST,
        ensures
            code == ERROR_OUT_OF_HOST_MEMORY ==> r == DeviceLostOrOomError::OomError(
                OomError::OutOfHostMemory,
            ),
            code == ERROR_OUT_OF_DEVICE_MEMORY ==> r == DeviceLostOrOomError::OomError(
                OomError::OutOfDeviceMemory,
            ),
            code == ERROR_DEVICE_LOST ==> r == DeviceLostOrOomError::DeviceLost(DeviceLost),
    {
        if code == ERROR_DEVICE_LOST {
            DeviceLostOrOomError::DeviceLost(DeviceLost)
        } else {
            DeviceLostOrOomError::OomError(OomError::from_vk_result(code))
        }
    }
}

/// Possible errors returned by `Instance` and `PhysicalDevice`.
#[derive(Clone, Debug, PartialEq, Eq)]
pub enum InstanceError {
    LibraryLoadError(String),
    LoadError(Vec<&'static str>),
    OomError(OomError),
    InitializationFailed,
    LayerNotPresent,
    ExtensionNotPresent,
    IncompatibleDriver,
}

pub open spec fn is_instance_error_code(code: i32) -> bool {
    code == ERROR_OUT_OF_HOST_MEMORY || code == ERROR_OUT_OF_DEVICE_MEMORY || code
        == ERROR_INITIALIZATION_FAILED || code == ERROR_LAYER_NOT_PRESENT || code
        == ERROR_EXTENSION_NOT_PRESENT || code == ERROR_INCOMPATIBLE_DRIVER
}

impl InstanceError {
    pub fn from_vk_result(code: i32) -> (r: InstanceError)
        requires
            is_instance_error_code(code),
        ensures
            code == ERROR_OUT_OF_HOST_MEMORY ==> r == InstanceError::OomError(
                OomError::OutOfHostMemory,
            ),
            code == ERROR_OUT_OF_DEVICE_MEMORY ==> r == InstanceError::OomError(
                OomError::OutOfDeviceMemory,
            ),
            code == ERROR_INITIALIZATION_FAILED ==> r == InstanceError::InitializationFailed,
            code == ERROR_LAYER_NOT_PRESENT ==> r == InstanceError::LayerNotPresent,
            code == ERROR_EXTENSION_NOT_PRESENT ==> r == InstanceError::ExtensionNotPresent,
            code == ERROR_INCOMPATIBLE_DRIVER ==> r == InstanceError::IncompatibleDriver,
    {
        if code == ERROR_INITIALIZATION_FAILED {
            InstanceError::InitializationFailed
        } else if code == ERROR_LAYER_NOT_PRESENT {
            InstanceError::LayerNotPresent
        } else if code == ERROR_EXTENSION_NOT_PRESENT {
            InstanceError::ExtensionNotPresent
        } else if code == ERROR_INCOMPATIBLE_DRIVER {
            InstanceError::IncompatibleDriver
        } else {
            InstanceError::OomError(OomError::from_vk_result(code))
        }
    }
}

/// Possible errors returned by `Device`.
#[derive(Clone, Debug, PartialEq, Eq)]
pub enum DeviceError {
    LoadError(Vec<&'static str>),
    OomError(OomError),
    DeviceLost(DeviceLost),
    InitializationFailed,
    ExtensionNotPresent,
    FeatureNotPresent,
    TooManyObjects,
}

pub open spec fn is_device_error_code(code: i32) -> bool {
    code == ERROR_OUT_OF_HOST_MEMORY || code == ERROR_OUT_OF_DEVICE_MEMORY || code
        == ERROR_DEVICE_LOST || code == ERROR_INITIALIZATION_FAILED || code
        == ERROR_EXTENSION_NOT_PRESENT || code == ERROR_FEATURE_NOT_PRESENT || code
        == ERROR_TOO_MANY_OBJECTS
}

impl DeviceError {
    pub fn from_vk_result(code: i32) -> (r: DeviceError)
        requires
            is_device_error_code(code),
        ensures
            code == ERROR_OUT_OF_HOST_MEMORY ==> r == DeviceError::OomError(
                OomError::OutOfHostMemory,
            ),
            code == ERROR_OUT_OF_DEVICE_MEMORY ==> r == DeviceError::OomError(
                OomError::OutOfDeviceMemory,
            ),
            code == ERROR_DEVICE_LOST ==> r == DeviceError::DeviceLost(DeviceLost),
            code == ERROR_INITIALIZATION_FAILED ==> r == DeviceError::InitializationFailed,
            code == ERROR_EXTENSION_NOT_PRESENT ==> r == DeviceError::ExtensionNotPresent,
            code == ERROR_FEATURE_NOT_PRESENT ==> r == DeviceError::FeatureNotPresent,
            code == ERROR_TOO_MANY_OBJECTS ==> r == DeviceError::TooManyObjects,
    {
        if code == ERROR_DEVICE_LOST {
            DeviceError::DeviceLost(DeviceLost)
        } else if code == ERROR_INITIALIZATION_FAILED {
            DeviceError::InitializationFailed
        } else if code == ERROR_EXTENSION_NOT_PRESENT {
            DeviceError::ExtensionNotPresent
        } else if code == ERROR_FEATURE_NOT_PRESENT {
            DeviceError::FeatureNotPresent
        } else if code == ERROR_TOO_MANY_OBJECTS {
            DeviceError::TooManyObjects
        } else {
            DeviceError::OomError(OomError::from_vk_result(code))
        }
    }
}

/// Possible errors of surface queries.
#[derive(Clone, Copy, Debug, PartialEq, Eq, Structural)]
pub enum SurfaceError {
    OomError(OomError),
    DeviceLost(DeviceLost),
    SurfaceLost(SurfaceLost),
    WindowInUse,
}

pub open spec fn is_surface_error_code(code: i32) -> bool {
    code == ERROR_OUT_OF_HOST_MEMORY || code == ERROR_OUT_OF_DEVICE_MEMORY || code
        == ERROR_DEVICE_LOST || code == ERROR_SURFACE_LOST_KHR || code
        == ERROR_NATIVE_WINDOW_IN_USE_KHR
}

impl SurfaceError {
    pub fn from_vk_result(code: i32) -> (r: SurfaceError)
        requires
            is_surface_error_code(code),
        ensures
            code == ERROR_OUT_OF_HOST_MEMORY ==> r == SurfaceError::OomError(
                OomError::OutOfHostMemory,
            ),
            code == ERROR_OUT_OF_DEVICE_MEMORY ==> r == SurfaceError::OomError(
                OomError::OutOfDeviceMemory,
            ),
            code == ERROR_DEVICE_LOST ==> r == SurfaceError::DeviceLost(DeviceLost),
            code == ERROR_SURFACE_LOST_KHR ==> r == SurfaceError::SurfaceLost(SurfaceLost),
            code == ERROR_NATIVE_WINDOW_IN_USE_KHR ==> r == SurfaceError::WindowInUse,
    {
        if code == ERROR_DEVICE_LOST {
            SurfaceError::DeviceLost(DeviceLost)
        } else if code == ERROR_SURFACE_LOST_KHR {
            SurfaceError::SurfaceLost(SurfaceLost)
        } else if code == ERROR_NATIVE_WINDOW_IN_USE_KHR {
            SurfaceError::WindowInUse
        } else {
            SurfaceError::OomError(OomError::from_vk_result(code))
        }
    }
}

/// Possible errors of swapchain creation.
#[derive(Clone, Copy, Debug, PartialEq, Eq, Structural)]
pub enum CreateSwapchainError {
    OomError(OomError),
    DeviceLost(DeviceLost),
    SurfaceLost,
    WindowInUse,
}

impl CreateSwapchainError {
    pub fn from_vk_result(code: i32) -> (r: CreateSwapchainError)
        requires
            is_surface_error_code(code),
        ensures
            code == ERROR_OUT_OF_HOST_MEMORY ==> r == CreateSwapchainError::OomError(
                OomError::OutOfHostMemory,
            ),
            code == ERROR_OUT_OF_DEVICE_MEMORY ==> r == CreateSwapchainError::OomError(
                OomError::OutOfDeviceMemory,
            ),
            code == ERROR_DEVICE_LOST ==> r == CreateSwapchainError::DeviceLost(DeviceLost),
            code == ERROR_SURFACE_LOST_KHR ==> r == CreateSwapchainError::SurfaceLost,
            code == ERROR_NATIVE_WINDOW_IN_USE_KHR ==> r == CreateSwapchainError::WindowInUse,
    {
        if code == ERROR_DEVICE_LOST {
            CreateSwapchainError::DeviceLost(DeviceLost)
        } else if code == ERROR_SURFACE_LOST_KHR {
            CreateSwapchainError::SurfaceLost
        } else if code == ERROR_NATIVE_WINDOW_IN_USE_KHR {
            CreateSwapchainError::WindowInUse
        } else {
            CreateSwapchainError::OomError(OomError::from_vk_result(code))
        }
    }
}

/// Errors of memory allocation.
#[derive(Clone, Copy, Debug, PartialEq, Eq, Structural)]
pub enum MemoryError {
    /// No memory type in the mask has a defined fitness for the usage.
    NoSuitableMemory(u32, crate::usage::UsageValue),
    /// Suitable memory types exist, but none of their heaps has room.
    HeapsExhausted,
    /// The device ran out of host memory.
    OutOfHostMemory,
    /// The device ran out of device memory.
    OutOfDeviceMemory,
}

impl MemoryError {
    pub fn from_oom(e: OomError) -> (r: MemoryError)
        ensures
            e == OomError::OutOfHostMemory ==> r == MemoryError::OutOfHostMemory,
            e == OomError::OutOfDeviceMemory ==> r == MemoryError::OutOfDeviceMemory,
    {
        match e {
            OomError::OutOfHostMemory => MemoryError::OutOfHostMemory,
            OomError::OutOfDeviceMemory => MemoryError::OutOfDeviceMemory,
        }
    }
}

/// The device ran out of memory.
pub open spec fn is_oom(e: MemoryError) -> bool {
    e == MemoryError::OutOfHostMemory || e == MemoryError::OutOfDeviceMemory
}

/// Errors of mapping a memory block.
#[derive(Clone, Copy, Debug, PartialEq, Eq, Structural)]
pub enum MappingError {
    /// The requested range does not lie within the block.
    OutOfBounds,
    /// The block already has an active mapping.
    AlreadyMapped,
    /// The device refused to map the memory.
    MappingFailed,
}

} // verus!
