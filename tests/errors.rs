use rendy_memory::errors::{
    ERROR_DEVICE_LOST, ERROR_EXTENSION_NOT_PRESENT, ERROR_FEATURE_NOT_PRESENT,
    ERROR_INCOMPATIBLE_DRIVER, ERROR_INITIALIZATION_FAILED, ERROR_LAYER_NOT_PRESENT,
    ERROR_NATIVE_WINDOW_IN_USE_KHR, ERROR_OUT_OF_DEVICE_MEMORY, ERROR_OUT_OF_HOST_MEMORY,
    ERROR_SURFACE_LOST_KHR, ERROR_TOO_MANY_OBJECTS,
};
use rendy_memory::{
    CreateSwapchainError, DeviceError, DeviceLost, DeviceLostOrOomError, Extent3D, FactoryBuilder,
    ImageType, InstanceError, Kind, MemoryError, OomError, SurfaceError, SurfaceLost,
};

#[test]
fn oom_from_result_codes() {
    assert_eq!(OomError::from_vk_result(ERROR_OUT_OF_HOST_MEMORY), OomError::OutOfHostMemory);
    assert_eq!(OomError::from_vk_result(ERROR_OUT_OF_DEVICE_MEMORY), OomError::OutOfDeviceMemory);
    assert_eq!(DeviceLost::from_vk_result(ERROR_DEVICE_LOST), DeviceLost);
    assert_eq!(SurfaceLost::from_vk_result(ERROR_SURFACE_LOST_KHR), SurfaceLost);
    assert_eq!(DeviceLost.message(), "Device lost");
    assert_eq!(SurfaceLost.message(), "Surface lost");
}

#[test]
fn device_lost_or_oom_from_result_codes() {
    assert_eq!(
        DeviceLostOrOomError::from_vk_result(ERROR_OUT_OF_HOST_MEMORY),
        DeviceLostOrOomError::OomError(OomError::OutOfHostMemory)
    );
    assert_eq!(
        DeviceLostOrOomError::from_vk_result(ERROR_OUT_OF_DEVICE_MEMORY),
        DeviceLostOrOomError::OomError(OomError::OutOfDeviceMemory)
    );
    assert_eq!(DeviceLostOrOomError::from_vk_result(ERROR_DEVICE_LOST), DeviceLostOrOomError::DeviceLost(DeviceLost));
}

#[test]
fn instance_error_from_result_codes() {
    assert_eq!(InstanceError::from_vk_result(ERROR_OUT_OF_HOST_MEMORY), InstanceError::OomError(OomError::OutOfHostMemory));
    assert_eq!(InstanceError::from_vk_result(ERROR_OUT_OF_DEVICE_MEMORY), InstanceError::OomError(OomError::OutOfDeviceMemory));
    assert_eq!(InstanceError::from_vk_result(ERROR_INITIALIZATION_FAILED), InstanceError::InitializationFailed);
    assert_eq!(InstanceError::from_vk_result(ERROR_LAYER_NOT_PRESENT), InstanceError::LayerNotPresent);
    assert_eq!(InstanceError::from_vk_result(ERROR_EXTENSION_NOT_PRESENT), InstanceError::ExtensionNotPresent);
    assert_eq!(InstanceError::from_vk_result(ERROR_INCOMPATIBLE_DRIVER), InstanceError::IncompatibleDriver);
}

#[test]
fn device_error_from_result_codes() {
    assert_eq!(DeviceError::from_vk_result(ERROR_OUT_OF_HOST_MEMORY), DeviceError::OomError(OomError::OutOfHostMemory));
    assert_eq!(DeviceError::from_vk_result(ERROR_OUT_OF_DEVICE_MEMORY), DeviceError::OomError(OomError::OutOfDeviceMemory));
    assert_eq!(DeviceError::from_vk_result(ERROR_DEVICE_LOST), DeviceError::DeviceLost(DeviceLost));
    assert_eq!(DeviceError::from_vk_result(ERROR_INITIALIZATION_FAILED), DeviceError::InitializationFailed);
    assert_eq!(DeviceError::from_vk_result(ERROR_EXTENSION_NOT_PRESENT), DeviceError::ExtensionNotPresent);
    assert_eq!(DeviceError::from_vk_result(ERROR_FEATURE_NOT_PRESENT), DeviceError::FeatureNotPresent);
    assert_eq!(DeviceError::from_vk_result(ERROR_TOO_MANY_OBJECTS), DeviceError::TooManyObjects);
}

#[test]
fn surface_and_swapchain_errors_from_result_codes() {
    assert_eq!(SurfaceError::from_vk_result(ERROR_OUT_OF_HOST_MEMORY), SurfaceError::OomError(OomError::OutOfHostMemory));
    assert_eq!(SurfaceError::from_vk_result(ERROR_DEVICE_LOST), SurfaceError::DeviceLost(DeviceLost));
    assert_eq!(SurfaceError::from_vk_result(ERROR_SURFACE_LOST_KHR), SurfaceError::SurfaceLost(SurfaceLost));
    assert_eq!(SurfaceError::from_vk_result(ERROR_NATIVE_WINDOW_IN_USE_KHR), SurfaceError::WindowInUse);
    assert_eq!(CreateSwapchainError::from_vk_result(ERROR_OUT_OF_DEVICE_MEMORY), CreateSwapchainError::OomError(OomError::OutOfDeviceMemory));
    assert_eq!(CreateSwapchainError::from_vk_result(ERROR_DEVICE_LOST), CreateSwapchainError::DeviceLost(DeviceLost));
    assert_eq!(CreateSwapchainError::from_vk_result(ERROR_SURFACE_LOST_KHR), CreateSwapchainError::SurfaceLost);
    assert_eq!(CreateSwapchainError::from_vk_result(ERROR_NATIVE_WINDOW_IN_USE_KHR), CreateSwapchainError::WindowInUse);
}

#[test]
fn memory_error_from_oom() {
    assert_eq!(MemoryError::from_oom(OomError::OutOfHostMemory), MemoryError::OutOfHostMemory);
    assert_eq!(MemoryError::from_oom(OomError::OutOfDeviceMemory), MemoryError::OutOfDeviceMemory);
}

#[test]
fn image_kind_extent_and_type() {
    assert_eq!(Kind::D1(64).extent(), Extent3D { width: 64, height: 1, depth: 1 });
    assert_eq!(Kind::D2 { width: 8, height: 4 }.extent(), Extent3D { width: 8, height: 4, depth: 1 });
    assert_eq!(Kind::D3 { width: 2, height: 3, depth: 5 }.extent(), Extent3D { width: 2, height: 3, depth: 5 });
    assert_eq!(Kind::D1(1).image_type(), ImageType::Type1d);
    assert_eq!(Kind::D2 { width: 1, height: 1 }.image_type(), ImageType::Type2d);
    assert_eq!(Kind::D3 { width: 1, height: 1, depth: 1 }.image_type(), ImageType::Type3d);
}

#[test]
fn factory_builder_starts_the_chain() {
    assert_eq!(FactoryBuilder::new(), FactoryBuilder);
}
