use vstd::prelude::*;

verus! {

/// Layer description
#[derive(Clone, Debug)]
pub struct Layer<'a> {
    pub name: &'a str,
    pub spec_version: u32,
    pub implementation_version: u32,
    pub description: &'a str,
}

/// Extension description
#[derive(Clone, Debug)]
pub struct Extension<'a> {
    pub name: &'a str,
    pub spec_version: u32,
}

/// Properties of the command queue family.
#[derive(Clone, Copy, Debug, PartialEq, Eq, Structural)]
pub struct QueueFamilyProperties {
    pub index: u32,
    /// Queue capability flags, as bits.
    pub capability: u32,
    pub queue_count: u32,
}

/// Config for vulkan instance.
#[derive(Clone, Debug)]
pub struct InstanceConfig {
    pub app_name: String,
    pub app_version: u32,
    pub layers: Vec<String>,
    pub extensions: Vec<String>,
}

/// Request for creating command queues.
#[derive(Clone, Copy, Debug, PartialEq, Eq, Structural)]
pub struct CreateQueueFamily {
    pub family: u32,
    pub count: u32,
}

/// Loads Vulkan and builds factory step by step.
#[derive(Clone, Copy, Debug, PartialEq, Eq, Structural)]
pub struct FactoryBuilder;

impl FactoryBuilder {
    pub fn new() -> (r: FactoryBuilder) {
        FactoryBuilder
    }
}

} // verus!
