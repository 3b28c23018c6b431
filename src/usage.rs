use vstd::prelude::*;

verus! {

/// Memory property flags of a memory type, as bits.
#[derive(Clone, Copy, Debug, PartialEq, Eq, Structural)]
pub struct Properties {
    pub bits: u32,
}

/// Memory local to the device: fastest for device access.
pub const DEVICE_LOCAL: u32 = 1;

/// Memory that the host can map.
pub const HOST_VISIBLE: u32 = 2;

/// Host writes become visible to the device without explicit flushes.
pub const HOST_COHERENT: u32 = 4;

/// Memory cached on the host.
pub const HOST_CACHED: u32 = 8;

/// Memory that may be committed lazily by the device.
pub const LAZILY_ALLOCATED: u32 = 16;

impl Properties {
    pub open spec fn has(self, flag: u32) -> bool {
        self.bits & flag == flag
    }

    pub fn empty() -> (r: Properties)
        ensures
            r.bits == 0,
    {
        Properties { bits: 0 }
    }

    pub fn from_bits(bits: u32) -> (r: Properties)
        ensures
            r.bits == bits,
    {
        Properties { bits }
    }

    /// Whether every flag of `other` is set in `self`.
    pub fn contains(&self, other: Properties) -> (r: bool)
        ensures
            r == self.has(other.bits),
    {
        self.bits & other.bits == other.bits
    }
}

/// The intended use of a memory block, which decides both the preferred memory
/// type and the sub-allocator that serves it.
#[derive(Clone, Copy, Debug, PartialEq, Eq, Structural)]
pub enum UsageValue {
    /// Device-only data, written rarely.
    Data,
    /// Data updated frequently by the host and read by the device.
    Dynamic,
    /// Staging memory for host-to-device transfers.
    Upload,
    /// Staging memory for device-to-host transfers.
    Download,
}

pub open spec fn bit(c: bool, weight: u32) -> u32 {
    if c {
        weight
    } else {
        0
    }
}

/// Fitness of a memory type with `p` for `usage`: `None` where the type cannot
/// serve it at all, else a score where more is better.
pub open spec fn fitness_spec(usage: UsageValue, p: Properties) -> Option<u32> {
    match usage {
        UsageValue::Data => if !p.has(DEVICE_LOCAL) {
            None
        } else {
            Some(
                (bit(!p.has(HOST_VISIBLE), 8) + bit(!p.has(LAZILY_ALLOCATED), 4) + bit(
                    !p.has(HOST_CACHED),
                    2,
                ) + bit(!p.has(HOST_COHERENT), 1)) as u32,
            )
        },
        UsageValue::Dynamic => if !p.has(HOST_VISIBLE) || p.has(LAZILY_ALLOCATED) {
            None
        } else {
            Some(
                (bit(p.has(DEVICE_LOCAL), 4) + bit(p.has(HOST_COHERENT), 2) + bit(
                    !p.has(HOST_CACHED),
                    1,
                )) as u32,
            )
        },
        UsageValue::Upload => if !p.has(HOST_VISIBLE) || p.has(LAZILY_ALLOCATED) {
            None
        } else {
            Some(
                (bit(!p.has(DEVICE_LOCAL), 4) + bit(p.has(HOST_COHERENT), 2) + bit(
                    !p.has(HOST_CACHED),
                    1,
                )) as u32,
            )
        },
        UsageValue::Download => if !p.has(HOST_VISIBLE) || p.has(LAZILY_ALLOCATED) {
            None
        } else {
            Some(
                (bit(!p.has(DEVICE_LOCAL), 4) + bit(p.has(HOST_CACHED), 2) + bit(
                    !p.has(HOST_COHERENT),
                    1,
                )) as u32,
            )
        },
    }
}

fn weight(c: bool, w: u32) -> (r: u32)
    ensures
        r == bit(c, w),
{
    if c {
        w
    } else {
        0
    }
}

impl UsageValue {
    /// How well a memory type with `properties` suits this usage.
    pub fn memory_fitness(self, properties: Properties) -> (r: Option<u32>)
        ensures
            r == fitness_spec(self, properties),
    {
        let device_local = properties.contains(Properties::from_bits(DEVICE_LOCAL));
        let host_visible = properties.contains(Properties::from_bits(HOST_VISIBLE));
        let coherent = properties.contains(Properties::from_bits(HOST_COHERENT));
        let cached = properties.contains(Properties::from_bits(HOST_CACHED));
        let lazy = properties.contains(Properties::from_bits(LAZILY_ALLOCATED));
        match self {
            UsageValue::Data => {
                if !device_local {
                    None
                } else {
                    Some(
                        weight(!host_visible, 8) + weight(!lazy, 4) + weight(!cached, 2) + weight(
                            !coherent,
                            1,
                        ),
                    )
                }
            },
            UsageValue::Dynamic => {
                if !host_visible || lazy {
                    None
                } else {
                    Some(weight(device_local, 4) + weight(coherent, 2) + weight(!cached, 1))
                }
            },
            UsageValue::Upload => {
                if !host_visible || lazy {
                    None
                } else {
                    Some(weight(!device_local, 4) + weight(coherent, 2) + weight(!cached, 1))
                }
            },
            UsageValue::Download => {
                if !host_visible || lazy {
                    None
                } else {
                    Some(weight(!device_local, 4) + weight(cached, 2) + weight(!coherent, 1))
                }
            },
        }
    }
}

} // verus!
