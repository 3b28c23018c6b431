use std::ops::Range;

use vstd::prelude::*;

use crate::device::RawDevice;
use crate::errors::MappingError;
use crate::usage::Properties;

verus! {

/// A host mapping of part of a memory object.
#[derive(Debug)]
pub struct MappedRange {
    /// The memory object mapped.
    pub memory: u64,
    /// Offsets of the mapped bytes within the memory object.
    pub range: Range<u64>,
    /// Host address of the first mapped byte.
    pub ptr: u64,
}

/// What a block holds, as plain values.
pub struct RegionView {
    pub memory: u64,
    pub start: u64,
    pub end: u64,
    pub reserved: u64,
    pub properties: Properties,
    pub mapping: Option<(u64, u64)>,
}

/// The bytes `start..end` of memory object `memory`, which take `reserved`
/// bytes of it counting alignment padding, with at most one active host
/// mapping.
#[derive(Debug)]
pub struct Region {
    memory: u64,
    start: u64,
    end: u64,
    reserved: u64,
    properties: Properties,
    mapping: Option<(u64, u64)>,
}

impl View for Region {
    type V = RegionView;

    closed spec fn view(&self) -> RegionView {
        RegionView {
            memory: self.memory,
            start: self.start,
            end: self.end,
            reserved: self.reserved,
            properties: self.properties,
            mapping: self.mapping,
        }
    }
}

/// Whether `start..end` lies within the bytes of `r`.
pub open spec fn within(r: RegionView, start: u64, end: u64) -> bool {
    r.start <= start && start <= end && end <= r.end
}

impl Region {
    pub(crate) fn new(memory: u64, start: u64, end: u64, reserved: u64, properties: Properties) -> (r:
        Region)
        ensures
            r@ == (RegionView { memory, start, end, reserved, properties, mapping: None }),
    {
        Region { memory, start, end, reserved, properties, mapping: None }
    }

    pub fn properties(&self) -> (r: Properties)
        ensures
            r == self@.properties,
    {
        self.properties
    }

    pub fn memory(&self) -> (r: u64)
        ensures
            r == self@.memory,
    {
        self.memory
    }

    pub fn range(&self) -> (r: Range<u64>)
        ensures
            r.start == self@.start,
            r.end == self@.end,
    {
        Range { start: self.start, end: self.end }
    }

    pub fn reserved(&self) -> (r: u64)
        ensures
            r == self@.reserved,
    {
        self.reserved
    }

    pub fn is_mapped(&self) -> (r: bool)
        ensures
            r == self@.mapping.is_some(),
    {
        self.mapping.is_some()
    }

    /// Map `range`, given as offsets in the memory object, into host memory.
    /// Fails where `range` leaves the region or the region is mapped already.
    pub fn map<D: RawDevice>(&mut self, device: &D, range: Range<u64>) -> (r: Result<
        MappedRange,
        MappingError,
    >)
        ensures
            !within(old(self)@, range.start, range.end) ==> r == Err::<MappedRange, MappingError>(
                MappingError::OutOfBounds,
            ),
            within(old(self)@, range.start, range.end) && old(self)@.mapping.is_some() ==> r == Err::<
                MappedRange,
                MappingError,
            >(MappingError::AlreadyMapped),
            r.is_err() ==> final(self)@ == old(self)@,
            r is Err && within(old(self)@, range.start, range.end) && old(self)@.mapping.is_none()
                ==> r == Err::<MappedRange, MappingError>(MappingError::MappingFailed),
            r matches Ok(m) ==> {
                &&& within(old(self)@, range.start, range.end)
                &&& old(self)@.mapping.is_none()
                &&& m.memory == old(self)@.memory
                &&& m.range == range
                &&& final(self)@ == (RegionView {
                    mapping: Some((range.start, range.end)),
                    ..old(self)@
                })
            },
    {
        if !(self.start <= range.start && range.start <= range.end && range.end <= self.end) {
            return Err(MappingError::OutOfBounds);
        }
        if self.mapping.is_some() {
            return Err(MappingError::AlreadyMapped);
        }
        match device.map_memory(self.memory, range.start, range.end - range.start) {
            Ok(ptr) => {
                self.mapping = Some((range.start, range.end));
                Ok(MappedRange { memory: self.memory, range, ptr })
            },
            Err(_) => Err(MappingError::MappingFailed),
        }
    }

    /// Drop the active mapping, if any.
    pub fn unmap<D: RawDevice>(&mut self, device: &D)
        ensures
            final(self)@ == (RegionView { mapping: None, ..old(self)@ }),
    {
        match self.mapping {
            Some((start, end)) => {
                if start <= end {
                    device.unmap_memory(self.memory, start, end - start);
                }
                self.mapping = None;
            },
            None => {},
        }
    }
}


/// A block that owns a whole memory object.
#[derive(Debug)]
pub struct DedicatedBlock {
    region: Region,
}

/// A block bump-allocated inside a chunk of an arena.
#[derive(Debug)]
pub struct ArenaBlock {
    region: Region,
}

/// A block carved from the free list of a chunk of a dynamic allocator.
#[derive(Debug)]
pub struct DynamicBlock {
    region: Region,
}

impl View for DedicatedBlock {
    type V = RegionView;

    closed spec fn view(&self) -> RegionView {
        self.region@
    }
}

impl View for ArenaBlock {
    type V = RegionView;

    closed spec fn view(&self) -> RegionView {
        self.region@
    }
}

impl View for DynamicBlock {
    type V = RegionView;

    closed spec fn view(&self) -> RegionView {
        self.region@
    }
}

impl DedicatedBlock {
    pub(crate) fn new(region: Region) -> (r: DedicatedBlock)
        ensures
            r@ == region@,
    {
        DedicatedBlock { region }
    }

    pub fn region(&self) -> (r: &Region)
        ensures
            r@ == self@,
    {
        &self.region
    }
}

impl ArenaBlock {
    pub(crate) fn new(region: Region) -> (r: ArenaBlock)
        ensures
            r@ == region@,
    {
        ArenaBlock { region }
    }

    pub fn region(&self) -> (r: &Region)
        ensures
            r@ == self@,
    {
        &self.region
    }
}

impl DynamicBlock {
    pub(crate) fn new(region: Region) -> (r: DynamicBlock)
        ensures
            r@ == region@,
    {
        DynamicBlock { region }
    }

    pub fn region(&self) -> (r: &Region)
        ensures
            r@ == self@,
    {
        &self.region
    }
}

/// Which sub-allocator a block came from.
#[derive(Clone, Copy, Debug, PartialEq, Eq, Structural)]
pub enum Flavor {
    Dedicated,
    Arena,
    Dynamic,
}

/// A block of any of the three sub-allocators.
#[derive(Debug)]
pub enum BlockFlavor {
    Dedicated(DedicatedBlock),
    Arena(ArenaBlock),
    Dynamic(DynamicBlock),
}

impl BlockFlavor {
    pub open spec fn flavor(&self) -> Flavor {
        match self {
            BlockFlavor::Dedicated(_) => Flavor::Dedicated,
            BlockFlavor::Arena(_) => Flavor::Arena,
            BlockFlavor::Dynamic(_) => Flavor::Dynamic,
        }
    }

    pub open spec fn region(&self) -> RegionView {
        match self {
            BlockFlavor::Dedicated(b) => b@,
            BlockFlavor::Arena(b) => b@,
            BlockFlavor::Dynamic(b) => b@,
        }
    }
}

/// What a memory block is, as plain values.
pub struct BlockView {
    pub flavor: Flavor,
    pub memory_index: u32,
    pub region: RegionView,
}

/// Memory block allocated from `Heaps`.
#[derive(Debug)]
pub struct MemoryBlock {
    block: BlockFlavor,
    memory_index: u32,
}

impl View for MemoryBlock {
    type V = BlockView;

    closed spec fn view(&self) -> BlockView {
        BlockView {
            flavor: self.block.flavor(),
            memory_index: self.memory_index,
            region: self.block.region(),
        }
    }
}

impl MemoryBlock {
    pub(crate) fn new(block: BlockFlavor, memory_index: u32) -> (r: MemoryBlock)
        ensures
            r@ == (BlockView {
                flavor: block.flavor(),
                memory_index,
                region: block.region(),
            }),
    {
        MemoryBlock { block, memory_index }
    }

    pub(crate) fn into_flavor(self) -> (r: BlockFlavor)
        ensures
            r.flavor() == self@.flavor,
            r.region() == self@.region,
    {
        self.block
    }

    /// Get memory type id.
    pub fn memory_type(&self) -> (r: u32)
        ensures
            r == self@.memory_index,
    {
        self.memory_index
    }

    /// Which sub-allocator served this block.
    pub fn flavor(&self) -> (r: Flavor)
        ensures
            r == self@.flavor,
    {
        match &self.block {
            BlockFlavor::Dedicated(_) => Flavor::Dedicated,
            BlockFlavor::Arena(_) => Flavor::Arena,
            BlockFlavor::Dynamic(_) => Flavor::Dynamic,
        }
    }

    /// Bytes of its memory object that this block takes, alignment padding
    /// included.
    pub fn reserved(&self) -> (r: u64)
        ensures
            r == self@.region.reserved,
    {
        match &self.block {
            BlockFlavor::Dedicated(b) => b.region.reserved(),
            BlockFlavor::Arena(b) => b.region.reserved(),
            BlockFlavor::Dynamic(b) => b.region.reserved(),
        }
    }

    pub fn properties(&self) -> (r: Properties)
        ensures
            r == self@.region.properties,
    {
        match &self.block {
            BlockFlavor::Dedicated(b) => b.region.properties(),
            BlockFlavor::Arena(b) => b.region.properties(),
            BlockFlavor::Dynamic(b) => b.region.properties(),
        }
    }

    /// The memory object that backs this block.
    pub fn memory(&self) -> (r: u64)
        ensures
            r == self@.region.memory,
    {
        match &self.block {
            BlockFlavor::Dedicated(b) => b.region.memory(),
            BlockFlavor::Arena(b) => b.region.memory(),
            BlockFlavor::Dynamic(b) => b.region.memory(),
        }
    }

    /// Offsets of this block's bytes within its memory object.
    pub fn range(&self) -> (r: Range<u64>)
        ensures
            r.start == self@.region.start,
            r.end == self@.region.end,
    {
        match &self.block {
            BlockFlavor::Dedicated(b) => b.region.range(),
            BlockFlavor::Arena(b) => b.region.range(),
            BlockFlavor::Dynamic(b) => b.region.range(),
        }
    }

    /// Map `range`, a part of `self.range()`, into host memory. Only one
    /// mapping of a block is active at a time.
    pub fn map<D: RawDevice>(&mut self, device: &D, range: Range<u64>) -> (r: Result<
        MappedRange,
        MappingError,
    >)
        ensures
            !within(old(self)@.region, range.start, range.end) ==> r == Err::<
                MappedRange,
                MappingError,
            >(MappingError::OutOfBounds),
            within(old(self)@.region, range.start, range.end) && old(self)@.region.mapping.is_some()
                ==> r == Err::<MappedRange, MappingError>(MappingError::AlreadyMapped),
            r.is_err() ==> final(self)@ == old(self)@,
            r is Err && within(old(self)@.region, range.start, range.end)
                && old(self)@.region.mapping.is_none() ==> r == Err::<MappedRange, MappingError>(
                MappingError::MappingFailed,
            ),
            r matches Ok(m) ==> {
                &&& within(old(self)@.region, range.start, range.end)
                &&& old(self)@.region.mapping.is_none()
                &&& m.memory == old(self)@.region.memory
                &&& m.range == range
                &&& final(self)@ == (BlockView {
                    region: RegionView { mapping: Some((range.start, range.end)), ..old(self)@.region },
                    ..old(self)@
                })
            },
    {
        match &mut self.block {
            BlockFlavor::Dedicated(b) => b.region.map(device, range),
            BlockFlavor::Arena(b) => b.region.map(device, range),
            BlockFlavor::Dynamic(b) => b.region.map(device, range),
        }
    }

    /// Drop the active mapping, if any.
    pub fn unmap<D: RawDevice>(&mut self, device: &D)
        ensures
            final(self)@ == (BlockView {
                region: RegionView { mapping: None, ..old(self)@.region },
                ..old(self)@
            }),
    {
        match &mut self.block {
            BlockFlavor::Dedicated(b) => b.region.unmap(device),
            BlockFlavor::Arena(b) => b.region.unmap(device),
            BlockFlavor::Dynamic(b) => b.region.unmap(device),
        }
    }
}

} // verus!
