use std::cell::{Cell, RefCell};
use std::ops::Range;

use rendy_memory::arena::{ArenaAllocator, ArenaConfig};
use rendy_memory::dynamic::{DynamicAllocator, DynamicConfig};
use rendy_memory::usage::{DEVICE_LOCAL, HOST_CACHED, HOST_COHERENT, HOST_VISIBLE, LAZILY_ALLOCATED};
use rendy_memory::util::padding;
use rendy_memory::{
    Config, FenceStatus, Flavor, Heaps, MappingError, MemoryError, OomError, Properties, RawDevice,
    UsageValue, WaitStatus,
};

const KIB: u64 = 1024;
const MIB: u64 = 1024 * 1024;

struct MockDevice {
    next: Cell<u64>,
    allocated: RefCell<Vec<(u32, u64)>>,
    freed: RefCell<Vec<u64>>,
    mapped: RefCell<Vec<(u64, u64, u64)>>,
    unmapped: RefCell<Vec<(u64, u64, u64)>>,
    fail_alloc: Cell<Option<OomError>>,
    fail_map: Cell<bool>,
}

impl MockDevice {
    fn new() -> Self {
        MockDevice {
            next: Cell::new(1),
            allocated: RefCell::new(Vec::new()),
            freed: RefCell::new(Vec::new()),
            mapped: RefCell::new(Vec::new()),
            unmapped: RefCell::new(Vec::new()),
            fail_alloc: Cell::new(None),
            fail_map: Cell::new(false),
        }
    }
}

impl RawDevice for MockDevice {
    fn allocate_memory(&self, type_index: u32, size: u64) -> Result<u64, OomError> {
        if let Some(e) = self.fail_alloc.get() {
            return Err(e);
        }
        let h = self.next.get();
        self.next.set(h + 1);
        self.allocated.borrow_mut().push((type_index, size));
        Ok(h)
    }

    fn free_memory(&self, memory: u64) {
        self.freed.borrow_mut().push(memory);
    }

    fn map_memory(&self, memory: u64, offset: u64, size: u64) -> Result<u64, MappingError> {
        if self.fail_map.get() {
            return Err(MappingError::MappingFailed);
        }
        self.mapped.borrow_mut().push((memory, offset, size));
        Ok(0x1000_0000 + offset)
    }

    fn unmap_memory(&self, memory: u64, offset: u64, size: u64) {
        self.unmapped.borrow_mut().push((memory, offset, size));
    }

    fn wait_for_fences(&self, _fences: &Vec<u64>, _wait_all: bool, _timeout: u64) -> WaitStatus {
        WaitStatus::Success
    }

    fn get_fence_status(&self, _fence: u64) -> FenceStatus {
        FenceStatus::Ready
    }
}

fn props(bits: u32) -> Properties {
    Properties::from_bits(bits)
}

fn upload_heaps() -> Heaps {
    let config = Config {
        arena: Some(ArenaConfig { chunk_size: 4 * MIB, max_allocation: MIB }),
        dynamic: None,
    };
    Heaps::new(vec![(props(HOST_VISIBLE), 0, config)], vec![256 * MIB])
}

#[test]
fn example_scenario_upload_arena_then_dedicated() {
    let device = MockDevice::new();
    let mut heaps = upload_heaps();
    let small = heaps.allocate(&device, 1, UsageValue::Upload, 512 * KIB, 256).unwrap();
    assert_eq!(small.flavor(), Flavor::Arena);
    assert!(heaps.used(0) >= 512 * KIB);
    // The arena took one whole chunk from the heap.
    assert_eq!(heaps.used(0), 4 * MIB);
    let used_after_small = heaps.used(0);

    let large = heaps.allocate(&device, 1, UsageValue::Upload, 2 * MIB, 256).unwrap();
    assert_eq!(large.flavor(), Flavor::Dedicated);
    assert_eq!(large.reserved(), 2 * MIB);
    assert_eq!(heaps.used(0), used_after_small + 2 * MIB);

    heaps.free(&device, small);
    heaps.free(&device, large);
    assert_eq!(heaps.used(0), 0);
    // The arena chunk and the dedicated object were both given back.
    assert_eq!(device.freed.borrow().len(), 2);
}

#[test]
fn free_after_allocate_restores_usage() {
    let device = MockDevice::new();
    let mut heaps = upload_heaps();
    let keep = heaps.allocate(&device, 1, UsageValue::Upload, 100, 64).unwrap();
    for &(size, align) in &[(1u64, 1u64), (300, 256), (MIB, 4096), (3 * MIB, 16), (0, 0)] {
        let before = heaps.used(0);
        let block = heaps.allocate(&device, 1, UsageValue::Upload, size, align).unwrap();
        assert!(heaps.used(0) >= before);
        heaps.free(&device, block);
        assert_eq!(heaps.used(0), before);
    }
    heaps.free(&device, keep);
    assert_eq!(heaps.used(0), 0);
}

#[test]
fn usage_stays_within_heap_size() {
    let device = MockDevice::new();
    let config = Config { arena: None, dynamic: Some(DynamicConfig { chunk_size: 64 * KIB, max_allocation: 16 * KIB }) };
    let mut heaps = Heaps::new(vec![(props(DEVICE_LOCAL), 0, config)], vec![100 * KIB]);
    let mut blocks = Vec::new();
    loop {
        match heaps.allocate(&device, 1, UsageValue::Data, 8 * KIB, 256) {
            Ok(b) => blocks.push(b),
            Err(e) => {
                assert_eq!(e, MemoryError::HeapsExhausted);
                break;
            }
        }
        assert!(heaps.used(0) <= heaps.size(0));
    }
    assert!(!blocks.is_empty());
    assert!(heaps.used(0) <= 100 * KIB);
    // One 64 KiB chunk holds all the blocks; a second would not fit the heap.
    assert_eq!(device.allocated.borrow().len(), 1);
    assert_eq!(heaps.used(0), 64 * KIB);
    for b in blocks {
        heaps.free(&device, b);
        assert!(heaps.used(0) <= heaps.size(0));
    }
    assert_eq!(heaps.used(0), 0);
}

#[test]
fn arena_threshold_routes_to_dedicated() {
    let device = MockDevice::new();
    let mut heaps = upload_heaps();
    let at = heaps.allocate(&device, 1, UsageValue::Download, MIB, 0).unwrap();
    assert_eq!(at.flavor(), Flavor::Arena);
    let below = heaps.allocate(&device, 1, UsageValue::Download, MIB - 1, 0).unwrap();
    assert_eq!(below.flavor(), Flavor::Arena);
    let above = heaps.allocate(&device, 1, UsageValue::Download, MIB + 1, 0).unwrap();
    assert_eq!(above.flavor(), Flavor::Dedicated);
    assert_eq!(above.reserved(), MIB + 1);
}

#[test]
fn dynamic_threshold_routes_to_dedicated() {
    let device = MockDevice::new();
    let config = Config {
        arena: Some(ArenaConfig { chunk_size: MIB, max_allocation: 64 * KIB }),
        dynamic: Some(DynamicConfig { chunk_size: MIB, max_allocation: 128 * KIB }),
    };
    let mut heaps = Heaps::new(
        vec![(props(DEVICE_LOCAL | HOST_VISIBLE | HOST_COHERENT), 0, config)],
        vec![64 * MIB],
    );
    let small = heaps.allocate(&device, 1, UsageValue::Dynamic, 100 * KIB, 256).unwrap();
    assert_eq!(small.flavor(), Flavor::Dynamic);
    let data = heaps.allocate(&device, 1, UsageValue::Data, 4 * KIB, 256).unwrap();
    assert_eq!(data.flavor(), Flavor::Dynamic);
    let big = heaps.allocate(&device, 1, UsageValue::Dynamic, 129 * KIB, 256).unwrap();
    assert_eq!(big.flavor(), Flavor::Dedicated);
    // Uploads go to the arena, not to the dynamic allocator.
    let up = heaps.allocate(&device, 1, UsageValue::Upload, 4 * KIB, 256).unwrap();
    assert_eq!(up.flavor(), Flavor::Arena);
    let up_big = heaps.allocate(&device, 1, UsageValue::Upload, 100 * KIB, 256).unwrap();
    assert_eq!(up_big.flavor(), Flavor::Dedicated);
}

#[test]
fn arena_needs_host_visible_memory() {
    let device = MockDevice::new();
    let config = Config { arena: Some(ArenaConfig { chunk_size: MIB, max_allocation: MIB }), dynamic: None };
    // Device-local memory without host visibility has no arena: a download
    // there can only be served by a dedicated allocation.
    let mut heaps = Heaps::new(vec![(props(DEVICE_LOCAL), 0, config)], vec![64 * MIB]);
    let r = heaps.allocate(&device, 1, UsageValue::Data, KIB, 0).unwrap();
    assert_eq!(r.flavor(), Flavor::Dedicated);
}

#[test]
fn no_suitable_memory_for_mask_or_usage() {
    let device = MockDevice::new();
    let mut heaps = upload_heaps();
    assert_eq!(
        heaps.allocate(&device, 0, UsageValue::Upload, KIB, 0).unwrap_err(),
        MemoryError::NoSuitableMemory(0, UsageValue::Upload)
    );
    // Host-visible memory without device locality has no fitness for data.
    assert_eq!(
        heaps.allocate(&device, 1, UsageValue::Data, KIB, 0).unwrap_err(),
        MemoryError::NoSuitableMemory(1, UsageValue::Data)
    );
    assert_eq!(heaps.used(0), 0);
}

#[test]
fn heaps_exhausted_when_no_heap_has_room() {
    let device = MockDevice::new();
    let mut heaps = Heaps::new(vec![(props(HOST_VISIBLE), 0, Config { arena: None, dynamic: None })], vec![1000]);
    // Room is required for more than size + align bytes.
    assert_eq!(
        heaps.allocate(&device, 1, UsageValue::Upload, 990, 10).unwrap_err(),
        MemoryError::HeapsExhausted
    );
    let ok = heaps.allocate(&device, 1, UsageValue::Upload, 989, 10).unwrap();
    assert_eq!(ok.reserved(), 989);
    assert_eq!(heaps.used(0), 989);
    assert_eq!(
        heaps.allocate(&device, 1, UsageValue::Upload, u64::MAX, u64::MAX).unwrap_err(),
        MemoryError::HeapsExhausted
    );
}

#[test]
fn device_out_of_memory_is_surfaced() {
    let device = MockDevice::new();
    let mut heaps = upload_heaps();
    device.fail_alloc.set(Some(OomError::OutOfDeviceMemory));
    assert_eq!(
        heaps.allocate(&device, 1, UsageValue::Upload, 2 * MIB, 0).unwrap_err(),
        MemoryError::OutOfDeviceMemory
    );
    device.fail_alloc.set(Some(OomError::OutOfHostMemory));
    assert_eq!(
        heaps.allocate(&device, 1, UsageValue::Upload, KIB, 0).unwrap_err(),
        MemoryError::OutOfHostMemory
    );
    assert_eq!(heaps.used(0), 0);
}

#[test]
fn fittest_type_is_chosen() {
    let device = MockDevice::new();
    let none = Config { arena: None, dynamic: None };
    let mut heaps = Heaps::new(
        vec![
            (props(DEVICE_LOCAL | HOST_VISIBLE | HOST_COHERENT), 0, none),
            (props(DEVICE_LOCAL), 1, none),
            (props(HOST_VISIBLE | HOST_COHERENT | HOST_CACHED), 0, none),
        ],
        vec![64 * MIB, 64 * MIB],
    );
    let data = heaps.allocate(&device, 0b111, UsageValue::Data, KIB, 0).unwrap();
    assert_eq!(data.memory_type(), 1);
    assert_eq!(heaps.used(1), KIB);
    let upload = heaps.allocate(&device, 0b111, UsageValue::Upload, KIB, 0).unwrap();
    assert_eq!(upload.memory_type(), 2);
    let download = heaps.allocate(&device, 0b111, UsageValue::Download, KIB, 0).unwrap();
    assert_eq!(download.memory_type(), 2);
    let dynamic = heaps.allocate(&device, 0b111, UsageValue::Dynamic, KIB, 0).unwrap();
    assert_eq!(dynamic.memory_type(), 0);
    // With the best type masked out, the next best is used.
    let data2 = heaps.allocate(&device, 0b101, UsageValue::Data, KIB, 0).unwrap();
    assert_eq!(data2.memory_type(), 0);
}

#[test]
fn equally_fit_types_pick_lowest_index() {
    let device = MockDevice::new();
    let none = Config { arena: None, dynamic: None };
    let mut heaps = Heaps::new(
        vec![(props(DEVICE_LOCAL), 0, none), (props(DEVICE_LOCAL), 1, none), (props(DEVICE_LOCAL), 1, none)],
        vec![MIB, MIB],
    );
    assert_eq!(heaps.allocate(&device, 0b111, UsageValue::Data, KIB, 0).unwrap().memory_type(), 0);
    assert_eq!(heaps.allocate(&device, 0b110, UsageValue::Data, KIB, 0).unwrap().memory_type(), 1);
    // Heap 0 full: the lowest type on another heap takes over.
    let _fill = heaps.allocate(&device, 0b001, UsageValue::Data, MIB - 3 * KIB, 0).unwrap();
    assert_eq!(heaps.allocate(&device, 0b111, UsageValue::Data, 2 * KIB, 0).unwrap().memory_type(), 1);
}

#[test]
fn fitness_scores() {
    assert_eq!(UsageValue::Data.memory_fitness(props(DEVICE_LOCAL)), Some(15));
    assert_eq!(UsageValue::Data.memory_fitness(props(DEVICE_LOCAL | HOST_VISIBLE | HOST_COHERENT)), Some(6));
    assert_eq!(UsageValue::Data.memory_fitness(props(HOST_VISIBLE)), None);
    assert_eq!(UsageValue::Dynamic.memory_fitness(props(DEVICE_LOCAL | HOST_VISIBLE | HOST_COHERENT)), Some(7));
    assert_eq!(UsageValue::Dynamic.memory_fitness(props(HOST_VISIBLE | HOST_CACHED)), Some(0));
    assert_eq!(UsageValue::Upload.memory_fitness(props(HOST_VISIBLE | HOST_COHERENT)), Some(7));
    assert_eq!(UsageValue::Upload.memory_fitness(props(DEVICE_LOCAL)), None);
    assert_eq!(UsageValue::Download.memory_fitness(props(HOST_VISIBLE | HOST_CACHED)), Some(7));
    assert_eq!(UsageValue::Download.memory_fitness(props(HOST_VISIBLE | HOST_COHERENT)), Some(4));
    assert_eq!(UsageValue::Upload.memory_fitness(props(HOST_VISIBLE | LAZILY_ALLOCATED)), None);
}

#[test]
fn padding_reaches_alignment() {
    assert_eq!(padding(0, 256), 0);
    assert_eq!(padding(1, 256), 255);
    assert_eq!(padding(256, 256), 0);
    assert_eq!(padding(300, 256), 212);
    assert_eq!(padding(7, 0), 0);
}

#[test]
fn arena_bumps_and_releases_chunks() {
    let device = MockDevice::new();
    let mut arena = ArenaAllocator::new(3, props(HOST_VISIBLE), ArenaConfig { chunk_size: 1000, max_allocation: 600 });
    let (a, na) = arena.allocate(&device, 100, 0, u64::MAX).unwrap();
    // A new chunk is taken from the heap whole.
    assert_eq!(na, 1000);
    assert_eq!(a.region().range(), Range { start: 0, end: 100 });
    let (b, nb) = arena.allocate(&device, 50, 64, u64::MAX).unwrap();
    assert_eq!(b.region().range(), Range { start: 128, end: 178 });
    assert_eq!(b.region().reserved(), 28 + 50);
    assert_eq!(nb, 0);
    assert_eq!(arena.chunk_count(), 1);
    // Aligned to 512 it does not fit after 178 in a chunk of 1000: a new
    // chunk is taken.
    let (c, nc) = arena.allocate(&device, 600, 512, u64::MAX).unwrap();
    assert_eq!(c.region().range(), Range { start: 0, end: 600 });
    assert_eq!(nc, 1000);
    assert_eq!(arena.chunk_count(), 2);
    assert_eq!(device.allocated.borrow().as_slice(), &[(3, 1000), (3, 1000)]);
    assert_eq!(arena.free(&device, a), 0);
    assert_eq!(arena.chunk_count(), 2);
    assert_eq!(arena.free(&device, b), 1000);
    assert_eq!(arena.chunk_count(), 1);
    assert_eq!(device.freed.borrow().as_slice(), &[1]);
    assert_eq!(arena.free(&device, c), 1000);
    assert_eq!(arena.chunk_count(), 0);
}

#[test]
fn arena_new_chunk_needs_room() {
    let device = MockDevice::new();
    let mut arena = ArenaAllocator::new(0, props(HOST_VISIBLE), ArenaConfig { chunk_size: 1000, max_allocation: 600 });
    assert_eq!(arena.allocate(&device, 10, 0, 999).unwrap_err(), MemoryError::HeapsExhausted);
    assert!(device.allocated.borrow().is_empty());
    let (a, _) = arena.allocate(&device, 10, 0, 1000).unwrap();
    // Placing in the existing chunk needs no room at all.
    let (b, nb) = arena.allocate(&device, 10, 0, 0).unwrap();
    assert_eq!(nb, 0);
    arena.free(&device, a);
    arena.free(&device, b);
}

#[test]
fn heap_smaller_than_a_chunk_is_exhausted() {
    let device = MockDevice::new();
    let config = Config { arena: Some(ArenaConfig { chunk_size: 4 * MIB, max_allocation: MIB }), dynamic: None };
    let mut heaps = Heaps::new(vec![(props(HOST_VISIBLE), 0, config)], vec![2 * MIB]);
    assert_eq!(
        heaps.allocate(&device, 1, UsageValue::Upload, KIB, 0).unwrap_err(),
        MemoryError::HeapsExhausted
    );
    assert_eq!(heaps.used(0), 0);
    // Above the arena's threshold a dedicated allocation still fits.
    let big = heaps.allocate(&device, 1, UsageValue::Upload, MIB + 1, 0).unwrap();
    assert_eq!(big.flavor(), Flavor::Dedicated);
    assert_eq!(heaps.used(0), MIB + 1);
}

#[test]
fn dynamic_reuses_and_merges_free_ranges() {
    let device = MockDevice::new();
    let mut dynamic = DynamicAllocator::new(0, props(DEVICE_LOCAL), DynamicConfig { chunk_size: 4096, max_allocation: 4096 });
    let (a, na) = dynamic.allocate(&device, 1024, 256, u64::MAX).unwrap();
    let (b, nb) = dynamic.allocate(&device, 1024, 256, u64::MAX).unwrap();
    let (c, _) = dynamic.allocate(&device, 1024, 256, u64::MAX).unwrap();
    assert_eq!((na, nb), (4096, 0));
    assert_eq!(a.region().range(), Range { start: 0, end: 1024 });
    assert_eq!(b.region().range(), Range { start: 1024, end: 2048 });
    assert_eq!(c.region().range(), Range { start: 2048, end: 3072 });
    assert_eq!(dynamic.chunk_count(), 1);
    assert_eq!(dynamic.fragmentation(0), 1);
    assert_eq!(dynamic.free(&device, a), 0);
    assert_eq!(dynamic.fragmentation(0), 2);
    dynamic.free(&device, b);
    // The two freed neighbours are merged into one range.
    assert_eq!(dynamic.fragmentation(0), 2);
    let (d, nd) = dynamic.allocate(&device, 2048, 256, 0).unwrap();
    assert_eq!(d.region().range(), Range { start: 0, end: 2048 });
    assert_eq!(nd, 0);
    assert_eq!(dynamic.chunk_count(), 1);
    // Bigger than any free range: a second chunk.
    let (e, ne) = dynamic.allocate(&device, 2000, 1, u64::MAX).unwrap();
    assert_eq!(ne, 4096);
    assert_eq!(dynamic.chunk_count(), 2);
    assert_eq!(e.region().range(), Range { start: 0, end: 2000 });
    assert_eq!(dynamic.free(&device, c), 0);
    assert_eq!(dynamic.free(&device, d), 4096);
    assert_eq!(dynamic.chunk_count(), 1);
    assert_eq!(dynamic.free(&device, e), 4096);
    assert_eq!(dynamic.chunk_count(), 0);
    assert_eq!(device.freed.borrow().len(), 2);
}

#[test]
fn dynamic_alignment_reserves_padding() {
    let device = MockDevice::new();
    let mut dynamic = DynamicAllocator::new(0, props(DEVICE_LOCAL), DynamicConfig { chunk_size: 4096, max_allocation: 1024 });
    let (a, na) = dynamic.allocate(&device, 10, 1, u64::MAX).unwrap();
    assert_eq!(na, 4096);
    assert_eq!(a.region().reserved(), 10);
    let (b, nb) = dynamic.allocate(&device, 100, 64, u64::MAX).unwrap();
    assert_eq!(b.region().range(), Range { start: 64, end: 164 });
    assert_eq!(b.region().reserved(), 154);
    assert_eq!(nb, 0);
    assert_eq!(dynamic.fragmentation(0), 2);
    assert_eq!(dynamic.free(&device, b), 0);
    assert_eq!(dynamic.free(&device, a), 4096);
    assert_eq!(dynamic.chunk_count(), 0);
}

#[test]
fn dynamic_new_chunk_needs_room() {
    let device = MockDevice::new();
    let mut dynamic = DynamicAllocator::new(0, props(DEVICE_LOCAL), DynamicConfig { chunk_size: 4096, max_allocation: 1024 });
    assert_eq!(dynamic.allocate(&device, 10, 1, 4095).unwrap_err(), MemoryError::HeapsExhausted);
    assert_eq!(dynamic.chunk_count(), 0);
}

#[test]
fn map_checks_bounds_and_single_mapping() {
    let device = MockDevice::new();
    let mut heaps = upload_heaps();
    let mut block = heaps.allocate(&device, 1, UsageValue::Upload, 4096, 256).unwrap();
    let range = block.range();
    assert_eq!(range.end - range.start, 4096);
    assert_eq!(
        block.map(&device, range.start..range.end + 1).unwrap_err(),
        MappingError::OutOfBounds
    );
    if range.start > 0 {
        assert_eq!(block.map(&device, range.start - 1..range.end).unwrap_err(), MappingError::OutOfBounds);
    }
    assert_eq!(block.map(&device, range.start + 10..range.start + 5).unwrap_err(), MappingError::OutOfBounds);
    let mapped = block.map(&device, range.start + 16..range.start + 48).unwrap();
    assert_eq!(mapped.memory, block.memory());
    assert_eq!(mapped.range, range.start + 16..range.start + 48);
    assert_eq!(device.mapped.borrow().as_slice(), &[(block.memory(), range.start + 16, 32)]);
    assert_eq!(block.map(&device, range.clone()).unwrap_err(), MappingError::AlreadyMapped);
    block.unmap(&device);
    assert_eq!(device.unmapped.borrow().as_slice(), &[(block.memory(), range.start + 16, 32)]);
    let whole = block.map(&device, range.clone()).unwrap();
    assert_eq!(whole.range, range);
    block.unmap(&device);
    device.fail_map.set(true);
    assert_eq!(block.map(&device, range.clone()).unwrap_err(), MappingError::MappingFailed);
    heaps.free(&device, block);
}

#[test]
fn block_reports_its_properties() {
    let device = MockDevice::new();
    let mut heaps = upload_heaps();
    let block = heaps.allocate(&device, 1, UsageValue::Upload, 64, 0).unwrap();
    assert_eq!(block.properties(), props(HOST_VISIBLE));
    assert_eq!(block.memory_type(), 0);
    heaps.free(&device, block);
}

#[test]
fn dispose_after_all_freed() {
    let device = MockDevice::new();
    let mut heaps = upload_heaps();
    let a = heaps.allocate(&device, 1, UsageValue::Upload, 64, 0).unwrap();
    heaps.free(&device, a);
    heaps.dispose(&device);
}

#[test]
fn arena_limit_never_exceeds_a_chunk() {
    let device = MockDevice::new();
    // A maximum above the chunk size is capped at one chunk.
    let config = Config { arena: Some(ArenaConfig { chunk_size: 64 * KIB, max_allocation: MIB }), dynamic: None };
    let mut heaps = Heaps::new(vec![(props(HOST_VISIBLE), 0, config)], vec![16 * MIB]);
    let small = heaps.allocate(&device, 1, UsageValue::Upload, 64 * KIB, 0).unwrap();
    assert_eq!(small.flavor(), Flavor::Arena);
    let big = heaps.allocate(&device, 1, UsageValue::Upload, 64 * KIB + 1, 0).unwrap();
    assert_eq!(big.flavor(), Flavor::Dedicated);
    assert_eq!(heaps.used(0), 64 * KIB + 64 * KIB + 1);
    heaps.free(&device, big);
    heaps.free(&device, small);
    assert_eq!(heaps.used(0), 0);
}
