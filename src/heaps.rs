use vstd::prelude::*;

use crate::arena::{ArenaAllocator, ArenaConfig};
use crate::block::{BlockFlavor, BlockView, Flavor, MemoryBlock, RegionView};
use crate::candidates::{candidate_items, candidates_as_slice, candidates_new, candidates_push};
use crate::dedicated::DedicatedAllocator;
use crate::device::RawDevice;
use crate::dynamic::{DynamicAllocator, DynamicConfig};
use crate::errors::{is_oom, MemoryError};
use crate::usage::{fitness_spec, Properties, UsageValue};
use crate::util::lemma_chunks_add;

verus! {

/// Config for `Heaps` allocator.
#[derive(Clone, Copy, Debug, PartialEq, Eq, Structural)]
pub struct Config {
    /// Config for arena sub-allocator.
    pub arena: Option<ArenaConfig>,
    /// Config for dynamic sub-allocator.
    pub dynamic: Option<DynamicConfig>,
}

impl Config {

    /// Largest request the arena of a type with `properties` serves: a type
    /// has an arena where one is configured and the type is host visible.
    pub open spec fn arena_max_for(self, properties: Properties) -> Option<u64> {
        match self.arena {
            Some(a) => if properties.has(crate::usage::HOST_VISIBLE) {
                Some(a.limit())
            } else {
                None
            },
            None => None,
        }
    }

    /// Largest request the dynamic allocator serves, where one is configured.
    pub open spec fn dynamic_max_for(self) -> Option<u64> {
        match self.dynamic {
            Some(d) => Some(d.limit()),
            None => None,
        }
    }
}

/// The sub-allocator that serves a request of `size` bytes for `usage`, given
/// the largest requests the type's arena and dynamic allocator take, if it
/// has them.
pub open spec fn route(
    usage: UsageValue,
    size: u64,
    arena_max: Option<u64>,
    dynamic_max: Option<u64>,
) -> Flavor {
    match usage {
        UsageValue::Upload | UsageValue::Download => match arena_max {
            Some(m) => if size <= m {
                Flavor::Arena
            } else {
                Flavor::Dedicated
            },
            None => Flavor::Dedicated,
        },
        UsageValue::Dynamic | UsageValue::Data => match dynamic_max {
            Some(m) => if size <= m {
                Flavor::Dynamic
            } else {
                Flavor::Dedicated
            },
            None => Flavor::Dedicated,
        },
    }
}

/// `n` less one, but never below zero.
pub open spec fn dec(n: nat) -> nat {
    if n > 0 {
        (n - 1) as nat
    } else {
        0
    }
}

/// Bytes a sub-allocator may reserve for `size` bytes aligned to `align`: the
/// size, plus less than `align` bytes of padding.
pub open spec fn reserve_bounds(n: u64, size: u64, align: u64) -> bool {
    &&& size <= n
    &&& (align == 0 ==> n == size)
    &&& (align > 0 ==> n < size + align)
}

/// Total and used capacity of one physical memory pool.
#[derive(Clone, Copy, Debug)]
struct MemoryHeap {
    size: u64,
    used: u64,
}

impl MemoryHeap {
    fn new(size: u64) -> (r: MemoryHeap)
        ensures
            r.size == size,
            r.used == 0,
    {
        MemoryHeap { size, used: 0 }
    }

    fn available(&self) -> (r: u64)
        requires
            self.used <= self.size,
        ensures
            r == self.size - self.used,
    {
        self.size - self.used
    }
}

/// One memory type: a heap, its property flags, and the sub-allocators that
/// those flags admit.
struct MemoryType {
    index: u32,
    heap_index: usize,
    properties: Properties,
    dedicated: DedicatedAllocator,
    arena: Option<ArenaAllocator>,
    dynamic: Option<DynamicAllocator>,
}

impl MemoryType {
    spec fn wf(&self) -> bool {
        &&& self.dedicated.wf()
        &&& self.dedicated.memory_type_spec() == self.index
        &&& self.dedicated.properties_spec() == self.properties
        &&& (self.arena matches Some(a) ==> {
            &&& a.wf()
            &&& a.memory_type_spec() == self.index
            &&& a.properties_spec() == self.properties
        })
        &&& (self.dynamic matches Some(d) ==> {
            &&& d.wf()
            &&& d.memory_type_spec() == self.index
            &&& d.properties_spec() == self.properties
        })
    }

    spec fn arena_max(&self) -> Option<u64> {
        match self.arena {
            Some(a) => Some(a.config_spec().limit()),
            None => None,
        }
    }

    spec fn dynamic_max(&self) -> Option<u64> {
        match self.dynamic {
            Some(d) => Some(d.config_spec().limit()),
            None => None,
        }
    }

    /// Bytes the heap gets back if the block of flavor `f` in memory object
    /// `m` is freed now.
    spec fn released_by(&self, f: Flavor, m: u64) -> u64 {
        match f {
            Flavor::Dedicated => self.dedicated.release_of(m),
            Flavor::Arena => match self.arena {
                Some(a) => a.release_of(m),
                None => 0,
            },
            Flavor::Dynamic => match self.dynamic {
                Some(d) => d.release_of(m),
                None => 0,
            },
        }
    }

    /// Bytes of the heap the type holds, over its three sub-allocators.
    spec fn usage(&self) -> int {
        self.dedicated.usage() + match self.arena {
            Some(a) => a.usage(),
            None => 0,
        } + match self.dynamic {
            Some(d) => d.usage(),
            None => 0,
        }
    }

    proof fn lemma_usage_nonneg(&self)
        ensures
            self.usage() >= 0,
    {
        self.dedicated.lemma_usage_nonneg();
        if self.arena is Some {
            let a = self.arena->Some_0;
            lemma_chunks_add(a.chunk_count_spec() as int, a.config_spec().chunk_size as int);
        }
        if self.dynamic is Some {
            let d = self.dynamic->Some_0;
            lemma_chunks_add(d.chunk_count_spec() as int, d.config_spec().chunk_size as int);
        }
    }

    /// Size of the chunks of the sub-allocator of flavor `f`; zero for
    /// dedicated blocks or a sub-allocator the type lacks.
    spec fn chunk_size_of(&self, f: Flavor) -> u64 {
        match f {
            Flavor::Arena => match self.arena {
                Some(a) => a.config_spec().chunk_size,
                None => 0,
            },
            Flavor::Dynamic => match self.dynamic {
                Some(d) => d.config_spec().chunk_size,
                None => 0,
            },
            Flavor::Dedicated => 0,
        }
    }

    /// The sub-allocator that serves the request needs a new chunk, and the
    /// heap has fewer than a chunk's bytes of `room`.
    spec fn needs_room(&self, usage: UsageValue, size: u64, align: u64, room: u64) -> bool {
        match route(usage, size, self.arena_max(), self.dynamic_max()) {
            Flavor::Arena => self.arena matches Some(a) && !a.fits_last(size, align)
                && a.config_spec().chunk_size > room,
            Flavor::Dynamic => self.dynamic matches Some(d) && !d.can_place(size, align)
                && d.config_spec().chunk_size > room,
            Flavor::Dedicated => false,
        }
    }

    /// The sub-allocator that serves the request can do so without asking
    /// the device for memory.
    spec fn placeable(&self, usage: UsageValue, size: u64, align: u64) -> bool {
        match route(usage, size, self.arena_max(), self.dynamic_max()) {
            Flavor::Arena => self.arena matches Some(a) && a.fits_last(size, align),
            Flavor::Dynamic => self.dynamic matches Some(d) && d.can_place(size, align),
            Flavor::Dedicated => false,
        }
    }

    spec fn live_of(&self, f: Flavor) -> nat {
        match f {
            Flavor::Dedicated => self.dedicated.live(),
            Flavor::Arena => match self.arena {
                Some(a) => a.live(),
                None => 0,
            },
            Flavor::Dynamic => match self.dynamic {
                Some(d) => d.live(),
                None => 0,
            },
        }
    }

    spec fn live(&self) -> nat {
        self.live_of(Flavor::Dedicated) + self.live_of(Flavor::Arena) + self.live_of(Flavor::Dynamic)
    }

    fn new(memory_type: u32, heap_index: usize, properties: Properties, config: Config) -> (r:
        MemoryType)
        ensures
            r.wf(),
            r.index == memory_type,
            r.heap_index == heap_index,
            r.properties == properties,
            r.live() == 0,
            r.usage() == 0,
            forall|f: Flavor, m: u64| #[trigger] r.released_by(f, m) == 0,
            forall|u: UsageValue, s: u64, a: u64| !#[trigger] r.placeable(u, s, a),
            r.arena matches Some(a) ==> r.chunk_size_of(Flavor::Arena) == config.arena->Some_0.chunk_size,
            r.dynamic matches Some(d) ==> r.chunk_size_of(Flavor::Dynamic) == config.dynamic->Some_0.chunk_size,
            r.arena matches Some(a) ==> a.chunk_count_spec() == 0,
            r.dynamic matches Some(d) ==> d.chunk_count_spec() == 0,
            r.arena is Some <==> (config.arena is Some && properties.has(
                crate::usage::HOST_VISIBLE,
            )),
            r.arena matches Some(a) ==> config.arena == Some(a.config_spec()),
            r.dynamic is Some <==> config.dynamic is Some,
            r.dynamic matches Some(d) ==> config.dynamic == Some(d.config_spec()),
    {
        let arena = if properties.contains(ArenaAllocator::properties_required()) {
            match config.arena {
                Some(c) => Some(ArenaAllocator::new(memory_type, properties, c)),
                None => None,
            }
        } else {
            None
        };
        let dynamic = if properties.contains(DynamicAllocator::properties_required()) {
            match config.dynamic {
                Some(c) => Some(DynamicAllocator::new(memory_type, properties, c)),
                None => None,
            }
        } else {
            None
        };
        proof {
            assert(properties.bits & 0 == 0) by (bit_vector);
        }
        MemoryType {
            index: memory_type,
            heap_index,
            properties,
            dedicated: DedicatedAllocator::new(memory_type, properties),
            arena,
            dynamic,
        }
    }

    /// Serve a request with the sub-allocator that `route` names. Returns the
    /// block and the bytes taken from the heap for it, which are at most
    /// `room` where any are taken.
    fn allocate<D: RawDevice>(
        &mut self,
        device: &D,
        usage: UsageValue,
        size: u64,
        align: u64,
        room: u64,
    ) -> (r: Result<(BlockFlavor, u64), MemoryError>)
        requires
            old(self).wf(),
            size <= room,
        ensures
            final(self).wf(),
            final(self).index == old(self).index,
            final(self).heap_index == old(self).heap_index,
            final(self).properties == old(self).properties,
            final(self).arena_max() == old(self).arena_max(),
            final(self).dynamic_max() == old(self).dynamic_max(),
            ({
                let f = route(usage, size, old(self).arena_max(), old(self).dynamic_max());
                &&& (f != Flavor::Dedicated ==> final(self).dedicated == old(self).dedicated)
                &&& (f != Flavor::Arena ==> final(self).arena == old(self).arena)
                &&& (f != Flavor::Dynamic ==> final(self).dynamic == old(self).dynamic)
            }),
            old(self).placeable(usage, size, align) ==> (r matches Ok((_, n)) && n == 0),
            old(self).needs_room(usage, size, align, room) <==> r == Err::<(BlockFlavor, u64), MemoryError>(
                MemoryError::HeapsExhausted,
            ),
            r matches Ok((b, n)) ==> {
                let f = b.flavor();
                &&& f == route(usage, size, old(self).arena_max(), old(self).dynamic_max())
                &&& n <= room
                &&& final(self).released_by(f, b.region().memory) == n
                &&& final(self).usage() == old(self).usage() + n
                &&& forall|g: Flavor, m: u64|
                    g != f || m != b.region().memory ==> #[trigger] final(self).released_by(g, m)
                        == old(self).released_by(g, m)
                &&& (f == Flavor::Dedicated ==> n == size && b.region().reserved == size)
                &&& (f != Flavor::Dedicated ==> (old(self).placeable(usage, size, align) ==> n == 0)
                    && (!old(self).placeable(usage, size, align) ==> n == old(self).chunk_size_of(f)))
                &&& reserve_bounds(b.region().reserved, size, align)
                &&& (align > 0 ==> b.region().start % align == 0)
                &&& b.region().end - b.region().start == size
                &&& b.region().properties == old(self).properties
                &&& b.region().mapping.is_none()
                &&& final(self).live_of(f) == old(self).live_of(f) + 1
                &&& forall|g: Flavor| g != f ==> #[trigger] final(self).live_of(g) == old(self).live_of(g)
            },
            r matches Err(e) ==> (is_oom(e) || e == MemoryError::HeapsExhausted) && *final(self) == *old(self),
    {
        match usage {
            UsageValue::Upload | UsageValue::Download => {
                match &mut self.arena {
                    Some(arena) => {
                        if size <= arena.max_allocation() {
                            return match arena.allocate(device, size, align, room) {
                                Ok((block, n)) => Ok((BlockFlavor::Arena(block), n)),
                                Err(e) => Err(e),
                            };
                        }
                    },
                    None => {},
                }
            },
            UsageValue::Dynamic | UsageValue::Data => {
                match &mut self.dynamic {
                    Some(dynamic) => {
                        if size <= dynamic.max_allocation() {
                            return match dynamic.allocate(device, size, align, room) {
                                Ok((block, n)) => Ok((BlockFlavor::Dynamic(block), n)),
                                Err(e) => Err(e),
                            };
                        }
                    },
                    None => {},
                }
            },
        }
        match self.dedicated.allocate(device, size, align) {
            Ok((block, n)) => {
                proof {
                    if align > 0 {
                        assert(0u64 % align == 0) by (nonlinear_arith)
                            requires
                                align > 0,
                        ;
                    }
                }
                Ok((BlockFlavor::Dedicated(block), n))
            },
            Err(e) => Err(e),
        }
    }

    /// Return `block` to the sub-allocator it came from. Returns the bytes
    /// the heap gets back.
    fn free<D: RawDevice>(&mut self, device: &D, block: BlockFlavor) -> (r: u64)
        requires
            old(self).wf(),
        ensures
            final(self).wf(),
            r == old(self).released_by(block.flavor(), block.region().memory),
            r <= old(self).usage(),
            final(self).usage() == old(self).usage() - r,
            forall|g: Flavor, m: u64|
                g != block.flavor() || m != block.region().memory ==> #[trigger] final(self).released_by(g, m)
                    == old(self).released_by(g, m),
            block.flavor() != Flavor::Dedicated ==> final(self).dedicated == old(self).dedicated,
            block.flavor() != Flavor::Arena ==> final(self).arena == old(self).arena,
            block.flavor() != Flavor::Dynamic ==> final(self).dynamic == old(self).dynamic,
            final(self).live_of(block.flavor()) == dec(old(self).live_of(block.flavor())),
            forall|f: Flavor| f != block.flavor() ==> #[trigger] final(self).live_of(f) == old(self).live_of(f),
            final(self).index == old(self).index,
            final(self).heap_index == old(self).heap_index,
            final(self).properties == old(self).properties,
            final(self).arena_max() == old(self).arena_max(),
            final(self).dynamic_max() == old(self).dynamic_max(),
    {
        proof {
            self.lemma_usage_nonneg();
            self.dedicated.lemma_usage_nonneg();
            if self.arena is Some {
                let a = self.arena->Some_0;
                lemma_chunks_add(a.chunk_count_spec() as int, a.config_spec().chunk_size as int);
            }
            if self.dynamic is Some {
                let d = self.dynamic->Some_0;
                lemma_chunks_add(d.chunk_count_spec() as int, d.config_spec().chunk_size as int);
            }
        }
        match block {
            BlockFlavor::Dedicated(b) => self.dedicated.free(device, b),
            BlockFlavor::Arena(b) => match &mut self.arena {
                Some(arena) => arena.free(device, b),
                None => 0,
            },
            BlockFlavor::Dynamic(b) => match &mut self.dynamic {
                Some(dynamic) => dynamic.free(device, b),
                None => 0,
            },
        }
    }

    fn dispose<D: RawDevice>(self, device: &D)
        requires
            self.live() == 0,
    {
        self.dedicated.dispose(device);
        match self.arena {
            Some(arena) => arena.dispose(device),
            None => {},
        }
        match self.dynamic {
            Some(dynamic) => dynamic.dispose(device),
            None => {},
        }
    }
}

/// Usage of the types of `s` backed by heap `h`.
spec fn heap_total(s: Seq<MemoryType>, h: int) -> int
    decreases s.len(),
{
    if s.len() == 0 {
        0
    } else {
        heap_total(s.drop_last(), h) + if s.last().heap_index == h {
            s.last().usage()
        } else {
            0
        }
    }
}

proof fn lemma_heap_total_update(s: Seq<MemoryType>, t: int, x: MemoryType, h: int)
    requires
        0 <= t < s.len(),
        x.heap_index == s[t].heap_index,
    ensures
        heap_total(s.update(t, x), h) == heap_total(s, h) + if s[t].heap_index == h {
            x.usage() - s[t].usage()
        } else {
            0
        },
    decreases s.len(),
{
    let u = s.update(t, x);
    if t < s.len() - 1 {
        lemma_heap_total_update(s.drop_last(), t, x, h);
        assert(u.drop_last() =~= s.drop_last().update(t, x));
        assert(u.last() == s.last());
    } else {
        assert(u.drop_last() =~= s.drop_last());
    }
}

proof fn lemma_heap_total_bound(s: Seq<MemoryType>, t: int)
    requires
        0 <= t < s.len(),
        forall|i: int| 0 <= i < s.len() ==> (#[trigger] s[i]).usage() >= 0,
    ensures
        heap_total(s, s[t].heap_index as int) >= s[t].usage(),
    decreases s.len(),
{
    lemma_heap_total_nonneg(s.drop_last(), s[t].heap_index as int);
    if t < s.len() - 1 {
        assert forall|i: int| 0 <= i < s.drop_last().len() implies (#[trigger] s.drop_last()[i]).usage() >= 0 by {
            assert(s.drop_last()[i] == s[i]);
        }
        lemma_heap_total_bound(s.drop_last(), t);
        assert(s.drop_last()[t] == s[t]);
    }
}

proof fn lemma_heap_total_nonneg(s: Seq<MemoryType>, h: int)
    requires
        forall|i: int| 0 <= i < s.len() ==> (#[trigger] s[i]).usage() >= 0,
    ensures
        heap_total(s, h) >= 0,
    decreases s.len(),
{
    if s.len() > 0 {
        assert forall|i: int| 0 <= i < s.drop_last().len() implies (#[trigger] s.drop_last()[i]).usage() >= 0 by {
            assert(s.drop_last()[i] == s[i]);
        }
        lemma_heap_total_nonneg(s.drop_last(), h);
    }
}

/// Whether bit `i` of `mask` is set.
pub open spec fn mask_has(mask: u32, i: int) -> bool {
    mask & (1u32 << (i as u32)) != 0
}

/// Heaps available on particular physical device.
pub struct Heaps {
    types: Vec<MemoryType>,
    heaps: Vec<MemoryHeap>,
}

impl Heaps {
    pub closed spec fn type_count(&self) -> nat {
        self.types@.len()
    }

    pub closed spec fn heap_count(&self) -> nat {
        self.heaps@.len()
    }

    pub closed spec fn heap_size(&self, h: int) -> u64 {
        self.heaps@[h].size
    }

    pub closed spec fn heap_used(&self, h: int) -> u64 {
        self.heaps@[h].used
    }

    /// The heap that backs memory type `t`.
    pub closed spec fn type_heap(&self, t: int) -> int {
        self.types@[t].heap_index as int
    }

    pub closed spec fn type_properties(&self, t: int) -> Properties {
        self.types@[t].properties
    }

    /// Largest request the arena of type `t` serves, if it has one.
    pub closed spec fn arena_max(&self, t: int) -> Option<u64> {
        self.types@[t].arena_max()
    }

    /// Largest request the dynamic allocator of type `t` serves, if it has one.
    pub closed spec fn dynamic_max(&self, t: int) -> Option<u64> {
        self.types@[t].dynamic_max()
    }

    /// Number of blocks of type `t` handed out and not yet freed.
    pub closed spec fn live(&self, t: int) -> nat {
        self.types@[t].live()
    }

    /// Number of blocks of type `t` from sub-allocator `f` handed out and not
    /// yet freed.
    pub closed spec fn flavor_live(&self, t: int, f: Flavor) -> nat {
        self.types@[t].live_of(f)
    }

    /// The blocks of a type in use are those of its three sub-allocators.
    pub proof fn lemma_live_by_flavor(&self, t: int)
        ensures
            self.live(t) == self.flavor_live(t, Flavor::Dedicated) + self.flavor_live(t, Flavor::Arena)
                + self.flavor_live(t, Flavor::Dynamic),
    {
    }

    pub closed spec fn wf(&self) -> bool {
        &&& self.types@.len() <= 32
        &&& forall|t: int|
            0 <= t < self.types@.len() ==> {
                &&& (#[trigger] self.types@[t]).wf()
                &&& self.types@[t].index == t
                &&& self.types@[t].heap_index < self.heaps@.len()
            }
        &&& forall|h: int| 0 <= h < self.heaps@.len() ==> (#[trigger] self.heaps@[h]).used <= self.heaps@[h].size
        &&& forall|h: int| 0 <= h < self.heaps@.len() ==> (#[trigger] self.heaps@[h]).used == heap_total(self.types@, h)
    }

    /// The heaps and memory types are those of `o`; only usage has changed.
    pub open spec fn same_layout(&self, o: &Heaps) -> bool {
        &&& self.type_count() == o.type_count()
        &&& self.heap_count() == o.heap_count()
        &&& forall|h: int| 0 <= h < self.heap_count() ==> #[trigger] self.heap_size(h) == o.heap_size(h)
        &&& forall|t: int|
            #![trigger self.type_heap(t)]
            #![trigger self.type_properties(t)]
            #![trigger self.arena_max(t)]
            #![trigger self.dynamic_max(t)]
            0 <= t < self.type_count() ==> {
                &&& self.type_heap(t) == o.type_heap(t)
                &&& self.type_properties(t) == o.type_properties(t)
                &&& self.arena_max(t) == o.arena_max(t)
                &&& self.dynamic_max(t) == o.dynamic_max(t)
            }
    }

    /// Type `t` is in `mask` and has a fitness for `usage`.
    pub open spec fn eligible(&self, mask: u32, usage: UsageValue, t: int) -> bool {
        &&& 0 <= t < self.type_count()
        &&& mask_has(mask, t)
        &&& fitness_spec(usage, self.type_properties(t)) is Some
    }

    pub open spec fn fit(&self, usage: UsageValue, t: int) -> u32 {
        match fitness_spec(usage, self.type_properties(t)) {
            Some(f) => f,
            None => 0,
        }
    }

    /// The heap of type `t` has more than `size + align` bytes available.
    pub open spec fn has_room(&self, t: int, size: u64, align: u64) -> bool {
        self.heap_size(self.type_heap(t)) - self.heap_used(self.type_heap(t)) > size + align
    }

    /// Type `t` is the one a request picks: eligible, with room, of greatest
    /// fitness, and of lowest index among those as fit.
    pub open spec fn is_best(&self, mask: u32, usage: UsageValue, size: u64, align: u64, t: int) -> bool {
        &&& self.eligible(mask, usage, t)
        &&& self.has_room(t, size, align)
        &&& forall|j: int|
            #![trigger self.eligible(mask, usage, j)]
            self.eligible(mask, usage, j) && self.has_room(j, size, align) ==> {
                ||| self.fit(usage, j) < self.fit(usage, t)
                ||| (self.fit(usage, j) == self.fit(usage, t) && t <= j)
            }
    }

    /// The eligible types below `n`, with their fitness, by increasing index.
    pub open spec fn eligible_prefix(&self, mask: u32, usage: UsageValue, n: int) -> Seq<(usize, u32)>
        decreases n,
    {
        if n <= 0 {
            Seq::empty()
        } else {
            let p = self.eligible_prefix(mask, usage, n - 1);
            if self.eligible(mask, usage, n - 1) {
                p.push(((n - 1) as usize, self.fit(usage, n - 1)))
            } else {
                p
            }
        }
    }

    proof fn lemma_eligible_prefix(&self, mask: u32, usage: UsageValue, n: int)
        requires
            0 <= n <= self.type_count(),
            self.type_count() <= 32,
        ensures
            self.eligible_prefix(mask, usage, n).len() <= n,
            forall|k: int|
                0 <= k < self.eligible_prefix(mask, usage, n).len() ==> {
                    let e = #[trigger] self.eligible_prefix(mask, usage, n)[k];
                    &&& e.0 < n
                    &&& self.eligible(mask, usage, e.0 as int)
                    &&& e.1 == self.fit(usage, e.0 as int)
                },
            forall|k1: int, k2: int|
                0 <= k1 < k2 < self.eligible_prefix(mask, usage, n).len() ==> (
                #[trigger] self.eligible_prefix(mask, usage, n)[k1]).0 < (
                #[trigger] self.eligible_prefix(mask, usage, n)[k2]).0,
            forall|t: int|
                0 <= t < n && #[trigger] self.eligible(mask, usage, t) ==> exists|k: int|
                    0 <= k < self.eligible_prefix(mask, usage, n).len() && (
                    #[trigger] self.eligible_prefix(mask, usage, n)[k]).0 == t,
        decreases n,
    {
        if n > 0 {
            self.lemma_eligible_prefix(mask, usage, n - 1);
            let p = self.eligible_prefix(mask, usage, n - 1);
            let q = self.eligible_prefix(mask, usage, n);
            assert forall|t: int|
                0 <= t < n && #[trigger] self.eligible(mask, usage, t) implies exists|k: int|
                    0 <= k < q.len() && (#[trigger] q[k]).0 == t by {
                if t < n - 1 {
                    let k = choose|k: int| 0 <= k < p.len() && (#[trigger] p[k]).0 == t;
                    assert(q[k] == p[k]);
                } else {
                    assert(q[q.len() - 1].0 == t);
                }
            }
        }
    }
    /// Bytes the heap gets back if block `b` is freed now: the size of a
    /// dedicated block; for a block of the arena or the dynamic allocator,
    /// its chunk where the block is the chunk's last, else nothing.
    pub closed spec fn release_of_block(&self, b: BlockView) -> u64 {
        self.types@[b.memory_index as int].released_by(b.flavor, b.region.memory)
    }

    /// The sub-allocator of type `t` that serves the request can do so
    /// without asking the device for memory.
    pub closed spec fn placeable(&self, t: int, usage: UsageValue, size: u64, align: u64) -> bool {
        self.types@[t].placeable(usage, size, align)
    }

    /// Size of the chunks of sub-allocator `f` of type `t`; zero for
    /// dedicated blocks or a sub-allocator the type lacks.
    pub closed spec fn chunk_size_of(&self, t: int, f: Flavor) -> u64 {
        self.types@[t].chunk_size_of(f)
    }

    /// The sub-allocator of type `t` that serves the request needs a new
    /// chunk larger than the bytes its heap has available.
    pub closed spec fn needs_room(&self, t: int, usage: UsageValue, size: u64, align: u64) -> bool {
        let h = self.types@[t].heap_index as int;
        self.types@[t].needs_room(usage, size, align, (self.heaps@[h].size - self.heaps@[h].used) as u64)
    }

    /// Nothing in `self` differs from `o`.
    pub closed spec fn unchanged_from(&self, o: &Heaps) -> bool {
        &&& self.types@ == o.types@
        &&& self.heaps@ == o.heaps@
    }

    /// Every block other than those in memory object `m` of sub-allocator
    /// `f` of type `t` gives back the same in `self` as in `o`.
    pub open spec fn releases_kept(&self, o: &Heaps, t: int, f: Flavor, m: u64) -> bool {
        forall|b: BlockView|
            0 <= b.memory_index < o.type_count() && (b.memory_index != t || b.flavor != f
                || b.region.memory != m) ==> #[trigger] self.release_of_block(b) == o.release_of_block(b)
    }

    /// Heap usage after `b` was allocated: its heap grew by the bytes that
    /// freeing `b` would give back, the others stayed as they were.
    pub open spec fn used_after_allocate(&self, o: &Heaps, b: BlockView) -> bool {
        let h = o.type_heap(b.memory_index as int);
        &&& self.heap_used(h) == o.heap_used(h) + self.release_of_block(b)
        &&& forall|g: int| 0 <= g < o.heap_count() && g != h ==> #[trigger] self.heap_used(g) == o.heap_used(g)
    }

    /// Heap usage after `b` was freed: its heap shrank by exactly the bytes
    /// that freeing gave back, which it held; the others stayed as they were.
    pub open spec fn used_after_free(&self, o: &Heaps, b: BlockView) -> bool {
        let h = o.type_heap(b.memory_index as int);
        &&& o.release_of_block(b) <= o.heap_used(h)
        &&& self.heap_used(h) == o.heap_used(h) - o.release_of_block(b)
        &&& forall|g: int| 0 <= g < o.heap_count() && g != h ==> #[trigger] self.heap_used(g) == o.heap_used(g)
    }

    /// Memory types are given as (properties, heap index, config) and heaps
    /// by their size, both in the order the device reports them.
    pub fn new(types: Vec<(Properties, u32, Config)>, heaps: Vec<u64>) -> (r: Heaps)
        requires
            types@.len() <= 32,
            forall|t: int| 0 <= t < types@.len() ==> (#[trigger] types@[t]).1 < heaps@.len(),
        ensures
            r.wf(),
            r.type_count() == types@.len(),
            r.heap_count() == heaps@.len(),
            forall|h: int| 0 <= h < heaps@.len() ==> #[trigger] r.heap_size(h) == heaps@[h],
            forall|h: int| 0 <= h < heaps@.len() ==> #[trigger] r.heap_used(h) == 0,
            forall|t: int|
                #![trigger r.type_heap(t)]
                #![trigger r.type_properties(t)]
                #![trigger r.arena_max(t)]
                #![trigger r.dynamic_max(t)]
                #![trigger r.live(t)]
                0 <= t < types@.len() ==> {
                    &&& r.type_heap(t) == types@[t].1
                    &&& r.type_properties(t) == types@[t].0
                    &&& r.arena_max(t) == types@[t].2.arena_max_for(types@[t].0)
                    &&& r.dynamic_max(t) == types@[t].2.dynamic_max_for()
                    &&& r.live(t) == 0
                    &&& (r.arena_max(t) is Some ==> r.chunk_size_of(t, Flavor::Arena)
                        == types@[t].2.arena->Some_0.chunk_size)
                    &&& (r.dynamic_max(t) is Some ==> r.chunk_size_of(t, Flavor::Dynamic)
                        == types@[t].2.dynamic->Some_0.chunk_size)
                },
            forall|b: BlockView| 0 <= b.memory_index < types@.len() ==> #[trigger] r.release_of_block(b) == 0,
            forall|t: int, u: UsageValue, s: u64, a: u64|
                0 <= t < types@.len() ==> !#[trigger] r.placeable(t, u, s, a),
    {
        let mut hs: Vec<MemoryHeap> = Vec::new();
        let mut i: usize = 0;
        while i < heaps.len()
            invariant
                i <= heaps.len(),
                hs@.len() == i,
                forall|h: int| 0 <= h < i ==> (#[trigger] hs@[h]).size == heaps@[h] && hs@[h].used == 0,
            decreases heaps.len() - i,
        {
            hs.push(MemoryHeap::new(heaps[i]));
            i = i + 1;
        }
        let mut ts: Vec<MemoryType> = Vec::new();
        let mut t: usize = 0;
        while t < types.len()
            invariant
                t <= types.len() <= 32,
                hs@.len() == heaps@.len(),
                ts@.len() == t,
                forall|k: int| 0 <= k < types@.len() ==> (#[trigger] types@[k]).1 < heaps@.len(),
                forall|k: int|
                    0 <= k < t ==> {
                        &&& (#[trigger] ts@[k]).wf()
                        &&& ts@[k].index == k
                        &&& ts@[k].heap_index == types@[k].1
                        &&& ts@[k].properties == types@[k].0
                        &&& ts@[k].arena_max() == types@[k].2.arena_max_for(types@[k].0)
                        &&& ts@[k].dynamic_max() == types@[k].2.dynamic_max_for()
                        &&& ts@[k].live() == 0
                    },
                forall|h: int| #[trigger] heap_total(ts@, h) == 0,
                forall|k: int, f: Flavor, m: u64| 0 <= k < t ==> #[trigger] ts@[k].released_by(f, m) == 0,
                forall|k: int, u: UsageValue, s: u64, a: u64| 0 <= k < t ==> !#[trigger] ts@[k].placeable(u, s, a),
                forall|k: int|
                    0 <= k < t ==> (#[trigger] ts@[k]).arena_max() is Some ==> ts@[k].chunk_size_of(Flavor::Arena)
                        == types@[k].2.arena->Some_0.chunk_size,
                forall|k: int|
                    0 <= k < t ==> (#[trigger] ts@[k]).dynamic_max() is Some ==> ts@[k].chunk_size_of(Flavor::Dynamic)
                        == types@[k].2.dynamic->Some_0.chunk_size,
            decreases types.len() - t,
        {
            let (properties, heap_index, config) = types[t];
            let ghost before = ts@;
            ts.push(MemoryType::new(t as u32, heap_index as usize, properties, config));
            proof {
                assert(ts@.drop_last() =~= before);
                assert forall|h: int| #[trigger] heap_total(ts@, h) == 0 by {
                    assert(heap_total(before, h) == 0);
                }
            }
            t = t + 1;
        }
        Heaps { types: ts, heaps: hs }
    }

    /// Number of memory types.
    pub fn memory_type_count(&self) -> (r: usize)
        ensures
            r == self.type_count(),
    {
        self.types.len()
    }

    /// Bytes of heap `heap` in use.
    pub fn used(&self, heap: usize) -> (r: u64)
        requires
            heap < self.heap_count(),
        ensures
            r == self.heap_used(heap as int),
    {
        self.heaps[heap].used
    }

    /// Total bytes of heap `heap`.
    pub fn size(&self, heap: usize) -> (r: u64)
        requires
            heap < self.heap_count(),
        ensures
            r == self.heap_size(heap as int),
    {
        self.heaps[heap].size
    }

    /// Allocate memory block
    /// from one of memory types specified by `mask`,
    /// for intended `usage`,
    /// with `size`
    /// and `align` requirements.
    ///
    /// Of the types in `mask` with a fitness for `usage` whose heap has more
    /// than `size + align` bytes available, the fittest is used; among equally
    /// fit types, the one of lowest index.
    pub fn allocate<D: RawDevice>(
        &mut self,
        device: &D,
        mask: u32,
        usage: UsageValue,
        size: u64,
        align: u64,
    ) -> (r: Result<MemoryBlock, MemoryError>)
        requires
            old(self).wf(),
        ensures
            final(self).wf(),
            final(self).same_layout(old(self)),
            (forall|t: int| !#[trigger] old(self).eligible(mask, usage, t)) <==> r == Err::<
                MemoryBlock,
                MemoryError,
            >(MemoryError::NoSuitableMemory(mask, usage)),
            ((exists|t: int| #[trigger] old(self).eligible(mask, usage, t)) && (forall|t: int|
                #[trigger] old(self).eligible(mask, usage, t) ==> !old(self).has_room(t, size, align)))
                ==> r == Err::<MemoryBlock, MemoryError>(MemoryError::HeapsExhausted),
            forall|t: int|
                old(self).is_best(mask, usage, size, align, t) && #[trigger] old(self).placeable(
                    t,
                    usage,
                    size,
                    align,
                ) ==> r is Ok,
            forall|t: int|
                old(self).is_best(mask, usage, size, align, t) && #[trigger] old(self).needs_room(
                    t,
                    usage,
                    size,
                    align,
                ) ==> r == Err::<MemoryBlock, MemoryError>(MemoryError::HeapsExhausted),
            r == Err::<MemoryBlock, MemoryError>(MemoryError::NoSuitableMemory(mask, usage)) ==> *final(self)
                == *old(self),
            ((exists|t: int| #[trigger] old(self).eligible(mask, usage, t)) && (forall|t: int|
                #[trigger] old(self).eligible(mask, usage, t) ==> !old(self).has_room(t, size, align)))
                ==> *final(self) == *old(self),
            r matches Err(e) ==> {
                &&& (is_oom(e) ==> exists|t: int| old(self).is_best(mask, usage, size, align, t))
                &&& (e == MemoryError::HeapsExhausted ==> (exists|t: int| #[trigger] old(self).eligible(mask, usage, t))
                    && ((forall|t: int| #[trigger] old(self).eligible(mask, usage, t) ==> !old(self).has_room(t, size, align))
                    || exists|t: int| old(self).is_best(mask, usage, size, align, t) && #[trigger] old(self).needs_room(t, usage, size, align)))
                &&& final(self).unchanged_from(old(self))
                &&& forall|h: int| 0 <= h < old(self).heap_count() ==> #[trigger] final(self).heap_used(h) == old(self).heap_used(h)
                &&& forall|t: int| 0 <= t < old(self).type_count() ==> #[trigger] final(self).live(t) == old(self).live(t)
                &&& forall|t: int, f: Flavor| 0 <= t < old(self).type_count() ==> #[trigger] final(self).flavor_live(t, f) == old(self).flavor_live(t, f)
            },
            r matches Ok(b) ==> {
                let t = b@.memory_index as int;
                &&& old(self).is_best(mask, usage, size, align, t)
                &&& b@.flavor == route(usage, size, old(self).arena_max(t), old(self).dynamic_max(t))
                &&& reserve_bounds(b@.region.reserved, size, align)
                &&& (align > 0 ==> b@.region.start % align == 0)
                &&& (b@.flavor == Flavor::Dedicated ==> final(self).release_of_block(b@) == size
                    && b@.region.reserved == size)
                &&& b@.region.end - b@.region.start == size
                &&& b@.region.properties == old(self).type_properties(t)
                &&& b@.region.mapping.is_none()
                &&& final(self).releases_kept(old(self), t, b@.flavor, b@.region.memory)
                &&& (b@.flavor == Flavor::Dedicated ==> final(self).release_of_block(b@) == size)
                &&& (b@.flavor != Flavor::Dedicated ==> (old(self).placeable(t, usage, size, align)
                    ==> final(self).release_of_block(b@) == 0) && (!old(self).placeable(t, usage, size, align)
                    ==> final(self).release_of_block(b@) == old(self).chunk_size_of(t, b@.flavor)))
                &&& final(self).used_after_allocate(old(self), b@)
                &&& final(self).live(t) == old(self).live(t) + 1
                &&& final(self).flavor_live(t, b@.flavor) == old(self).flavor_live(t, b@.flavor) + 1
                &&& forall|f: Flavor| f != b@.flavor ==> #[trigger] final(self).flavor_live(t, f) == old(self).flavor_live(t, f)
                &&& forall|j: int| 0 <= j < old(self).type_count() && j != t ==> #[trigger] final(self).live(j) == old(self).live(j)
                &&& forall|j: int, f: Flavor| 0 <= j < old(self).type_count() && j != t ==> #[trigger] final(self).flavor_live(j, f) == old(self).flavor_live(j, f)
            },
    {
        let n = self.types.len();
        let mut suitable = candidates_new();
        let mut t: usize = 0;
        while t < n
            invariant
                n == self.types@.len() <= 32,
                t <= n,
                self.wf(),
                candidate_items(suitable) == self.eligible_prefix(mask, usage, t as int),
            decreases n - t,
        {
            if mask & (1u32 << (t as u32)) != 0 {
                match usage.memory_fitness(self.types[t].properties) {
                    Some(fitness) => {
                        proof {
                            self.lemma_eligible_prefix(mask, usage, t as int);
                        }
                        candidates_push(&mut suitable, (t, fitness));
                    },
                    None => {},
                }
            }
            t = t + 1;
        }
        proof {
            self.lemma_eligible_prefix(mask, usage, n as int);
        }
        let ghost items = candidate_items(suitable);
        let slice = candidates_as_slice(&suitable);
        if slice.len() == 0 {
            proof {
                assert forall|t: int| !#[trigger] self.eligible(mask, usage, t) by {
                    if self.eligible(mask, usage, t) {
                        let k = choose|k: int| 0 <= k < items.len() && (#[trigger] items[k]).0 == t;
                    }
                }
            }
            return Err(MemoryError::NoSuitableMemory(mask, usage));
        }
        let mut best: Option<(usize, u32)> = None;
        let ghost mut best_k: int = 0;
        let mut k: usize = 0;
        while k < slice.len()
            invariant
                slice@ == items,
                items == self.eligible_prefix(mask, usage, n as int),
                n == self.types@.len() <= 32,
                self.wf(),
                k <= slice.len(),
                forall|i: int|
                    0 <= i < items.len() ==> {
                        let e = #[trigger] items[i];
                        &&& e.0 < n
                        &&& self.eligible(mask, usage, e.0 as int)
                        &&& e.1 == self.fit(usage, e.0 as int)
                    },
                forall|k1: int, k2: int| 0 <= k1 < k2 < items.len() ==> (#[trigger] items[k1]).0 < (#[trigger] items[k2]).0,
                best is None ==> forall|i: int| 0 <= i < k ==> !self.has_room(#[trigger] items[i].0 as int, size, align),
                best matches Some((bt, bf)) ==> {
                    &&& 0 <= best_k < k
                    &&& items[best_k] == (bt, bf)
                    &&& self.has_room(bt as int, size, align)
                    &&& forall|i: int|
                        0 <= i < k && self.has_room(#[trigger] items[i].0 as int, size, align) ==> {
                            ||| items[i].1 < bf
                            ||| (items[i].1 == bf && best_k <= i)
                        }
                },
            decreases slice.len() - k,
        {
            let (ti, fitness) = slice[k];
            let heap = &self.heaps[self.types[ti].heap_index];
            let available = heap.available();
            if align < available && size < available - align {
                let replace = match best {
                    None => true,
                    Some((_, bf)) => fitness > bf,
                };
                if replace {
                    best = Some((ti, fitness));
                    proof {
                        best_k = k as int;
                    }
                }
            }
            k = k + 1;
        }
        match best {
            None => {
                proof {
                    assert forall|t: int| #[trigger] self.eligible(mask, usage, t) implies !self.has_room(t, size, align) by {
                        let k = choose|k: int| 0 <= k < items.len() && (#[trigger] items[k]).0 == t;
                        assert(!self.has_room(items[k].0 as int, size, align));
                    }
                    assert(self.eligible(mask, usage, items[0].0 as int));
                }
                Err(MemoryError::HeapsExhausted)
            },
            Some((ti, _)) => {
                proof {
                    assert forall|j: int|
                        #![trigger self.eligible(mask, usage, j)]
                        self.eligible(mask, usage, j) && self.has_room(j, size, align) implies {
                            ||| self.fit(usage, j) < self.fit(usage, ti as int)
                            ||| (self.fit(usage, j) == self.fit(usage, ti as int) && ti as int <= j)
                        } by {
                        let k = choose|k: int| 0 <= k < items.len() && (#[trigger] items[k]).0 == j;
                        assert(self.has_room(items[k].0 as int, size, align));
                        if items[k].1 == items[best_k].1 {
                            assert(best_k <= k);
                            if best_k < k {
                                assert(items[best_k].0 < items[k].0);
                            }
                        }
                    }
                    assert(self.is_best(mask, usage, size, align, ti as int));
                    assert(self.eligible(mask, usage, ti as int));
                    assert forall|t: int| #[trigger] self.is_best(mask, usage, size, align, t) implies t
                        == ti by {
                        assert(self.eligible(mask, usage, t));
                        assert(self.eligible(mask, usage, ti as int));
                    }
                }
                self.allocate_from(device, ti, usage, size, align)
            },
        }
    }
    /// Allocate from memory type `memory_index`; fails where its heap has
    /// fewer than `size` bytes available.
    fn allocate_from<D: RawDevice>(
        &mut self,
        device: &D,
        memory_index: usize,
        usage: UsageValue,
        size: u64,
        align: u64,
    ) -> (r: Result<MemoryBlock, MemoryError>)
        requires
            old(self).wf(),
            memory_index < old(self).type_count(),
        ensures
            final(self).wf(),
            final(self).same_layout(old(self)),
            ({
                let h = old(self).type_heap(memory_index as int);
                old(self).heap_size(h) - old(self).heap_used(h) < size
            }) ==> r == Err::<MemoryBlock, MemoryError>(MemoryError::HeapsExhausted),
            ({
                let h = old(self).type_heap(memory_index as int);
                old(self).heap_size(h) - old(self).heap_used(h) >= size
            }) && old(self).placeable(memory_index as int, usage, size, align) ==> r is Ok,
            ({
                let h = old(self).type_heap(memory_index as int);
                old(self).heap_size(h) - old(self).heap_used(h) >= size
            }) ==> (old(self).needs_room(memory_index as int, usage, size, align) <==> r == Err::<
                MemoryBlock,
                MemoryError,
            >(MemoryError::HeapsExhausted)),
            r matches Err(e) ==> {
                &&& is_oom(e) || e == MemoryError::HeapsExhausted
                &&& final(self).unchanged_from(old(self))
                &&& forall|h: int| 0 <= h < old(self).heap_count() ==> #[trigger] final(self).heap_used(h) == old(self).heap_used(h)
                &&& forall|t: int| 0 <= t < old(self).type_count() ==> #[trigger] final(self).live(t) == old(self).live(t)
                &&& forall|t: int, f: Flavor| 0 <= t < old(self).type_count() ==> #[trigger] final(self).flavor_live(t, f) == old(self).flavor_live(t, f)
            },
            r matches Ok(b) ==> {
                let t = memory_index as int;
                &&& b@.memory_index == memory_index
                &&& b@.flavor == route(usage, size, old(self).arena_max(t), old(self).dynamic_max(t))
                &&& reserve_bounds(b@.region.reserved, size, align)
                &&& (align > 0 ==> b@.region.start % align == 0)
                &&& (b@.flavor == Flavor::Dedicated ==> final(self).release_of_block(b@) == size
                    && b@.region.reserved == size)
                &&& b@.region.end - b@.region.start == size
                &&& b@.region.properties == old(self).type_properties(t)
                &&& b@.region.mapping.is_none()
                &&& final(self).releases_kept(old(self), t, b@.flavor, b@.region.memory)
                &&& (b@.flavor == Flavor::Dedicated ==> final(self).release_of_block(b@) == size)
                &&& (b@.flavor != Flavor::Dedicated ==> (old(self).placeable(t, usage, size, align)
                    ==> final(self).release_of_block(b@) == 0) && (!old(self).placeable(t, usage, size, align)
                    ==> final(self).release_of_block(b@) == old(self).chunk_size_of(t, b@.flavor)))
                &&& final(self).used_after_allocate(old(self), b@)
                &&& final(self).live(t) == old(self).live(t) + 1
                &&& final(self).flavor_live(t, b@.flavor) == old(self).flavor_live(t, b@.flavor) + 1
                &&& forall|f: Flavor| f != b@.flavor ==> #[trigger] final(self).flavor_live(t, f) == old(self).flavor_live(t, f)
                &&& forall|j: int| 0 <= j < old(self).type_count() && j != t ==> #[trigger] final(self).live(j) == old(self).live(j)
                &&& forall|j: int, f: Flavor| 0 <= j < old(self).type_count() && j != t ==> #[trigger] final(self).flavor_live(j, f) == old(self).flavor_live(j, f)
            },
    {
        let heap_index = self.types[memory_index].heap_index;
        let available = self.heaps[heap_index].available();
        if available < size {
            return Err(MemoryError::HeapsExhausted);
        }
        let result = self.types[memory_index].allocate(device, usage, size, align, available);
        proof {
            assert forall|t: int| 0 <= t < self.types@.len() implies {
                &&& (#[trigger] self.types@[t]).wf()
                &&& self.types@[t].index == t
                &&& self.types@[t].heap_index < self.heaps@.len()
            } by {
                if t != memory_index {
                    assert(self.types@[t] == old(self).types@[t]);
                }
            }
        }
        match result {
            Ok((block, n)) => {
                let heap = self.heaps[heap_index];
                self.heaps.set(heap_index, MemoryHeap { size: heap.size, used: heap.used + n });
                proof {
                    assert(self.types@ =~= old(self).types@.update(memory_index as int, self.types@[memory_index as int]));
                    assert forall|h: int| 0 <= h < self.heaps@.len() implies (#[trigger] self.heaps@[h]).used
                        == heap_total(self.types@, h) by {
                        lemma_heap_total_update(old(self).types@, memory_index as int, self.types@[memory_index as int], h);
                        if h == heap_index {
                            assert(self.types@[memory_index as int].usage() == old(self).types@[memory_index as int].usage() + n);
                        } else {
                            assert(self.heaps@[h] == old(self).heaps@[h]);
                        }
                    }
                    assert forall|h: int| 0 <= h < self.heaps@.len() implies (#[trigger] self.heaps@[h]).used <= self.heaps@[h].size by {
                        if h != heap_index {
                            assert(self.heaps@[h] == old(self).heaps@[h]);
                        }
                    }
                }
                Ok(MemoryBlock::new(block, memory_index as u32))
            },
            Err(e) => {
                proof {
                    assert(self.types@ =~= old(self).types@);
                }
                Err(e)
            },
        }
    }

    /// Free memory block.
    ///
    /// Memory block must be allocated from this heap.
    pub fn free<D: RawDevice>(&mut self, device: &D, block: MemoryBlock)
        requires
            old(self).wf(),
            block@.memory_index < old(self).type_count(),
        ensures
            final(self).wf(),
            final(self).same_layout(old(self)),
            final(self).used_after_free(old(self), block@),
            final(self).releases_kept(old(self), block@.memory_index as int, block@.flavor, block@.region.memory),
            forall|t: int, f: Flavor|
                0 <= t < old(self).type_count() ==> #[trigger] final(self).flavor_live(t, f) == if t
                    == block@.memory_index && f == block@.flavor {
                    dec(old(self).flavor_live(t, f))
                } else {
                    old(self).flavor_live(t, f)
                },
    {
        let memory_index = block.memory_type() as usize;
        let heap_index = self.types[memory_index].heap_index;
        let freed = self.types[memory_index].free(device, block.into_flavor());
        proof {
            assert forall|t: int| 0 <= t < self.types@.len() implies {
                &&& (#[trigger] self.types@[t]).wf()
                &&& self.types@[t].index == t
                &&& self.types@[t].heap_index < self.heaps@.len()
            } by {
                if t != memory_index {
                    assert(self.types@[t] == old(self).types@[t]);
                }
            }
        }
        proof {
            assert forall|i: int| 0 <= i < old(self).types@.len() implies (#[trigger] old(self).types@[i]).usage() >= 0 by {
                old(self).types@[i].lemma_usage_nonneg();
            }
            lemma_heap_total_bound(old(self).types@, memory_index as int);
            assert(self.types@ =~= old(self).types@.update(memory_index as int, self.types@[memory_index as int]));
            assert forall|h: int| #[trigger] heap_total(self.types@, h) == heap_total(old(self).types@, h) - if h
                == heap_index {
                freed as int
            } else {
                0
            } by {
                lemma_heap_total_update(old(self).types@, memory_index as int, self.types@[memory_index as int], h);
            }
        }
        let heap = self.heaps[heap_index];
        self.heaps.set(heap_index, MemoryHeap { size: heap.size, used: heap.used - freed });
    }

    /// Dispose of allocator.
    /// Every block must have been freed.
    pub fn dispose<D: RawDevice>(self, device: &D)
        requires
            forall|t: int| 0 <= t < self.type_count() ==> #[trigger] self.live(t) == 0,
    {
        assert forall|t: int| 0 <= t < self.types@.len() implies (#[trigger] self.types@[t]).live()
            == 0 by {
            assert(self.live(t) == 0);
        }
        let mut types = self.types;
        while types.len() > 0
            invariant
                forall|t: int| 0 <= t < types@.len() ==> (#[trigger] types@[t]).live() == 0,
            decreases types.len(),
        {
            let memory_type = types.pop().unwrap();
            memory_type.dispose(device);
        }
    }
}

/// Whatever allocations and frees were made, no heap is used beyond its
/// size.
pub proof fn lemma_heaps_within_capacity(heaps: &Heaps)
    requires
        heaps.wf(),
    ensures
        forall|h: int| 0 <= h < heaps.heap_count() ==> #[trigger] heaps.heap_used(h) <= heaps.heap_size(h),
{
}

/// Freeing the block that an allocation returned brings the usage of every
/// heap back to what it was before the allocation.
pub proof fn lemma_free_undoes_allocate(h0: &Heaps, h1: &Heaps, h2: &Heaps, b: BlockView)
    requires
        h0.wf(),
        b.memory_index < h0.type_count(),
        h1.same_layout(h0),
        h1.used_after_allocate(h0, b),
        h2.used_after_free(h1, b),
    ensures
        forall|h: int| 0 <= h < h0.heap_count() ==> #[trigger] h2.heap_used(h) == h0.heap_used(h),
{
    assert(h1.type_heap(b.memory_index as int) == h0.type_heap(b.memory_index as int));
}

/// Requests above the arena's or the dynamic allocator's largest request go
/// to a dedicated allocation; requests below it go to the arena for uploads
/// and downloads, and to the dynamic allocator for dynamic and data usage.
pub proof fn lemma_routing(usage: UsageValue, size: u64, arena_max: Option<u64>, dynamic_max: Option<u64>)
    ensures
        (usage == UsageValue::Upload || usage == UsageValue::Download) ==> {
            &&& (arena_max matches Some(m) && size > m ==> route(usage, size, arena_max, dynamic_max) == Flavor::Dedicated)
            &&& (arena_max matches Some(m) && size < m ==> route(usage, size, arena_max, dynamic_max) == Flavor::Arena)
            &&& (arena_max is None ==> route(usage, size, arena_max, dynamic_max) == Flavor::Dedicated)
        },
        (usage == UsageValue::Dynamic || usage == UsageValue::Data) ==> {
            &&& (dynamic_max matches Some(m) && size > m ==> route(usage, size, arena_max, dynamic_max) == Flavor::Dedicated)
            &&& (dynamic_max matches Some(m) && size < m ==> route(usage, size, arena_max, dynamic_max) == Flavor::Dynamic)
            &&& (dynamic_max is None ==> route(usage, size, arena_max, dynamic_max) == Flavor::Dedicated)
        },
{
}

} // verus!
