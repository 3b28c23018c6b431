use vstd::prelude::*;

use crate::block::{ArenaBlock, Region};
use crate::device::RawDevice;
use crate::errors::{is_oom, MemoryError};
use crate::usage::{Properties, HOST_VISIBLE};
use crate::util::{lemma_chunks_add, padding, padding_spec};

verus! {

/// Config for the arena sub-allocator.
#[derive(Clone, Copy, Debug, PartialEq, Eq, Structural)]
pub struct ArenaConfig {
    /// Size of each memory object that blocks are bumped into.
    pub chunk_size: u64,
    /// Largest request the arena serves.
    pub max_allocation: u64,
}

impl ArenaConfig {
    /// Largest request served: the configured maximum, but never more than
    /// one chunk holds.
    pub open spec fn limit(self) -> u64 {
        if self.max_allocation <= self.chunk_size {
            self.max_allocation
        } else {
            self.chunk_size
        }
    }
}

/// One memory object of the arena: blocks are placed one after another from
/// its start, and the object is released once none of them is in use.
struct ArenaChunk {
    memory: u64,
    cursor: u64,
    live: u64,
}

/// Bump allocator over a ring of fixed-size chunks.
pub struct ArenaAllocator {
    memory_type: u32,
    properties: Properties,
    config: ArenaConfig,
    chunks: Vec<ArenaChunk>,
    live: Ghost<nat>,
}

impl ArenaAllocator {
    pub closed spec fn config_spec(&self) -> ArenaConfig {
        self.config
    }

    pub closed spec fn memory_type_spec(&self) -> u32 {
        self.memory_type
    }

    pub closed spec fn properties_spec(&self) -> Properties {
        self.properties
    }

    /// Number of blocks handed out and not yet freed.
    pub closed spec fn live(&self) -> nat {
        self.live@
    }

    /// Number of chunks the arena holds.
    pub closed spec fn chunk_count_spec(&self) -> nat {
        self.chunks@.len()
    }

    /// The memory object of chunk `i`.
    pub closed spec fn chunk_memory(&self, i: int) -> u64 {
        self.chunks@[i].memory
    }

    /// Offset in chunk `i` after its last block.
    pub closed spec fn chunk_cursor(&self, i: int) -> u64 {
        self.chunks@[i].cursor
    }

    /// Number of blocks of chunk `i` in use.
    pub closed spec fn chunk_live(&self, i: int) -> u64 {
        self.chunks@[i].live
    }

    /// Chunks `0..n` of `self` are those of `o`.
    pub open spec fn keeps_chunks(&self, o: &ArenaAllocator, n: int) -> bool {
        forall|j: int|
            #![trigger self.chunk_memory(j)]
            #![trigger self.chunk_cursor(j)]
            #![trigger self.chunk_live(j)]
            0 <= j < n ==> {
                &&& self.chunk_memory(j) == o.chunk_memory(j)
                &&& self.chunk_cursor(j) == o.chunk_cursor(j)
                &&& self.chunk_live(j) == o.chunk_live(j)
            }
    }

    /// Chunk `ci` is the first whose memory object is `m`.
    pub open spec fn first_with(&self, ci: int, m: u64) -> bool {
        &&& 0 <= ci < self.chunk_count_spec()
        &&& self.chunk_memory(ci) == m
        &&& forall|j: int| 0 <= j < ci ==> #[trigger] self.chunk_memory(j) != m
    }

    /// Bytes taken back from the heap if the block in memory object `m` were
    /// freed now: the whole chunk where that block is its last, else none.
    pub open spec fn release_of(&self, m: u64) -> u64 {
        if exists|ci: int|
            0 <= ci < self.chunk_count_spec() && #[trigger] self.chunk_memory(ci) == m
                && self.chunk_live(ci) <= 1 {
            self.config_spec().chunk_size
        } else {
            0
        }
    }

    /// Bytes of the heap the arena holds: its chunks.
    pub open spec fn usage(&self) -> int {
        self.chunk_count_spec() * self.config_spec().chunk_size
    }

    /// The newest chunk has room for `size` bytes aligned to `align`.
    pub open spec fn fits_last(&self, size: u64, align: u64) -> bool {
        let last = self.chunk_count_spec() - 1;
        &&& self.chunk_count_spec() > 0
        &&& self.chunk_live(last) < u64::MAX
        &&& padding_spec(self.chunk_cursor(last), align) + size <= self.config_spec().chunk_size
            - self.chunk_cursor(last)
    }

    pub closed spec fn wf(&self) -> bool {
        &&& forall|i: int|
            0 <= i < self.chunks@.len() ==> #[trigger] self.chunks@[i].cursor
                <= self.config.chunk_size
        &&& forall|i: int| 0 <= i < self.chunks@.len() ==> #[trigger] self.chunks@[i].live >= 1
        &&& forall|i: int, j: int|
            0 <= i < j < self.chunks@.len() ==> (#[trigger] self.chunks@[i]).memory != (
            #[trigger] self.chunks@[j]).memory
    }

    /// Whether some chunk is memory object `m`.
    fn holds_memory(&self, m: u64) -> (r: bool)
        ensures
            r == exists|ci: int| 0 <= ci < self.chunk_count_spec() && #[trigger] self.chunk_memory(ci) == m,
    {
        let mut i: usize = 0;
        while i < self.chunks.len()
            invariant
                i <= self.chunks@.len(),
                forall|j: int| 0 <= j < i ==> #[trigger] self.chunk_memory(j) != m,
            decreases self.chunks.len() - i,
        {
            if self.chunks[i].memory == m {
                assert(self.chunk_memory(i as int) == m);
                return true;
            }
            i = i + 1;
        }
        false
    }

    proof fn lemma_same_chunks_release(a: &ArenaAllocator, b: &ArenaAllocator)
        requires
            a.chunks@ == b.chunks@,
            a.config == b.config,
        ensures
            forall|m: u64| #[trigger] a.release_of(m) == b.release_of(m),
    {
        assert forall|m: u64| #[trigger] a.release_of(m) == b.release_of(m) by {
            if exists|ci: int|
                0 <= ci < a.chunk_count_spec() && #[trigger] a.chunk_memory(ci) == m && a.chunk_live(ci) <= 1 {
                let ci = choose|ci: int|
                    0 <= ci < a.chunk_count_spec() && #[trigger] a.chunk_memory(ci) == m && a.chunk_live(ci) <= 1;
                assert(b.chunk_memory(ci) == m);
            }
            if exists|ci: int|
                0 <= ci < b.chunk_count_spec() && #[trigger] b.chunk_memory(ci) == m && b.chunk_live(ci) <= 1 {
                let ci = choose|ci: int|
                    0 <= ci < b.chunk_count_spec() && #[trigger] b.chunk_memory(ci) == m && b.chunk_live(ci) <= 1;
                assert(a.chunk_memory(ci) == m);
            }
        }
    }

    /// Properties a memory type needs for an arena: it must be host visible.
    pub fn properties_required() -> (r: Properties)
        ensures
            r.bits == HOST_VISIBLE,
    {
        Properties::from_bits(HOST_VISIBLE)
    }

    pub fn new(memory_type: u32, properties: Properties, config: ArenaConfig) -> (r: ArenaAllocator)
        ensures
            r.wf(),
            r.memory_type_spec() == memory_type,
            r.properties_spec() == properties,
            r.config_spec() == config,
            r.live() == 0,
            r.chunk_count_spec() == 0,
    {
        ArenaAllocator { memory_type, properties, config, chunks: Vec::new(), live: Ghost(0) }
    }

    /// Largest request this arena serves.
    pub fn max_allocation(&self) -> (r: u64)
        ensures
            r == self.config_spec().limit(),
    {
        if self.config.max_allocation <= self.config.chunk_size {
            self.config.max_allocation
        } else {
            self.config.chunk_size
        }
    }

    /// Number of memory objects the arena holds.
    pub fn chunk_count(&self) -> (r: usize)
        ensures
            r == self.chunk_count_spec(),
    {
        self.chunks.len()
    }

    /// Place `size` bytes aligned to `align` after the last block of the
    /// newest chunk, or at the start of a new chunk where they do not fit.
    /// Returns the block and the bytes taken from the heap for it: a whole
    /// chunk where a new one was allocated, else none. A new chunk is only
    /// allocated where the heap has `room` for it.
    pub fn allocate<D: RawDevice>(&mut self, device: &D, size: u64, align: u64, room: u64) -> (r:
        Result<(ArenaBlock, u64), MemoryError>)
        requires
            old(self).wf(),
            size <= old(self).config_spec().limit(),
        ensures
            final(self).wf(),
            final(self).config_spec() == old(self).config_spec(),
            final(self).memory_type_spec() == old(self).memory_type_spec(),
            final(self).properties_spec() == old(self).properties_spec(),
            old(self).fits_last(size, align) ==> (r matches Ok((b, n)) && n == 0 && b@.memory
                == old(self).chunk_memory(old(self).chunk_count_spec() - 1) && b@.start
                == old(self).chunk_cursor(old(self).chunk_count_spec() - 1) + padding_spec(
                old(self).chunk_cursor(old(self).chunk_count_spec() - 1),
                align,
            ) && final(self).chunk_count_spec() == old(self).chunk_count_spec()),
            !old(self).fits_last(size, align) && old(self).config_spec().chunk_size > room <==> r
                == Err::<(ArenaBlock, u64), MemoryError>(MemoryError::HeapsExhausted),
            r matches Ok((b, n)) ==> {
                &&& n <= room || n == 0
                &&& final(self).release_of(b@.memory) == n
                &&& final(self).usage() == old(self).usage() + n
                &&& (old(self).fits_last(size, align) ==> n == 0)
                &&& (!old(self).fits_last(size, align) ==> n == old(self).config_spec().chunk_size)
                &&& forall|m: u64| m != b@.memory ==> #[trigger] final(self).release_of(m) == old(self).release_of(m)
                &&& size <= b@.reserved
                &&& (align == 0 ==> b@.reserved == size)
                &&& (align > 0 ==> b@.reserved < size + align)
                &&& (align > 0 ==> b@.start % align == 0)
                &&& b@.end - b@.start == size
                &&& b@.end <= old(self).config_spec().chunk_size
                &&& b@.properties == old(self).properties_spec()
                &&& b@.mapping.is_none()
                &&& final(self).live() == old(self).live() + 1
                &&& {
                    let last = old(self).chunk_count_spec() - 1;
                    ||| {
                        &&& n == 0
                        &&& old(self).chunk_count_spec() > 0
                        &&& final(self).chunk_count_spec() == old(self).chunk_count_spec()
                        &&& b@.memory == old(self).chunk_memory(last)
                        &&& b@.start >= old(self).chunk_cursor(last)
                        &&& final(self).chunk_memory(last) == old(self).chunk_memory(last)
                        &&& final(self).chunk_cursor(last) == b@.end
                        &&& final(self).chunk_live(last) == old(self).chunk_live(last) + 1
                        &&& final(self).keeps_chunks(old(self), last)
                    }
                    ||| {
                        &&& n == old(self).config_spec().chunk_size
                        &&& final(self).chunk_count_spec() == old(self).chunk_count_spec() + 1
                        &&& b@.start == 0
                        &&& final(self).chunk_memory(last + 1) == b@.memory
                        &&& final(self).chunk_cursor(last + 1) == size
                        &&& final(self).chunk_live(last + 1) == 1
                        &&& final(self).keeps_chunks(old(self), last + 1)
                    }
                }
            },
            r matches Err(e) ==> {
                &&& is_oom(e) || e == MemoryError::HeapsExhausted
                &&& *final(self) == *old(self)
            },
    {
        let chunk_size = self.config.chunk_size;
        let n = self.chunks.len();
        if n > 0 {
            let cursor = self.chunks[n - 1].cursor;
            let live = self.chunks[n - 1].live;
            let memory = self.chunks[n - 1].memory;
            let pad = padding(cursor, align);
            if live < u64::MAX && pad <= chunk_size - cursor && size <= chunk_size - cursor - pad {
                let start = cursor + pad;
                self.chunks.set(n - 1, ArenaChunk { memory, cursor: start + size, live: live + 1 });
                self.live = Ghost(self.live@ + 1);
                let block = ArenaBlock::new(
                    Region::new(memory, start, start + size, pad + size, self.properties),
                );
                proof {
                    assert forall|i: int, j: int|
                        0 <= i < j < self.chunks@.len() implies (#[trigger] self.chunks@[i]).memory
                        != (#[trigger] self.chunks@[j]).memory by {
                        assert(old(self).chunks@[i].memory != old(self).chunks@[j].memory);
                    }
                    assert forall|ci: int|
                        0 <= ci < self.chunk_count_spec() && #[trigger] self.chunk_memory(ci)
                            == memory implies self.chunk_live(ci) > 1 by {
                        if ci != n - 1 {
                            assert(old(self).chunks@[ci].memory != old(self).chunks@[n - 1].memory);
                        }
                    }
                    assert forall|m: u64| m != memory implies #[trigger] self.release_of(m)
                        == old(self).release_of(m) by {
                        assert forall|ci: int| 0 <= ci < self.chunk_count_spec() && self.chunk_memory(ci) == m
                            implies self.chunks@[ci] == old(self).chunks@[ci] by {}
                        if exists|ci: int|
                            0 <= ci < old(self).chunk_count_spec() && #[trigger] old(self).chunk_memory(ci) == m
                                && old(self).chunk_live(ci) <= 1 {
                            let ci = choose|ci: int|
                                0 <= ci < old(self).chunk_count_spec() && #[trigger] old(self).chunk_memory(ci) == m
                                    && old(self).chunk_live(ci) <= 1;
                            assert(self.chunk_memory(ci) == m);
                        }
                        if exists|ci: int|
                            0 <= ci < self.chunk_count_spec() && #[trigger] self.chunk_memory(ci) == m
                                && self.chunk_live(ci) <= 1 {
                            let ci = choose|ci: int|
                                0 <= ci < self.chunk_count_spec() && #[trigger] self.chunk_memory(ci) == m
                                    && self.chunk_live(ci) <= 1;
                            assert(old(self).chunk_memory(ci) == m);
                        }
                    }
                }
                return Ok((block, 0));
            }
        }
        if chunk_size > room {
            return Err(MemoryError::HeapsExhausted);
        }
        match device.allocate_memory(self.memory_type, chunk_size) {
            Ok(memory) => {
                if self.holds_memory(memory) {
                    return Err(MemoryError::OutOfDeviceMemory);
                }
                self.chunks.push(ArenaChunk { memory, cursor: size, live: 1 });
                self.live = Ghost(self.live@ + 1);
                let block = ArenaBlock::new(Region::new(memory, 0, size, size, self.properties));
                proof {
                    if align > 0 {
                        assert(0u64 % align == 0) by (nonlinear_arith)
                            requires
                                align > 0,
                        ;
                    }
                    assert forall|i: int, j: int|
                        0 <= i < j < self.chunks@.len() implies (#[trigger] self.chunks@[i]).memory
                        != (#[trigger] self.chunks@[j]).memory by {
                        if j < n {
                            assert(old(self).chunks@[i].memory != old(self).chunks@[j].memory);
                        } else {
                            assert(old(self).chunk_memory(i) != memory);
                        }
                    }
                    assert(self.chunk_memory(n as int) == memory && self.chunk_live(n as int) <= 1);
                    lemma_chunks_add(n as int, chunk_size as int);
                    assert forall|m: u64| m != memory implies #[trigger] self.release_of(m)
                        == old(self).release_of(m) by {
                        if exists|ci: int|
                            0 <= ci < old(self).chunk_count_spec() && #[trigger] old(self).chunk_memory(ci) == m
                                && old(self).chunk_live(ci) <= 1 {
                            let ci = choose|ci: int|
                                0 <= ci < old(self).chunk_count_spec() && #[trigger] old(self).chunk_memory(ci) == m
                                    && old(self).chunk_live(ci) <= 1;
                            assert(self.chunks@[ci] == old(self).chunks@[ci]);
                            assert(self.chunk_memory(ci) == m);
                        }
                        if exists|ci: int|
                            0 <= ci < self.chunk_count_spec() && #[trigger] self.chunk_memory(ci) == m
                                && self.chunk_live(ci) <= 1 {
                            let ci = choose|ci: int|
                                0 <= ci < self.chunk_count_spec() && #[trigger] self.chunk_memory(ci) == m
                                    && self.chunk_live(ci) <= 1;
                            assert(ci != n);
                            assert(self.chunks@[ci] == old(self).chunks@[ci]);
                            assert(old(self).chunk_memory(ci) == m);
                        }
                    }
                }
                Ok((block, chunk_size))
            },
            Err(e) => Err(MemoryError::from_oom(e)),
        }
    }

    /// Return `block` to its chunk, releasing the chunk once none of its
    /// blocks is in use. Returns the bytes given back to the heap: the whole
    /// chunk where it was released, else none.
    pub fn free<D: RawDevice>(&mut self, device: &D, block: ArenaBlock) -> (r: u64)
        requires
            old(self).wf(),
        ensures
            final(self).wf(),
            r == old(self).release_of(block@.memory),
            r <= old(self).usage(),
            final(self).usage() == old(self).usage() - r,
            forall|m: u64| m != block@.memory ==> #[trigger] final(self).release_of(m) == old(self).release_of(m),
            final(self).config_spec() == old(self).config_spec(),
            final(self).memory_type_spec() == old(self).memory_type_spec(),
            final(self).properties_spec() == old(self).properties_spec(),
            final(self).live() == if old(self).live() > 0 {
                (old(self).live() - 1) as nat
            } else {
                0
            },
            (forall|ci: int|
                0 <= ci < old(self).chunk_count_spec() ==> #[trigger] old(self).chunk_memory(ci)
                    != block@.memory) ==> {
                &&& final(self).chunk_count_spec() == old(self).chunk_count_spec()
                &&& final(self).keeps_chunks(old(self), old(self).chunk_count_spec() as int)
            },
            forall|ci: int|
                #[trigger] old(self).first_with(ci, block@.memory) ==> {
                    &&& final(self).keeps_chunks(old(self), ci)
                    &&& (old(self).chunk_live(ci) <= 1 ==> final(self).chunk_count_spec() + 1
                        == old(self).chunk_count_spec())
                    &&& (old(self).chunk_live(ci) > 1 ==> {
                        &&& final(self).chunk_count_spec() == old(self).chunk_count_spec()
                        &&& final(self).chunk_memory(ci) == old(self).chunk_memory(ci)
                        &&& final(self).chunk_cursor(ci) == old(self).chunk_cursor(ci)
                        &&& final(self).chunk_live(ci) == old(self).chunk_live(ci) - 1
                    })
                },
    {
        let memory = block.region().memory();
        let mut released: u64 = 0;
        let n = self.chunks.len();
        let mut i: usize = 0;
        while i < n && self.chunks[i].memory != memory
            invariant
                n == self.chunks.len(),
                i <= n,
                forall|j: int| 0 <= j < i ==> (#[trigger] self.chunks@[j]).memory != memory,
            decreases n - i,
        {
            i = i + 1;
        }
        proof {
            assert forall|j: int| 0 <= j < i implies #[trigger] self.chunk_memory(j) != memory by {
                assert(self.chunks@[j].memory != memory);
            }
        }
        if i < n {
            assert(self.first_with(i as int, memory));
            let live = self.chunks[i].live;
            if live <= 1 {
                device.free_memory(memory);
                self.chunks.remove(i);
                released = self.config.chunk_size;
                proof {
                    lemma_chunks_add(self.chunks@.len() as int, self.config.chunk_size as int);
                    assert forall|m: u64| m != memory implies #[trigger] self.release_of(m)
                        == old(self).release_of(m) by {
                        if exists|ci: int|
                            0 <= ci < old(self).chunk_count_spec() && #[trigger] old(self).chunk_memory(ci) == m
                                && old(self).chunk_live(ci) <= 1 {
                            let ci = choose|ci: int|
                                0 <= ci < old(self).chunk_count_spec() && #[trigger] old(self).chunk_memory(ci) == m
                                    && old(self).chunk_live(ci) <= 1;
                            assert(ci != i);
                            let c1 = if ci < i { ci } else { ci - 1 };
                            assert(self.chunks@[c1] == old(self).chunks@[ci]);
                            assert(self.chunk_memory(c1) == m);
                        }
                        if exists|ci: int|
                            0 <= ci < self.chunk_count_spec() && #[trigger] self.chunk_memory(ci) == m
                                && self.chunk_live(ci) <= 1 {
                            let ci = choose|ci: int|
                                0 <= ci < self.chunk_count_spec() && #[trigger] self.chunk_memory(ci) == m
                                    && self.chunk_live(ci) <= 1;
                            let c0 = if ci < i { ci } else { ci + 1 };
                            assert(self.chunks@[ci] == old(self).chunks@[c0]);
                            assert(old(self).chunk_memory(c0) == m);
                        }
                    }
                    assert forall|a: int, c: int|
                        0 <= a < c < self.chunks@.len() implies (#[trigger] self.chunks@[a]).memory
                        != (#[trigger] self.chunks@[c]).memory by {
                        let a0 = if a < i { a } else { a + 1 };
                        let c0 = if c < i { c } else { c + 1 };
                        assert(self.chunks@[a] == old(self).chunks@[a0]);
                        assert(self.chunks@[c] == old(self).chunks@[c0]);
                        assert(old(self).chunks@[a0].memory != old(self).chunks@[c0].memory);
                    }
                    assert forall|k: int| 0 <= k < self.chunks@.len() implies #[trigger] self.chunks@[k].live >= 1 by {
                        if k < i {
                            assert(self.chunks@[k] == old(self).chunks@[k]);
                        } else {
                            assert(self.chunks@[k] == old(self).chunks@[k + 1]);
                        }
                    }
                    assert forall|k: int|
                        0 <= k < self.chunks@.len() implies #[trigger] self.chunks@[k].cursor
                        <= self.config.chunk_size by {
                        if k < i {
                            assert(self.chunks@[k] == old(self).chunks@[k]);
                        } else {
                            assert(self.chunks@[k] == old(self).chunks@[k + 1]);
                        }
                    }
                    assert forall|k: int| 0 <= k < i implies {
                        &&& #[trigger] self.chunk_memory(k) == old(self).chunk_memory(k)
                        &&& self.chunk_cursor(k) == old(self).chunk_cursor(k)
                        &&& self.chunk_live(k) == old(self).chunk_live(k)
                    } by {
                        assert(self.chunks@[k] == old(self).chunks@[k]);
                    }
                }
            } else {
                let cursor = self.chunks[i].cursor;
                self.chunks.set(i, ArenaChunk { memory, cursor, live: live - 1 });
                proof {
                    assert forall|m: u64| m != memory implies #[trigger] self.release_of(m)
                        == old(self).release_of(m) by {
                        if exists|ci: int|
                            0 <= ci < old(self).chunk_count_spec() && #[trigger] old(self).chunk_memory(ci) == m
                                && old(self).chunk_live(ci) <= 1 {
                            let ci = choose|ci: int|
                                0 <= ci < old(self).chunk_count_spec() && #[trigger] old(self).chunk_memory(ci) == m
                                    && old(self).chunk_live(ci) <= 1;
                            assert(self.chunks@[ci] == old(self).chunks@[ci]);
                            assert(self.chunk_memory(ci) == m);
                        }
                        if exists|ci: int|
                            0 <= ci < self.chunk_count_spec() && #[trigger] self.chunk_memory(ci) == m
                                && self.chunk_live(ci) <= 1 {
                            let ci = choose|ci: int|
                                0 <= ci < self.chunk_count_spec() && #[trigger] self.chunk_memory(ci) == m
                                    && self.chunk_live(ci) <= 1;
                            assert(self.chunks@[ci] == old(self).chunks@[ci]);
                            assert(old(self).chunk_memory(ci) == m);
                        }
                    }
                    assert forall|a: int, c: int|
                        0 <= a < c < self.chunks@.len() implies (#[trigger] self.chunks@[a]).memory
                        != (#[trigger] self.chunks@[c]).memory by {
                        assert(old(self).chunks@[a].memory != old(self).chunks@[c].memory);
                    }
                    assert forall|ci: int|
                        0 <= ci < old(self).chunk_count_spec() && #[trigger] old(self).chunk_memory(ci)
                            == memory implies old(self).chunk_live(ci) > 1 by {
                        if ci != i {
                            assert(old(self).chunks@[ci].memory != old(self).chunks@[i as int].memory);
                        }
                    }
                    assert forall|k: int| 0 <= k < i implies {
                        &&& #[trigger] self.chunk_memory(k) == old(self).chunk_memory(k)
                        &&& self.chunk_cursor(k) == old(self).chunk_cursor(k)
                        &&& self.chunk_live(k) == old(self).chunk_live(k)
                    } by {
                        assert(self.chunks@[k] == old(self).chunks@[k]);
                    }
                }
            }
            proof {
                assert forall|c: int| #[trigger] old(self).first_with(c, memory) implies c == i by {
                    if c < i {
                        assert(old(self).chunk_memory(c) != memory);
                    } else if c > i {
                        assert(old(self).chunk_memory(i as int) != memory);
                    }
                }
            }
        } else {
            proof {
                assert forall|c: int| !#[trigger] old(self).first_with(c, memory) by {}
            }
        }
        proof {
            lemma_chunks_add(self.chunks@.len() as int, self.config.chunk_size as int);
            assert(forall|m: u64| m != memory ==> #[trigger] self.release_of(m) == old(self).release_of(m));
        }
        let ghost pre = *self;
        self.live = Ghost(
            if self.live@ > 0 {
                (self.live@ - 1) as nat
            } else {
                0
            },
        );
        proof {
            assert(self.chunks@ == pre.chunks@);
            Self::lemma_same_chunks_release(&*self, &pre);
        }
        released
    }

    /// Dispose of the arena. Every block must have been freed.
    pub fn dispose<D: RawDevice>(self, device: &D)
        requires
            self.live() == 0,
    {
        let mut chunks = self.chunks;
        while chunks.len() > 0
            decreases chunks.len(),
        {
            let chunk = chunks.pop().unwrap();
            device.free_memory(chunk.memory);
        }
    }
}

} // verus!
