use vstd::prelude::*;

use crate::block::{DedicatedBlock, Region};
use crate::device::RawDevice;
use crate::errors::{is_oom, MemoryError};
use crate::usage::Properties;

verus! {

/// Total of the sizes recorded in `s`.
pub open spec fn sizes_sum(s: Seq<(u64, u64)>) -> int
    decreases s.len(),
{
    if s.len() == 0 {
        0
    } else {
        sizes_sum(s.drop_last()) + s.last().1
    }
}

proof fn lemma_sizes_sum_remove(s: Seq<(u64, u64)>, i: int)
    requires
        0 <= i < s.len(),
    ensures
        sizes_sum(s.remove(i)) == sizes_sum(s) - s[i].1,
        sizes_sum(s.remove(i)) >= 0,
    decreases s.len(),
{
    lemma_sizes_sum_nonneg(s.remove(i));
    if i < s.len() - 1 {
        lemma_sizes_sum_remove(s.drop_last(), i);
        assert(s.remove(i).drop_last() =~= s.drop_last().remove(i));
        assert(s.remove(i).last() == s.last());
    } else {
        assert(s.remove(i) =~= s.drop_last());
    }
}

proof fn lemma_sizes_sum_nonneg(s: Seq<(u64, u64)>)
    ensures
        sizes_sum(s) >= 0,
    decreases s.len(),
{
    if s.len() > 0 {
        lemma_sizes_sum_nonneg(s.drop_last());
    }
}

/// Some entry of `s` records memory object `m`.
pub open spec fn holds_in(s: Seq<(u64, u64)>, m: u64) -> bool {
    exists|i: int| 0 <= i < s.len() && #[trigger] s[i].0 == m
}

/// The size recorded for memory object `m` in `s`, or zero.
pub open spec fn recorded(s: Seq<(u64, u64)>, m: u64) -> u64 {
    if holds_in(s, m) {
        s[choose|i: int| 0 <= i < s.len() && #[trigger] s[i].0 == m].1
    } else {
        0
    }
}

/// No memory object is recorded twice in `s`.
pub open spec fn distinct(s: Seq<(u64, u64)>) -> bool {
    forall|i: int, j: int| 0 <= i < j < s.len() ==> (#[trigger] s[i]).0 != (#[trigger] s[j]).0
}

proof fn lemma_recorded_at(s: Seq<(u64, u64)>, i: int)
    requires
        distinct(s),
        0 <= i < s.len(),
    ensures
        holds_in(s, s[i].0),
        recorded(s, s[i].0) == s[i].1,
{
    let m = s[i].0;
    assert(s[i].0 == m);
    let k = choose|k: int| 0 <= k < s.len() && #[trigger] s[k].0 == m;
    if k < i {
        assert(s[k].0 != s[i].0);
    } else if k > i {
        assert(s[i].0 != s[k].0);
    }
}

/// Allocates one memory object per request.
pub struct DedicatedAllocator {
    memory_type: u32,
    properties: Properties,
    blocks: Vec<(u64, u64)>,
    live: Ghost<nat>,
}

impl DedicatedAllocator {
    pub closed spec fn memory_type_spec(&self) -> u32 {
        self.memory_type
    }

    pub closed spec fn properties_spec(&self) -> Properties {
        self.properties
    }

    /// Number of blocks handed out and not yet freed.
    pub closed spec fn live(&self) -> nat {
        self.live@
    }

    /// The memory objects handed out, each with its size.
    pub closed spec fn blocks_spec(&self) -> Seq<(u64, u64)> {
        self.blocks@
    }

    /// Bytes of the heap the allocator holds: the sizes of its memory objects.
    pub open spec fn usage(&self) -> int {
        sizes_sum(self.blocks_spec())
    }

    pub proof fn lemma_usage_nonneg(&self)
        ensures
            self.usage() >= 0,
    {
        lemma_sizes_sum_nonneg(self.blocks_spec());
    }

    /// The allocator holds memory object `m`.
    pub open spec fn holds(&self, m: u64) -> bool {
        holds_in(self.blocks_spec(), m)
    }

    /// Bytes the heap gets back if the block in memory object `m` is freed
    /// now: its size, where the allocator holds it.
    pub open spec fn release_of(&self, m: u64) -> u64 {
        recorded(self.blocks_spec(), m)
    }

    pub closed spec fn wf(&self) -> bool {
        distinct(self.blocks@)
    }

    pub fn new(memory_type: u32, properties: Properties) -> (r: DedicatedAllocator)
        ensures
            r.wf(),
            r.memory_type_spec() == memory_type,
            r.properties_spec() == properties,
            r.live() == 0,
            r.usage() == 0,
            forall|m: u64| r.release_of(m) == 0,
    {
        let r = DedicatedAllocator { memory_type, properties, blocks: Vec::new(), live: Ghost(0) };
        assert(r.blocks_spec().len() == 0);
        r
    }

    /// Properties a memory type needs for this allocator: none.
    pub fn properties_required() -> (r: Properties)
        ensures
            r.bits == 0,
    {
        Properties::empty()
    }

    fn find(&self, m: u64) -> (r: Option<usize>)
        requires
            self.wf(),
        ensures
            r is None ==> !self.holds(m),
            r matches Some(i) ==> i < self.blocks_spec().len() && self.blocks_spec()[i as int].0
                == m && self.release_of(m) == self.blocks_spec()[i as int].1,
    {
        let mut i: usize = 0;
        while i < self.blocks.len()
            invariant
                self.wf(),
                i <= self.blocks@.len(),
                forall|j: int| 0 <= j < i ==> (#[trigger] self.blocks@[j]).0 != m,
            decreases self.blocks.len() - i,
        {
            if self.blocks[i].0 == m {
                proof {
                    lemma_recorded_at(self.blocks@, i as int);
                }
                return Some(i);
            }
            i = i + 1;
        }
        None
    }

    /// Allocate a memory object of exactly `size` bytes. The alignment of a
    /// fresh memory object satisfies every request. A device that hands back
    /// a memory object the allocator still holds is treated as out of device
    /// memory.
    pub fn allocate<D: RawDevice>(&mut self, device: &D, size: u64, align: u64) -> (r: Result<
        (DedicatedBlock, u64),
        MemoryError,
    >)
        requires
            old(self).wf(),
        ensures
            final(self).wf(),
            final(self).memory_type_spec() == old(self).memory_type_spec(),
            final(self).properties_spec() == old(self).properties_spec(),
            r matches Ok((b, n)) ==> {
                &&& n == size
                &&& b@.start == 0
                &&& b@.end == size
                &&& b@.reserved == size
                &&& b@.properties == old(self).properties_spec()
                &&& b@.mapping.is_none()
                &&& final(self).live() == old(self).live() + 1
                &&& final(self).usage() == old(self).usage() + n
                &&& final(self).release_of(b@.memory) == n
                &&& !old(self).holds(b@.memory)
                &&& forall|m: u64| m != b@.memory ==> #[trigger] final(self).release_of(m) == old(self).release_of(m)
            },
            r matches Err(e) ==> is_oom(e) && *final(self) == *old(self),
    {
        match device.allocate_memory(self.memory_type, size) {
            Ok(memory) => {
                if self.find(memory).is_some() {
                    return Err(MemoryError::OutOfDeviceMemory);
                }
                let ghost s0 = self.blocks@;
                self.blocks.push((memory, size));
                self.live = Ghost(self.live@ + 1);
                proof {
                    let s1 = self.blocks@;
                    assert(s1.drop_last() =~= s0);
                    assert forall|i: int, j: int|
                        0 <= i < j < s1.len() implies (#[trigger] s1[i]).0 != (#[trigger] s1[j]).0 by {
                        if j == s0.len() {
                            assert(s0[i].0 != memory);
                        } else {
                            assert(s0[i].0 != s0[j].0);
                        }
                    }
                    lemma_recorded_at(s1, s0.len() as int);
                    assert forall|m: u64| m != memory implies #[trigger] recorded(s1, m) == recorded(s0, m) by {
                        if holds_in(s0, m) {
                            let j = choose|j: int| 0 <= j < s0.len() && #[trigger] s0[j].0 == m;
                            assert(s1[j] == s0[j]);
                            lemma_recorded_at(s0, j);
                            lemma_recorded_at(s1, j);
                        } else if holds_in(s1, m) {
                            let k = choose|k: int| 0 <= k < s1.len() && #[trigger] s1[k].0 == m;
                            assert(s0[k] == s1[k]);
                        }
                    }
                }
                let block = DedicatedBlock::new(Region::new(memory, 0, size, size, self.properties));
                Ok((block, size))
            },
            Err(e) => Err(MemoryError::from_oom(e)),
        }
    }

    /// Release the memory object of `block`, returning the bytes the heap
    /// gets back: its size, where the allocator holds it, else none.
    pub fn free<D: RawDevice>(&mut self, device: &D, block: DedicatedBlock) -> (r: u64)
        requires
            old(self).wf(),
        ensures
            final(self).wf(),
            r == old(self).release_of(block@.memory),
            r <= old(self).usage(),
            final(self).usage() == old(self).usage() - r,
            forall|m: u64| m != block@.memory ==> #[trigger] final(self).release_of(m) == old(self).release_of(m),
            final(self).memory_type_spec() == old(self).memory_type_spec(),
            final(self).properties_spec() == old(self).properties_spec(),
            final(self).live() == if old(self).live() > 0 {
                (old(self).live() - 1) as nat
            } else {
                0
            },
    {
        let memory = block.region().memory();
        self.live = Ghost(
            if self.live@ > 0 {
                (self.live@ - 1) as nat
            } else {
                0
            },
        );
        match self.find(memory) {
            Some(i) => {
                let ghost s0 = self.blocks@;
                let (_, size) = self.blocks.remove(i);
                device.free_memory(memory);
                proof {
                    let s1 = self.blocks@;
                    lemma_sizes_sum_remove(s0, i as int);
                    assert forall|a: int, c: int|
                        0 <= a < c < s1.len() implies (#[trigger] s1[a]).0 != (#[trigger] s1[c]).0 by {
                        let a0 = if a < i { a } else { a + 1 };
                        let c0 = if c < i { c } else { c + 1 };
                        assert(s1[a] == s0[a0]);
                        assert(s1[c] == s0[c0]);
                        assert(s0[a0].0 != s0[c0].0);
                    }
                    assert forall|m: u64| m != memory implies #[trigger] recorded(s1, m) == recorded(s0, m) by {
                        if holds_in(s0, m) {
                            let j = choose|j: int| 0 <= j < s0.len() && #[trigger] s0[j].0 == m;
                            assert(j != i);
                            let j1 = if j < i { j } else { j - 1 };
                            assert(s1[j1] == s0[j]);
                            lemma_recorded_at(s0, j);
                            lemma_recorded_at(s1, j1);
                        } else if holds_in(s1, m) {
                            let k = choose|k: int| 0 <= k < s1.len() && #[trigger] s1[k].0 == m;
                            let k0 = if k < i { k } else { k + 1 };
                            assert(s1[k] == s0[k0]);
                        }
                    }
                }
                size
            },
            None => {
                proof {
                    lemma_sizes_sum_nonneg(self.blocks@);
                }
                0
            },
        }
    }

    /// Dispose of the allocator. Every block must have been freed.
    pub fn dispose<D: RawDevice>(self, device: &D)
        requires
            self.live() == 0,
    {
    }
}

} // verus!
