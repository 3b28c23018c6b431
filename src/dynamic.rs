use vstd::prelude::*;

use crate::block::{DynamicBlock, Region, RegionView};
use crate::device::RawDevice;
use crate::errors::{is_oom, MemoryError};
use crate::usage::Properties;
use crate::util::{lemma_chunks_add, padding, padding_spec};

verus! {

/// Config for the dynamic sub-allocator.
#[derive(Clone, Copy, Debug, PartialEq, Eq, Structural)]
pub struct DynamicConfig {
    /// Size of each memory object that blocks are carved from.
    pub chunk_size: u64,
    /// Largest request the allocator serves.
    pub max_allocation: u64,
}

impl DynamicConfig {
    /// Largest request served: the configured maximum, but never more than
    /// one chunk holds.
    pub open spec fn limit(self) -> u64 {
        if self.max_allocation <= self.chunk_size {
            self.max_allocation
        } else {
            self.chunk_size
        }
    }
}

/// A free list: non-empty ranges within `0..size`, in increasing order, no two
/// of them touching (adjacent free ranges are always merged into one).
pub open spec fn free_list_wf(f: Seq<(u64, u64)>, size: u64) -> bool {
    &&& forall|i: int| 0 <= i < f.len() ==> (#[trigger] f[i]).0 < f[i].1 && f[i].1 <= size
    &&& forall|i: int| 0 <= i < f.len() - 1 ==> (#[trigger] f[i]).1 < f[i + 1].0
}

/// `f` with the ranges `lo..hi` replaced by `mid`.
pub open spec fn spliced(f: Seq<(u64, u64)>, lo: int, hi: int, mid: Seq<(u64, u64)>) -> Seq<
    (u64, u64),
> {
    f.subrange(0, lo) + mid + f.subrange(hi, f.len() as int)
}

/// Replacing some ranges of a free list keeps it well formed where the new
/// ranges are well formed and keep clear of their neighbours.
proof fn lemma_splice_wf(f: Seq<(u64, u64)>, lo: int, hi: int, mid: Seq<(u64, u64)>, size: u64)
    requires
        free_list_wf(f, size),
        free_list_wf(mid, size),
        0 <= lo <= hi <= f.len(),
        mid.len() > 0 && lo > 0 ==> f[lo - 1].1 < mid[0].0,
        mid.len() > 0 && hi < f.len() ==> mid[mid.len() - 1].1 < f[hi].0,
        mid.len() == 0 && lo > 0 && hi < f.len() ==> f[lo - 1].1 < f[hi].0,
    ensures
        free_list_wf(spliced(f, lo, hi, mid), size),
{
    let r = spliced(f, lo, hi, mid);
    let m = mid.len() as int;
    assert(r.len() == lo + m + (f.len() - hi));
    assert forall|k: int| 0 <= k < r.len() implies (#[trigger] r[k]).0 < r[k].1 && r[k].1 <= size by {
        if k < lo {
            assert(r[k] == f[k]);
        } else if k < lo + m {
            assert(r[k] == mid[k - lo]);
        } else {
            assert(r[k] == f[k - lo - m + hi]);
        }
    }
    assert forall|k: int| 0 <= k < r.len() - 1 implies (#[trigger] r[k]).1 < r[k + 1].0 by {
        if k + 1 < lo {
            assert(r[k] == f[k]);
            assert(r[k + 1] == f[k + 1]);
        } else if k + 1 == lo {
            assert(r[k] == f[k]);
            if m > 0 {
                assert(r[k + 1] == mid[0]);
            } else {
                assert(r[k + 1] == f[hi]);
            }
        } else if k + 1 < lo + m {
            assert(r[k] == mid[k - lo]);
            assert(r[k + 1] == mid[k + 1 - lo]);
        } else if k + 1 == lo + m {
            assert(r[k] == mid[m - 1]);
            assert(r[k + 1] == f[hi]);
        } else {
            assert(r[k] == f[k - lo - m + hi]);
            assert(r[k + 1] == f[k + 1 - lo - m + hi]);
        }
    }
}

/// Byte `x` lies in one of the ranges of `f`.
#[verifier::opaque]
pub open spec fn is_free(f: Seq<(u64, u64)>, x: int) -> bool {
    exists|i: int| 0 <= i < f.len() && (#[trigger] f[i]).0 <= x < f[i].1
}

/// No range of `f` shares a byte with `b0..b1`.
pub open spec fn clear_of(f: Seq<(u64, u64)>, b0: u64, b1: u64) -> bool {
    forall|i: int| 0 <= i < f.len() ==> (#[trigger] f[i]).1 <= b0 || b1 <= f[i].0
}

/// The free bytes of `r` are those of `f` and the bytes `b0..b1`.
pub open spec fn frees_with(r: Seq<(u64, u64)>, f: Seq<(u64, u64)>, b0: int, b1: int) -> bool {
    forall|x: int|
        #![trigger is_free(r, x)]
        #![trigger is_free(f, x)]
        is_free(r, x) <==> (is_free(f, x) || b0 <= x < b1)
}

/// The free bytes of `r` are those of `f` but the bytes `a0..a1`.
pub open spec fn frees_without(r: Seq<(u64, u64)>, f: Seq<(u64, u64)>, a0: int, a1: int) -> bool {
    forall|x: int|
        #![trigger is_free(r, x)]
        #![trigger is_free(f, x)]
        is_free(r, x) <==> (is_free(f, x) && !(a0 <= x < a1))
}

proof fn lemma_is_free_concat(a: Seq<(u64, u64)>, b: Seq<(u64, u64)>, x: int)
    ensures
        is_free(a + b, x) <==> is_free(a, x) || is_free(b, x),
{
    reveal(is_free);
    let c = a + b;
    if is_free(c, x) {
        let i = choose|i: int| 0 <= i < c.len() && (#[trigger] c[i]).0 <= x < c[i].1;
        if i < a.len() {
            assert(a[i] == c[i]);
        } else {
            assert(b[i - a.len()] == c[i]);
        }
    }
    if is_free(a, x) {
        let i = choose|i: int| 0 <= i < a.len() && (#[trigger] a[i]).0 <= x < a[i].1;
        assert(c[i] == a[i]);
    }
    if is_free(b, x) {
        let i = choose|i: int| 0 <= i < b.len() && (#[trigger] b[i]).0 <= x < b[i].1;
        assert(c[i + a.len()] == b[i]);
    }
}

/// The free bytes of a spliced list are those of the kept ranges and of the
/// new ones.
proof fn lemma_is_free_splice(f: Seq<(u64, u64)>, lo: int, hi: int, mid: Seq<(u64, u64)>, x: int)
    requires
        0 <= lo <= hi <= f.len(),
    ensures
        is_free(spliced(f, lo, hi, mid), x) <==> is_free(f.subrange(0, lo), x) || is_free(mid, x)
            || is_free(f.subrange(hi, f.len() as int), x),
        is_free(f, x) <==> is_free(f.subrange(0, lo), x) || is_free(f.subrange(lo, hi), x)
            || is_free(f.subrange(hi, f.len() as int), x),
{
    let a = f.subrange(0, lo);
    let m = f.subrange(lo, hi);
    let z = f.subrange(hi, f.len() as int);
    lemma_is_free_concat(a, mid, x);
    lemma_is_free_concat(a + mid, z, x);
    lemma_is_free_concat(a, m, x);
    lemma_is_free_concat(a + m, z, x);
    assert(a + m + z =~= f);
}

/// In a well-formed free list, earlier ranges end before later ones start.
proof fn lemma_free_list_sorted(f: Seq<(u64, u64)>, size: u64, i: int, j: int)
    requires
        free_list_wf(f, size),
        0 <= i < j < f.len(),
    ensures
        f[i].1 < f[j].0,
    decreases j - i,
{
    if j > i + 1 {
        lemma_free_list_sorted(f, size, i + 1, j);
        assert(f[i].1 < f[i + 1].0);
    }
}

/// Byte `x` is free in the ranges of `f` before `lo` only below `f[lo].0`,
/// and in those from `hi` on only from `f[hi - 1].1` on.
proof fn lemma_free_outside(f: Seq<(u64, u64)>, size: u64, lo: int, hi: int, x: int)
    requires
        free_list_wf(f, size),
        0 <= lo < hi <= f.len(),
    ensures
        is_free(f.subrange(0, lo), x) ==> x < f[lo].0,
        is_free(f.subrange(hi, f.len() as int), x) ==> x >= f[hi - 1].1,
{
    reveal(is_free);
    let a = f.subrange(0, lo);
    if is_free(a, x) {
        let i = choose|i: int| 0 <= i < a.len() && (#[trigger] a[i]).0 <= x < a[i].1;
        assert(a[i] == f[i]);
        lemma_free_list_sorted(f, size, i, lo);
    }
    let z = f.subrange(hi, f.len() as int);
    if is_free(z, x) {
        let i = choose|i: int| 0 <= i < z.len() && (#[trigger] z[i]).0 <= x < z[i].1;
        assert(z[i] == f[hi + i]);
        if hi + i > hi - 1 {
            lemma_free_list_sorted(f, size, hi - 1, hi + i);
        }
    }
}

proof fn lemma_is_free_empty(x: int)
    ensures
        !is_free(Seq::<(u64, u64)>::empty(), x),
{
    reveal(is_free);
}

proof fn lemma_is_free_one(r: (u64, u64), x: int)
    ensures
        is_free(seq![r], x) <==> r.0 <= x < r.1,
{
    reveal(is_free);
    if r.0 <= x < r.1 {
        assert(seq![r][0] == r);
    }
}

proof fn lemma_is_free_two(r1: (u64, u64), r2: (u64, u64), x: int)
    ensures
        is_free(seq![r1, r2], x) <==> (r1.0 <= x < r1.1 || r2.0 <= x < r2.1),
{
    assert(seq![r1, r2] =~= seq![r1] + seq![r2]);
    lemma_is_free_concat(seq![r1], seq![r2], x);
    lemma_is_free_one(r1, x);
    lemma_is_free_one(r2, x);
}

/// A new free list made of `f` with the ranges `lo..hi` replaced by `mid`.
fn splice(f: &Vec<(u64, u64)>, lo: usize, hi: usize, mid: Vec<(u64, u64)>) -> (r: Vec<(u64, u64)>)
    requires
        lo <= hi <= f.len(),
    ensures
        r@ == spliced(f@, lo as int, hi as int, mid@),
{
    let mut r: Vec<(u64, u64)> = Vec::new();
    let mut i: usize = 0;
    while i < lo
        invariant
            i <= lo <= hi <= f.len(),
            r@ == f@.subrange(0, i as int),
        decreases lo - i,
    {
        r.push(f[i]);
        i = i + 1;
    }
    let mut j: usize = 0;
    while j < mid.len()
        invariant
            j <= mid.len(),
            r@ == f@.subrange(0, lo as int) + mid@.subrange(0, j as int),
        decreases mid.len() - j,
    {
        r.push(mid[j]);
        j = j + 1;
    }
    assert(mid@.subrange(0, mid@.len() as int) == mid@);
    let mut k: usize = hi;
    while k < f.len()
        invariant
            hi <= k <= f.len(),
            r@ == f@.subrange(0, lo as int) + mid@ + f@.subrange(hi as int, k as int),
        decreases f.len() - k,
    {
        r.push(f[k]);
        k = k + 1;
    }
    r
}

proof fn lemma_splice_frees_with(
    g: Seq<(u64, u64)>,
    lo: int,
    hi: int,
    mid: Seq<(u64, u64)>,
    b0: int,
    b1: int,
)
    requires
        0 <= lo <= hi <= g.len(),
        frees_with(mid, g.subrange(lo, hi), b0, b1),
    ensures
        frees_with(spliced(g, lo, hi, mid), g, b0, b1),
{
    assert forall|x: int| is_free(spliced(g, lo, hi, mid), x) <==> (is_free(g, x) || b0 <= x < b1) by {
        lemma_is_free_splice(g, lo, hi, mid, x);
        assert(is_free(mid, x) <==> (is_free(g.subrange(lo, hi), x) || b0 <= x < b1));
    }
}

proof fn lemma_merge_both(l: (u64, u64), h: (u64, u64), b0: u64, b1: u64)
    requires
        l.0 < l.1 == b0 < b1 == h.0 < h.1,
        l.1 == b0,
        h.0 == b1,
    ensures
        frees_with(seq![(l.0, h.1)], seq![l, h], b0 as int, b1 as int),
{
    let m = seq![(l.0, h.1)];
    let o = seq![l, h];
    assert forall|x: int| is_free(m, x) <==> (is_free(o, x) || b0 <= x < b1) by {
        lemma_is_free_one((l.0, h.1), x);
        lemma_is_free_two(l, h, x);
    }
}

proof fn lemma_merge_prev(l: (u64, u64), b0: u64, b1: u64)
    requires
        l.0 < l.1 == b0 < b1,
    ensures
        frees_with(seq![(l.0, b1)], seq![l], b0 as int, b1 as int),
{
    let m = seq![(l.0, b1)];
    let o = seq![l];
    assert forall|x: int| is_free(m, x) <==> (is_free(o, x) || b0 <= x < b1) by {
        lemma_is_free_one((l.0, b1), x);
        lemma_is_free_one(l, x);
    }
}

proof fn lemma_merge_next(h: (u64, u64), b0: u64, b1: u64)
    requires
        b0 < b1 == h.0 < h.1,
    ensures
        frees_with(seq![(b0, h.1)], seq![h], b0 as int, b1 as int),
{
    let m = seq![(b0, h.1)];
    let o = seq![h];
    assert forall|x: int| is_free(m, x) <==> (is_free(o, x) || b0 <= x < b1) by {
        lemma_is_free_one((b0, h.1), x);
        lemma_is_free_one(h, x);
    }
}

proof fn lemma_merge_none(b0: u64, b1: u64)
    ensures
        frees_with(seq![(b0, b1)], Seq::empty(), b0 as int, b1 as int),
{
    let m = seq![(b0, b1)];
    let o = Seq::<(u64, u64)>::empty();
    assert forall|x: int| is_free(m, x) <==> (is_free(o, x) || b0 <= x < b1) by {
        lemma_is_free_one((b0, b1), x);
        lemma_is_free_empty(x);
    }
}

proof fn lemma_clear(g: Seq<(u64, u64)>, p: int, b0: u64, b1: u64, size: u64)
    requires
        free_list_wf(g, size),
        0 <= p <= g.len(),
        forall|j: int| 0 <= j < p ==> (#[trigger] g[j]).1 <= b0,
        p < g.len() ==> b1 <= g[p].0,
    ensures
        clear_of(g, b0, b1),
{
    assert forall|j: int| 0 <= j < g.len() implies (#[trigger] g[j]).1 <= b0 || b1 <= g[j].0 by {
        if j > p {
            lemma_free_list_sorted(g, size, p, j);
        }
    }
}

/// Giving back `b0..b1` by putting `mid` in place of the ranges `lo..hi` of
/// `g` keeps the list well formed and frees exactly those bytes more.
proof fn lemma_release(
    g: Seq<(u64, u64)>,
    lo: int,
    hi: int,
    mid: Seq<(u64, u64)>,
    b0: u64,
    b1: u64,
    size: u64,
)
    requires
        free_list_wf(g, size),
        b0 < b1 <= size,
        0 <= lo <= hi <= g.len(),
        hi <= lo + 2,
        forall|j: int| 0 <= j < lo ==> (#[trigger] g[j]).1 < b0,
        hi < g.len() ==> b1 < g[hi].0,
        hi == lo + 2 ==> g[lo].1 == b0 && g[lo + 1].0 == b1 && mid == seq![(g[lo].0, g[lo + 1].1)],
        hi == lo + 1 && g[lo].1 == b0 ==> mid == seq![(g[lo].0, b1)],
        hi == lo + 1 && g[lo].1 != b0 ==> g[lo].0 == b1 && mid == seq![(b0, g[lo].1)],
        hi == lo ==> mid == seq![(b0, b1)],
    ensures
        free_list_wf(spliced(g, lo, hi, mid), size),
        frees_with(spliced(g, lo, hi, mid), g, b0 as int, b1 as int),
{
    if lo > 0 {
        assert(g[lo - 1].1 < b0);
    }
    if hi == lo + 2 {
        if lo > 0 {
            assert(g[lo - 1].1 < g[lo].0);
        }
        assert(g.subrange(lo, hi) =~= seq![g[lo], g[lo + 1]]);
        lemma_merge_both(g[lo], g[lo + 1], b0, b1);
    } else if hi == lo + 1 && g[lo].1 == b0 {
        if lo > 0 {
            assert(g[lo - 1].1 < g[lo].0);
        }
        assert(g.subrange(lo, hi) =~= seq![g[lo]]);
        lemma_merge_prev(g[lo], b0, b1);
    } else if hi == lo + 1 {
        assert(g.subrange(lo, hi) =~= seq![g[lo]]);
        lemma_merge_next(g[lo], b0, b1);
    } else {
        assert(g.subrange(lo, hi) =~= Seq::<(u64, u64)>::empty());
        lemma_merge_none(b0, b1);
    }
    lemma_splice_wf(g, lo, hi, mid, size);
    lemma_splice_frees_with(g, lo, hi, mid, b0 as int, b1 as int);
}

/// Where `p` is the first range of `g` ending after `b0`, and it starts at or
/// after `b1`, giving back `b0..b1` merged with its touching neighbours keeps
/// the list well formed and frees exactly those bytes more.
proof fn lemma_release_at(
    g: Seq<(u64, u64)>,
    p: int,
    lo: int,
    hi: int,
    mid: Seq<(u64, u64)>,
    b0: u64,
    b1: u64,
    size: u64,
)
    requires
        free_list_wf(g, size),
        b0 < b1 <= size,
        0 <= p <= g.len(),
        forall|j: int| 0 <= j < p ==> (#[trigger] g[j]).1 <= b0,
        p < g.len() ==> b1 <= g[p].0,
        lo == if p > 0 && g[p - 1].1 == b0 {
            p - 1
        } else {
            p
        },
        hi == if p < g.len() && g[p].0 == b1 {
            p + 1
        } else {
            p
        },
        lo < p && hi > p ==> mid == seq![(g[p - 1].0, g[p].1)],
        lo < p && hi == p ==> mid == seq![(g[p - 1].0, b1)],
        lo == p && hi > p ==> mid == seq![(b0, g[p].1)],
        lo == p && hi == p ==> mid == seq![(b0, b1)],
    ensures
        clear_of(g, b0, b1),
        free_list_wf(spliced(g, lo, hi, mid), size),
        frees_with(spliced(g, lo, hi, mid), g, b0 as int, b1 as int),
{
    lemma_clear(g, p, b0, b1, size);
    assert forall|j: int| 0 <= j < lo implies (#[trigger] g[j]).1 < b0 by {
        if j + 1 < p {
            assert(g[j].1 < g[j + 1].0);
        }
    }
    if hi < g.len() {
        if hi > p {
            assert(g[p].1 < g[p + 1].0);
        }
        assert(g[hi].0 > b1);
    }
    lemma_release(g, lo, hi, mid, b0, b1, size);
}

/// `f` with the range `b0..b1` given back, merged with the free ranges it
/// touches. Where the range overlaps a free range, `f` is returned unchanged.
fn release_range(f: &Vec<(u64, u64)>, b0: u64, b1: u64, size: u64) -> (r: Vec<(u64, u64)>)
    requires
        free_list_wf(f@, size),
        b0 < b1 <= size,
    ensures
        free_list_wf(r@, size),
        clear_of(f@, b0, b1) ==> frees_with(r@, f@, b0 as int, b1 as int),
        !clear_of(f@, b0, b1) ==> r@ == f@,
{
    let n = f.len();
    let mut p: usize = 0;
    while p < n && f[p].1 <= b0
        invariant
            p <= n == f@.len(),
            forall|j: int| 0 <= j < p ==> (#[trigger] f@[j]).1 <= b0,
        decreases n - p,
    {
        p = p + 1;
    }
    if p < n && f[p].0 < b1 {
        assert(!clear_of(f@, b0, b1)) by {
            assert(!(f@[p as int].1 <= b0 || b1 <= f@[p as int].0));
        }
        assert(spliced(f@, 0, 0, Seq::empty()) =~= f@);
        return splice(f, 0, 0, Vec::new());
    }
    let merge_prev = p > 0 && f[p - 1].1 == b0;
    let merge_next = p < n && f[p].0 == b1;
    let lo: usize = if merge_prev {
        p - 1
    } else {
        p
    };
    let hi: usize = if merge_next {
        p + 1
    } else {
        p
    };
    let mut mid: Vec<(u64, u64)> = Vec::new();
    if merge_prev && merge_next {
        mid.push((f[p - 1].0, f[p].1));
    } else if merge_prev {
        mid.push((f[p - 1].0, b1));
    } else if merge_next {
        mid.push((b0, f[p].1));
    } else {
        mid.push((b0, b1));
    }
    proof {
        lemma_release_at(f@, p as int, lo as int, hi as int, mid@, b0, b1, size);
    }
    splice(f, lo, hi, mid)
}

/// What remains of the free range `s..e` once `a..a + size` is taken.
pub open spec fn carved(s: u64, e: u64, a: u64, size: u64) -> Seq<(u64, u64)> {
    if size == 0 {
        seq![(s, e)]
    } else {
        let left: Seq<(u64, u64)> = if s < a {
            seq![(s, a)]
        } else {
            Seq::empty()
        };
        let right: Seq<(u64, u64)> = if a + size < e {
            seq![((a + size) as u64, e)]
        } else {
            Seq::empty()
        };
        left + right
    }
}

proof fn lemma_carved(s: u64, e: u64, a: u64, size: u64, chunk_size: u64, x: int)
    requires
        s <= a,
        a + size <= e,
        s < e <= chunk_size,
    ensures
        is_free(carved(s, e, a, size), x) <==> (s <= x < e && !(a <= x < a + size)),
        free_list_wf(carved(s, e, a, size), chunk_size),
        carved(s, e, a, size).len() > 0 ==> s <= carved(s, e, a, size)[0].0,
        carved(s, e, a, size).len() > 0 ==> carved(s, e, a, size)[carved(s, e, a, size).len() - 1].1 <= e,
{
    if size == 0 {
        lemma_is_free_one((s, e), x);
    } else {
        let r = ((a + size) as u64, e);
        if s < a && a + size < e {
            assert(carved(s, e, a, size) =~= seq![(s, a), r]);
            lemma_is_free_two((s, a), r, x);
        } else if s < a {
            assert(carved(s, e, a, size) =~= seq![(s, a)]);
            lemma_is_free_one((s, a), x);
        } else if a + size < e {
            assert(carved(s, e, a, size) =~= seq![r]);
            lemma_is_free_one(r, x);
        } else {
            assert(carved(s, e, a, size) =~= Seq::<(u64, u64)>::empty());
            lemma_is_free_empty(x);
        }
    }
}

proof fn lemma_take_at(g: Seq<(u64, u64)>, k: int, a: u64, size: u64, chunk_size: u64, x: int)
    requires
        free_list_wf(g, chunk_size),
        0 <= k < g.len(),
        g[k].0 <= a,
        a + size <= g[k].1,
        g.subrange(k, k + 1) == seq![g[k]],
    ensures
        is_free(spliced(g, k, k + 1, carved(g[k].0, g[k].1, a, size)), x) <==> (is_free(g, x) && !(a
            <= x < a + size)),
{
    let mid = carved(g[k].0, g[k].1, a, size);
    lemma_is_free_splice(g, k, k + 1, mid, x);
    lemma_free_outside(g, chunk_size, k, k + 1, x);
    lemma_is_free_one(g[k], x);
    lemma_carved(g[k].0, g[k].1, a, size, chunk_size, x);
}

proof fn lemma_take(g: Seq<(u64, u64)>, k: int, a: u64, size: u64, chunk_size: u64)
    requires
        free_list_wf(g, chunk_size),
        0 <= k < g.len(),
        g[k].0 <= a,
        a + size <= g[k].1,
    ensures
        free_list_wf(spliced(g, k, k + 1, carved(g[k].0, g[k].1, a, size)), chunk_size),
        frees_without(spliced(g, k, k + 1, carved(g[k].0, g[k].1, a, size)), g, a as int, a + size),
{
    let mid = carved(g[k].0, g[k].1, a, size);
    lemma_carved(g[k].0, g[k].1, a, size, chunk_size, 0);
    if k > 0 {
        assert(g[k - 1].1 < g[k].0);
    }
    if k + 1 < g.len() {
        assert(g[k].1 < g[k + 1].0);
    }
    lemma_splice_wf(g, k, k + 1, mid, chunk_size);
    assert(g.subrange(k, k + 1) =~= seq![g[k]]);
    let r = spliced(g, k, k + 1, mid);
    assert forall|x: int| is_free(r, x) <==> (is_free(g, x) && !(a <= x < a + size)) by {
        lemma_take_at(g, k, a, size, chunk_size, x);
    }
}

/// `f` without the bytes `a..a + size`, which lie in its range `ri`.
fn take_range(f: &Vec<(u64, u64)>, ri: usize, a: u64, size: u64, chunk_size: u64) -> (r: Vec<
    (u64, u64),
>)
    requires
        free_list_wf(f@, chunk_size),
        ri < f@.len(),
        f@[ri as int].0 <= a,
        a + size <= f@[ri as int].1,
    ensures
        free_list_wf(r@, chunk_size),
        frees_without(r@, f@, a as int, a + size),
        forall|x: int| a <= x < a + size ==> is_free(f@, x),
{
    let n = f.len();
    let (s, e) = f[ri];
    let mut mid: Vec<(u64, u64)> = Vec::new();
    if size > 0 {
        if s < a {
            mid.push((s, a));
        }
        if a + size < e {
            mid.push((a + size, e));
        }
    } else {
        mid.push((s, e));
    }
    proof {
        assert(mid@ =~= carved(s, e, a, size));
        lemma_take(f@, ri as int, a, size, chunk_size);
        reveal(is_free);
        assert forall|x: int| a <= x < a + size implies is_free(f@, x) by {
            assert(f@[ri as int].0 <= x < f@[ri as int].1);
        }
    }
    splice(f, ri, ri + 1, mid)
}

/// One memory object of the dynamic allocator, with the ranges of it that
/// are free and the number of blocks carved from it that are in use.
struct DynamicChunk {
    memory: u64,
    free: Vec<(u64, u64)>,
    live: u64,
}

/// Free-list allocator over chunks: blocks are carved first-fit, and freed
/// ranges are merged with their free neighbours.
pub struct DynamicAllocator {
    memory_type: u32,
    properties: Properties,
    config: DynamicConfig,
    chunks: Vec<DynamicChunk>,
    live: Ghost<nat>,
}

impl DynamicAllocator {
    pub closed spec fn config_spec(&self) -> DynamicConfig {
        self.config
    }

    pub closed spec fn memory_type_spec(&self) -> u32 {
        self.memory_type
    }

    pub closed spec fn properties_spec(&self) -> Properties {
        self.properties
    }

    /// Number of blocks handed out and not yet freed.
    pub closed spec fn live(&self) -> nat {
        self.live@
    }

    pub closed spec fn chunk_count_spec(&self) -> nat {
        self.chunks@.len()
    }

    /// The memory object of chunk `i`.
    pub closed spec fn chunk_memory(&self, i: int) -> u64 {
        self.chunks@[i].memory
    }

    /// Number of blocks of chunk `i` in use.
    pub closed spec fn chunk_live(&self, i: int) -> u64 {
        self.chunks@[i].live
    }

    /// The free ranges of chunk `i`.
    pub closed spec fn free_ranges(&self, i: int) -> Seq<(u64, u64)> {
        self.chunks@[i].free@
    }

    /// The chunks of `self` are those of `o`.
    pub open spec fn same_chunks(&self, o: &DynamicAllocator) -> bool {
        &&& self.chunk_count_spec() == o.chunk_count_spec()
        &&& forall|j: int|
            #![trigger self.chunk_memory(j)]
            #![trigger self.free_ranges(j)]
            #![trigger self.chunk_live(j)]
            0 <= j < o.chunk_count_spec() ==> {
                &&& self.chunk_memory(j) == o.chunk_memory(j)
                &&& self.free_ranges(j) == o.free_ranges(j)
                &&& self.chunk_live(j) == o.chunk_live(j)
            }
    }

    /// `self` is `o` with the bytes `start..end` of chunk `ci` taken for a
    /// block: they were free, only they stopped being free, and no other chunk
    /// changed.
    pub open spec fn carved_from(&self, o: &DynamicAllocator, ci: int, start: int, end: int) -> bool {
        &&& 0 <= ci < o.chunk_count_spec()
        &&& self.chunk_count_spec() == o.chunk_count_spec()
        &&& forall|x: int| start <= x < end ==> is_free(o.free_ranges(ci), x)
        &&& frees_without(self.free_ranges(ci), o.free_ranges(ci), start, end)
        &&& self.chunk_live(ci) == o.chunk_live(ci) + 1
        &&& forall|j: int|
            0 <= j < o.chunk_count_spec() ==> #[trigger] self.chunk_memory(j) == o.chunk_memory(j)
        &&& forall|j: int|
            #![trigger self.free_ranges(j)]
            #![trigger self.chunk_live(j)]
            0 <= j < o.chunk_count_spec() && j != ci ==> {
                &&& self.free_ranges(j) == o.free_ranges(j)
                &&& self.chunk_live(j) == o.chunk_live(j)
            }
    }

    /// `self` is `o` with one new chunk at the end, whose first `size` bytes
    /// were taken for a block.
    pub open spec fn grown(&self, o: &DynamicAllocator, size: u64) -> bool {
        let last = o.chunk_count_spec() as int;
        &&& self.chunk_count_spec() == o.chunk_count_spec() + 1
        &&& self.free_ranges(last) == if size < o.config_spec().chunk_size {
            seq![(size, o.config_spec().chunk_size)]
        } else {
            Seq::empty()
        }
        &&& self.chunk_live(last) == 1
        &&& forall|j: int|
            #![trigger self.chunk_memory(j)]
            #![trigger self.free_ranges(j)]
            #![trigger self.chunk_live(j)]
            0 <= j < o.chunk_count_spec() ==> {
                &&& self.chunk_memory(j) == o.chunk_memory(j)
                &&& self.free_ranges(j) == o.free_ranges(j)
                &&& self.chunk_live(j) == o.chunk_live(j)
            }
    }

    /// Chunk `ci` is the first whose memory object is `m`.
    pub open spec fn first_with(&self, ci: int, m: u64) -> bool {
        &&& 0 <= ci < self.chunk_count_spec()
        &&& self.chunk_memory(ci) == m
        &&& forall|j: int| 0 <= j < ci ==> #[trigger] self.chunk_memory(j) != m
    }

    pub closed spec fn wf(&self) -> bool {
        &&& forall|i: int|
            0 <= i < self.chunks@.len() ==> free_list_wf(
                #[trigger] self.chunks@[i].free@,
                self.config.chunk_size,
            )
        &&& forall|i: int| 0 <= i < self.chunks@.len() ==> #[trigger] self.chunks@[i].live >= 1
        &&& forall|i: int, j: int|
            0 <= i < j < self.chunks@.len() ==> (#[trigger] self.chunks@[i]).memory != (
            #[trigger] self.chunks@[j]).memory
    }

    /// Bytes taken back from the heap if the block in memory object `m` were
    /// freed now: the whole chunk where that block is its last, else none.
    pub open spec fn release_of(&self, m: u64) -> u64 {
        if exists|ci: int|
            0 <= ci < self.chunk_count_spec() && #[trigger] self.chunk_memory(ci) == m
                && self.chunk_live(ci) <= 1 {
            self.config_spec().chunk_size
        } else {
            0
        }
    }

    /// Bytes of the heap the allocator holds: its chunks.
    pub open spec fn usage(&self) -> int {
        self.chunk_count_spec() * self.config_spec().chunk_size
    }

    /// Chunks of `a` and `b` agree on memory objects, and on live counts but
    /// where the memory object is `m0`: every other block gives back the same.
    proof fn lemma_release_frame(a: &DynamicAllocator, b: &DynamicAllocator, m0: u64)
        requires
            a.chunks@.len() == b.chunks@.len(),
            a.config == b.config,
            forall|ci: int| 0 <= ci < a.chunks@.len() ==> #[trigger] a.chunks@[ci].memory == b.chunks@[ci].memory,
            forall|ci: int|
                0 <= ci < a.chunks@.len() && a.chunks@[ci].memory != m0 ==> #[trigger] a.chunks@[ci].live
                    == b.chunks@[ci].live,
        ensures
            forall|m: u64| m != m0 ==> #[trigger] a.release_of(m) == b.release_of(m),
    {
        assert forall|m: u64| m != m0 implies #[trigger] a.release_of(m) == b.release_of(m) by {
            if exists|ci: int|
                0 <= ci < a.chunk_count_spec() && #[trigger] a.chunk_memory(ci) == m && a.chunk_live(ci) <= 1 {
                let ci = choose|ci: int|
                    0 <= ci < a.chunk_count_spec() && #[trigger] a.chunk_memory(ci) == m && a.chunk_live(ci) <= 1;
                assert(a.chunks@[ci].memory == b.chunks@[ci].memory);
                assert(b.chunk_memory(ci) == m);
            }
            if exists|ci: int|
                0 <= ci < b.chunk_count_spec() && #[trigger] b.chunk_memory(ci) == m && b.chunk_live(ci) <= 1 {
                let ci = choose|ci: int|
                    0 <= ci < b.chunk_count_spec() && #[trigger] b.chunk_memory(ci) == m && b.chunk_live(ci) <= 1;
                assert(a.chunks@[ci].memory == b.chunks@[ci].memory);
                assert(a.chunk_memory(ci) == m);
            }
        }
    }

    /// `small` is `big` without chunk `i`: every block outside that chunk
    /// gives back the same.
    proof fn lemma_release_remove(big: &DynamicAllocator, small: &DynamicAllocator, i: int)
        requires
            0 <= i < big.chunks@.len(),
            small.chunks@.len() == big.chunks@.len() - 1,
            big.config == small.config,
            forall|ci: int| 0 <= ci < i ==> #[trigger] small.chunks@[ci] == big.chunks@[ci],
            forall|ci: int| i <= ci < small.chunks@.len() ==> #[trigger] small.chunks@[ci] == big.chunks@[ci + 1],
        ensures
            forall|m: u64| m != big.chunks@[i].memory ==> #[trigger] big.release_of(m) == small.release_of(m),
    {
        let m0 = big.chunks@[i].memory;
        assert forall|m: u64| m != m0 implies #[trigger] big.release_of(m) == small.release_of(m) by {
            if exists|ci: int|
                0 <= ci < big.chunk_count_spec() && #[trigger] big.chunk_memory(ci) == m && big.chunk_live(ci) <= 1 {
                let ci = choose|ci: int|
                    0 <= ci < big.chunk_count_spec() && #[trigger] big.chunk_memory(ci) == m && big.chunk_live(ci) <= 1;
                assert(ci != i);
                let c1 = if ci < i { ci } else { ci - 1 };
                assert(small.chunks@[c1] == big.chunks@[ci]);
                assert(small.chunk_memory(c1) == m);
            }
            if exists|ci: int|
                0 <= ci < small.chunk_count_spec() && #[trigger] small.chunk_memory(ci) == m && small.chunk_live(ci) <= 1 {
                let ci = choose|ci: int|
                    0 <= ci < small.chunk_count_spec() && #[trigger] small.chunk_memory(ci) == m && small.chunk_live(ci) <= 1;
                let c0 = if ci < i { ci } else { ci + 1 };
                assert(small.chunks@[ci] == big.chunks@[c0]);
                assert(big.chunk_memory(c0) == m);
            }
        }
    }

    /// Free range `ri` of chunk `ci` can hold `size` bytes aligned to `align`,
    /// and the chunk can count one more block.
    pub open spec fn fits_at(&self, ci: int, ri: int, size: u64, align: u64) -> bool {
        let f = self.free_ranges(ci);
        &&& 0 <= ci < self.chunk_count_spec()
        &&& self.chunk_live(ci) < u64::MAX
        &&& 0 <= ri < f.len()
        &&& padding_spec(f[ri].0, align) + size <= f[ri].1 - f[ri].0
    }

    /// Free range `ri` of chunk `ci` is the first, by chunk and then by
    /// range, that can hold the request.
    pub open spec fn first_fit(&self, ci: int, ri: int, size: u64, align: u64) -> bool {
        &&& self.fits_at(ci, ri, size, align)
        &&& forall|c: int, q: int| 0 <= c < ci ==> !#[trigger] self.fits_at(c, q, size, align)
        &&& forall|q: int| 0 <= q < ri ==> !#[trigger] self.fits_at(ci, q, size, align)
    }

    /// Some free range of some chunk can hold the request.
    pub open spec fn can_place(&self, size: u64, align: u64) -> bool {
        exists|ci: int, ri: int| #[trigger] self.fits_at(ci, ri, size, align)
    }

    /// Whether some chunk is memory object `m`.
    fn holds_memory(&self, m: u64) -> (r: bool)
        ensures
            r == exists|ci: int| 0 <= ci < self.chunk_count_spec() && #[trigger] self.chunk_memory(ci) == m,
    {
        let mut i: usize = 0;
        while i < self.chunks.len()
            invariant
                i <= self.chunks@.len(),
                forall|j: int| 0 <= j < i ==> #[trigger] self.chunk_memory(j) != m,
            decreases self.chunks.len() - i,
        {
            if self.chunks[i].memory == m {
                assert(self.chunk_memory(i as int) == m);
                return true;
            }
            i = i + 1;
        }
        false
    }

    /// Properties a memory type needs for this allocator: none.
    pub fn properties_required() -> (r: Properties)
        ensures
            r.bits == 0,
    {
        Properties::empty()
    }

    pub fn new(memory_type: u32, properties: Properties, config: DynamicConfig) -> (r:
        DynamicAllocator)
        ensures
            r.wf(),
            r.memory_type_spec() == memory_type,
            r.properties_spec() == properties,
            r.config_spec() == config,
            r.live() == 0,
            r.chunk_count_spec() == 0,
    {
        DynamicAllocator { memory_type, properties, config, chunks: Vec::new(), live: Ghost(0) }
    }

    /// Largest request this allocator serves.
    pub fn max_allocation(&self) -> (r: u64)
        ensures
            r == self.config_spec().limit(),
    {
        if self.config.max_allocation <= self.config.chunk_size {
            self.config.max_allocation
        } else {
            self.config.chunk_size
        }
    }

    /// Number of memory objects the allocator holds.
    pub fn chunk_count(&self) -> (r: usize)
        ensures
            r == self.chunk_count_spec(),
    {
        self.chunks.len()
    }

    /// Fragmentation of chunk `i`: the number of separate free ranges in it.
    pub fn fragmentation(&self, i: usize) -> (r: usize)
        requires
            i < self.chunk_count_spec(),
        ensures
            r == self.free_ranges(i as int).len(),
    {
        self.chunks[i].free.len()
    }
    /// Take `a..a + size`, which lies in free range `ri` of chunk `ci`, for a
    /// block that reserves `pad + size` bytes.
    fn carve_at(&mut self, ci: usize, ri: usize, a: u64, size: u64, pad: u64) -> (b: DynamicBlock)
        requires
            old(self).wf(),
            ci < old(self).chunks@.len(),
            ri < old(self).chunks@[ci as int].free@.len(),
            old(self).chunks@[ci as int].free@[ri as int].0 <= a,
            a + size <= old(self).chunks@[ci as int].free@[ri as int].1,
            pad + size <= u64::MAX,
            old(self).chunks@[ci as int].live < u64::MAX,
        ensures
            final(self).wf(),
            final(self).config == old(self).config,
            final(self).memory_type == old(self).memory_type,
            final(self).properties == old(self).properties,
            final(self).live@ == old(self).live@ + 1,
            final(self).carved_from(old(self), ci as int, a as int, a + size),
            final(self).release_of(final(self).chunk_memory(ci as int)) == 0,
            final(self).chunk_memory(ci as int) == old(self).chunk_memory(ci as int),
            forall|m: u64| m != old(self).chunk_memory(ci as int) ==> #[trigger] final(self).release_of(m) == old(self).release_of(m),
            b@ == (RegionView {
                memory: final(self).chunk_memory(ci as int),
                start: a,
                end: (a + size) as u64,
                reserved: (pad + size) as u64,
                properties: old(self).properties,
                mapping: None,
            }),
    {
        let chunk_size = self.config.chunk_size;
        proof {
            assert(free_list_wf(self.chunks@[ci as int].free@, chunk_size));
        }
        let free = take_range(&self.chunks[ci].free, ri, a, size, chunk_size);
        let memory = self.chunks[ci].memory;
        let live = self.chunks[ci].live;
        self.chunks.set(ci, DynamicChunk { memory, free, live: live + 1 });
        self.live = Ghost(self.live@ + 1);
        proof {
            assert forall|i: int| 0 <= i < self.chunks@.len() implies free_list_wf(
                #[trigger] self.chunks@[i].free@,
                self.config.chunk_size,
            ) by {
                if i != ci {
                    assert(self.chunks@[i] == old(self).chunks@[i]);
                }
            }
            assert forall|i: int, j: int|
                0 <= i < j < self.chunks@.len() implies (#[trigger] self.chunks@[i]).memory != (
                #[trigger] self.chunks@[j]).memory by {
                assert(old(self).chunks@[i].memory != old(self).chunks@[j].memory);
            }
            assert forall|i: int| 0 <= i < self.chunks@.len() implies #[trigger] self.chunks@[i].live >= 1 by {
                assert(old(self).chunks@[i].live >= 1);
            }
            assert forall|c: int|
                0 <= c < self.chunk_count_spec() && #[trigger] self.chunk_memory(c) == memory implies self.chunk_live(c) > 1 by {
                if c != ci {
                    assert(old(self).chunks@[c].memory != old(self).chunks@[ci as int].memory);
                }
            }
        }
        proof {
            Self::lemma_release_frame(&*self, &*old(self), memory);
        }
        DynamicBlock::new(Region::new(memory, a, a + size, pad + size, self.properties))
    }

    /// Carve `size` bytes aligned to `align` from the first free range, over
    /// all chunks, that can hold them; allocate a new chunk where none can.
    /// Returns the block and the bytes taken from the heap for it: a whole
    /// chunk where a new one was allocated, else none. A new chunk is only
    /// allocated where the heap has `room` for it.
    pub fn allocate<D: RawDevice>(&mut self, device: &D, size: u64, align: u64, room: u64) -> (r:
        Result<(DynamicBlock, u64), MemoryError>)
        requires
            old(self).wf(),
            size <= old(self).config_spec().limit(),
        ensures
            final(self).wf(),
            final(self).config_spec() == old(self).config_spec(),
            final(self).memory_type_spec() == old(self).memory_type_spec(),
            final(self).properties_spec() == old(self).properties_spec(),
            old(self).can_place(size, align) ==> (r matches Ok((b, n)) && n == 0
                && final(self).chunk_count_spec() == old(self).chunk_count_spec() && exists|ci: int, ri: int|
                #[trigger] old(self).first_fit(ci, ri, size, align) && b@.memory == old(self).chunk_memory(ci)
                && b@.start == old(self).free_ranges(ci)[ri].0 + padding_spec(old(self).free_ranges(ci)[ri].0, align)),
            !old(self).can_place(size, align) && old(self).config_spec().chunk_size > room <==> r
                == Err::<(DynamicBlock, u64), MemoryError>(MemoryError::HeapsExhausted),
            r matches Ok((b, n)) ==> {
                &&& n <= room || n == 0
                &&& final(self).release_of(b@.memory) == n
                &&& final(self).usage() == old(self).usage() + n
                &&& (old(self).can_place(size, align) ==> n == 0)
                &&& (!old(self).can_place(size, align) ==> n == old(self).config_spec().chunk_size)
                &&& forall|m: u64| m != b@.memory ==> #[trigger] final(self).release_of(m) == old(self).release_of(m)
                &&& size <= b@.reserved
                &&& (align == 0 ==> b@.reserved == size)
                &&& (align > 0 ==> b@.reserved < size + align)
                &&& (align > 0 ==> b@.start % align == 0)
                &&& b@.end - b@.start == size
                &&& b@.end <= old(self).config_spec().chunk_size
                &&& b@.properties == old(self).properties_spec()
                &&& b@.mapping.is_none()
                &&& final(self).live() == old(self).live() + 1
                &&& {
                    ||| (n == 0 && exists|ci: int|
                        final(self).carved_from(old(self), ci, b@.start as int, b@.end as int)
                            && #[trigger] final(self).chunk_memory(ci) == b@.memory)
                    ||| (n == old(self).config_spec().chunk_size && final(self).grown(old(self), size)
                        && b@.start == 0 && final(self).chunk_memory(old(self).chunk_count_spec() as int)
                        == b@.memory)
                }
            },
            r matches Err(e) ==> {
                &&& is_oom(e) || e == MemoryError::HeapsExhausted
                &&& *final(self) == *old(self)
            },
    {
        let chunk_size = self.config.chunk_size;
        let mut ci: usize = 0;
        while ci < self.chunks.len()
            invariant
                self.wf(),
                self.config == old(self).config,
                self.memory_type == old(self).memory_type,
                self.properties == old(self).properties,
                self.live == old(self).live,
                self.chunks@ == old(self).chunks@,
                *self == *old(self),
                size <= self.config.limit(),
                chunk_size == self.config.chunk_size,
                ci <= self.chunks@.len(),
                forall|c: int, q: int| 0 <= c < ci ==> !#[trigger] old(self).fits_at(c, q, size, align),
            decreases self.chunks.len() - ci,
        {
            let live = self.chunks[ci].live;
            if live < u64::MAX {
                let nr = self.chunks[ci].free.len();
                let mut ri: usize = 0;
                while ri < nr
                    invariant
                        ci < self.chunks.len(),
                        nr == self.chunks@[ci as int].free@.len(),
                        self.wf(),
                        self.config == old(self).config,
                        self.memory_type == old(self).memory_type,
                        self.properties == old(self).properties,
                        self.live == old(self).live,
                        live == self.chunks@[ci as int].live,
                        live < u64::MAX,
                        self.chunks@ == old(self).chunks@,
                        *self == *old(self),
                        size <= self.config.limit(),
                        chunk_size == self.config.chunk_size,
                        ri <= nr,
                        forall|c: int, q: int| 0 <= c < ci ==> !#[trigger] old(self).fits_at(c, q, size, align),
                        forall|q: int| 0 <= q < ri ==> !#[trigger] old(self).fits_at(ci as int, q, size, align),
                    decreases nr - ri,
                {
                    let (s, e) = self.chunks[ci].free[ri];
                    proof {
                        assert(free_list_wf(self.chunks@[ci as int].free@, chunk_size));
                        assert(s < e && e <= chunk_size);
                    }
                    let pad = padding(s, align);
                    proof {
                        assert(old(self).free_ranges(ci as int)[ri as int] == (s, e));
                        assert(old(self).chunk_live(ci as int) == live);
                    }
                    if pad <= e - s && size <= e - s - pad {
                        proof {
                            assert(old(self).fits_at(ci as int, ri as int, size, align));
                            assert(old(self).first_fit(ci as int, ri as int, size, align));
                        }
                        let a = s + pad;
                        let block = self.carve_at(ci, ri, a, size, pad);
                        proof {
                            assert(self.chunk_memory(ci as int) == block@.memory);
                            assert(self.chunk_count_spec() == old(self).chunk_count_spec());
                            assert(self.usage() == old(self).usage());
                        }
                        return Ok((block, 0));
                    }
                    ri = ri + 1;
                }
                proof {
                    assert forall|q: int| !#[trigger] old(self).fits_at(ci as int, q, size, align) by {
                        if 0 <= q < nr {
                            assert(!old(self).fits_at(ci as int, q, size, align));
                        }
                    }
                }
            } else {
                proof {
                    assert forall|q: int| !#[trigger] old(self).fits_at(ci as int, q, size, align) by {
                        assert(old(self).chunk_live(ci as int) == live);
                    }
                }
            }
            ci = ci + 1;
        }
        proof {
            assert forall|c: int, q: int| !#[trigger] old(self).fits_at(c, q, size, align) by {
                if 0 <= c < self.chunks@.len() {
                    assert(!old(self).fits_at(c, q, size, align));
                }
            }
            assert(!old(self).can_place(size, align));
        }
        if chunk_size > room {
            return Err(MemoryError::HeapsExhausted);
        }
        match device.allocate_memory(self.memory_type, chunk_size) {
            Ok(memory) => {
                if self.holds_memory(memory) {
                    return Err(MemoryError::OutOfDeviceMemory);
                }
                proof {
                    assert forall|i: int| 0 <= i < old(self).chunks@.len() implies old(self).chunk_memory(i)
                        != memory by {
                        assert(self.chunk_memory(i) != memory);
                    }
                }
                let mut free: Vec<(u64, u64)> = Vec::new();
                if size < chunk_size {
                    free.push((size, chunk_size));
                }
                self.chunks.push(DynamicChunk { memory, free, live: 1 });
                self.live = Ghost(self.live@ + 1);
                let block = DynamicBlock::new(Region::new(memory, 0, size, size, self.properties));
                proof {
                    if align > 0 {
                        assert(0u64 % align == 0) by (nonlinear_arith)
                            requires
                                align > 0,
                        ;
                    }
                    assert forall|i: int| 0 <= i < self.chunks@.len() implies free_list_wf(
                        #[trigger] self.chunks@[i].free@,
                        self.config.chunk_size,
                    ) by {
                        if i < old(self).chunks@.len() {
                            assert(self.chunks@[i] == old(self).chunks@[i]);
                        }
                    }
                    assert(self.grown(old(self), size));
                    let n = old(self).chunks@.len() as int;
                    assert forall|i: int, j: int|
                        0 <= i < j < self.chunks@.len() implies (#[trigger] self.chunks@[i]).memory
                        != (#[trigger] self.chunks@[j]).memory by {
                        if j < n {
                            assert(old(self).chunks@[i].memory != old(self).chunks@[j].memory);
                        } else {
                            assert(old(self).chunk_memory(i) != memory);
                        }
                    }
                    assert forall|i: int| 0 <= i < self.chunks@.len() implies #[trigger] self.chunks@[i].live >= 1 by {
                        if i < n {
                            assert(self.chunks@[i] == old(self).chunks@[i]);
                        }
                    }
                    assert(self.chunk_memory(n) == memory && self.chunk_live(n) <= 1);
                    lemma_chunks_add(n, chunk_size as int);
                    Self::lemma_release_remove(&*self, &*old(self), n);
                }
                Ok((block, chunk_size))
            },
            Err(e) => Err(MemoryError::from_oom(e)),
        }
    }

    /// Give the bytes of `block` back to the free list of its chunk, merged
    /// with the free ranges they touch; release the chunk once none of its
    /// blocks is in use. Returns the bytes given back to the heap: the whole
    /// chunk where it was released, else none.
    pub fn free<D: RawDevice>(&mut self, device: &D, block: DynamicBlock) -> (r: u64)
        requires
            old(self).wf(),
        ensures
            final(self).wf(),
            r == old(self).release_of(block@.memory),
            r <= old(self).usage(),
            final(self).usage() == old(self).usage() - r,
            forall|m: u64| m != block@.memory ==> #[trigger] final(self).release_of(m) == old(self).release_of(m),
            final(self).config_spec() == old(self).config_spec(),
            final(self).memory_type_spec() == old(self).memory_type_spec(),
            final(self).properties_spec() == old(self).properties_spec(),
            final(self).live() == if old(self).live() > 0 {
                (old(self).live() - 1) as nat
            } else {
                0
            },
            (forall|ci: int|
                0 <= ci < old(self).chunk_count_spec() ==> #[trigger] old(self).chunk_memory(ci)
                    != block@.memory) ==> final(self).same_chunks(old(self)),
            forall|ci: int|
                #[trigger] old(self).first_with(ci, block@.memory) ==> {
                    &&& (old(self).chunk_live(ci) <= 1 ==> final(self).chunk_count_spec() + 1
                        == old(self).chunk_count_spec())
                    &&& (old(self).chunk_live(ci) > 1 ==> {
                        let f0 = old(self).free_ranges(ci);
                        let f1 = final(self).free_ranges(ci);
                        let (b0, b1) = (block@.start, block@.end);
                        &&& final(self).chunk_count_spec() == old(self).chunk_count_spec()
                        &&& final(self).chunk_live(ci) == old(self).chunk_live(ci) - 1
                        &&& final(self).chunk_memory(ci) == old(self).chunk_memory(ci)
                        &&& forall|j: int|
                            #![trigger final(self).chunk_memory(j)]
                            #![trigger final(self).free_ranges(j)]
                            #![trigger final(self).chunk_live(j)]
                            0 <= j < old(self).chunk_count_spec() && j != ci ==> {
                                &&& final(self).chunk_memory(j) == old(self).chunk_memory(j)
                                &&& final(self).free_ranges(j) == old(self).free_ranges(j)
                                &&& final(self).chunk_live(j) == old(self).chunk_live(j)
                            }
                        &&& (b0 < b1 <= old(self).config_spec().chunk_size && clear_of(f0, b0, b1)
                            ==> frees_with(f1, f0, b0 as int, b1 as int))
                        &&& (!(b0 < b1 <= old(self).config_spec().chunk_size && clear_of(f0, b0, b1))
                            ==> f1 == f0)
                    })
                },
    {
        let memory = block.region().memory();
        let range = block.region().range();
        let mut released: u64 = 0;
        let chunk_size = self.config.chunk_size;
        let n = self.chunks.len();
        let mut ci: usize = 0;
        while ci < n && self.chunks[ci].memory != memory
            invariant
                n == self.chunks.len(),
                ci <= n,
                forall|j: int| 0 <= j < ci ==> (#[trigger] self.chunks@[j]).memory != memory,
            decreases n - ci,
        {
            ci = ci + 1;
        }
        proof {
            assert forall|j: int| 0 <= j < ci implies #[trigger] self.chunk_memory(j) != memory by {
                assert(self.chunks@[j].memory != memory);
            }
        }
        if ci < n {
            assert(self.first_with(ci as int, memory));
            let live = self.chunks[ci].live;
            if live <= 1 {
                device.free_memory(memory);
                self.chunks.remove(ci);
                released = chunk_size;
                proof {
                    lemma_chunks_add(self.chunks@.len() as int, chunk_size as int);
                    Self::lemma_release_remove(&*old(self), &*self, ci as int);
                    assert forall|a: int, c: int|
                        0 <= a < c < self.chunks@.len() implies (#[trigger] self.chunks@[a]).memory
                        != (#[trigger] self.chunks@[c]).memory by {
                        let a0 = if a < ci { a } else { a + 1 };
                        let c0 = if c < ci { c } else { c + 1 };
                        assert(self.chunks@[a] == old(self).chunks@[a0]);
                        assert(self.chunks@[c] == old(self).chunks@[c0]);
                        assert(old(self).chunks@[a0].memory != old(self).chunks@[c0].memory);
                    }
                    assert forall|k: int| 0 <= k < self.chunks@.len() implies #[trigger] self.chunks@[k].live >= 1 by {
                        if k < ci {
                            assert(self.chunks@[k] == old(self).chunks@[k]);
                        } else {
                            assert(self.chunks@[k] == old(self).chunks@[k + 1]);
                        }
                    }
                    assert forall|i: int| 0 <= i < self.chunks@.len() implies free_list_wf(
                        #[trigger] self.chunks@[i].free@,
                        self.config.chunk_size,
                    ) by {
                        if i < ci {
                            assert(self.chunks@[i] == old(self).chunks@[i]);
                        } else {
                            assert(self.chunks@[i] == old(self).chunks@[i + 1]);
                        }
                    }
                }
            } else {
                proof {
                    assert(free_list_wf(self.chunks@[ci as int].free@, chunk_size));
                }
                let free = if range.start < range.end && range.end <= chunk_size {
                    release_range(&self.chunks[ci].free, range.start, range.end, chunk_size)
                } else {
                    proof {
                        let f = self.chunks@[ci as int].free@;
                        assert(spliced(f, 0, 0, Seq::empty()) =~= f);
                    }
                    splice(&self.chunks[ci].free, 0, 0, Vec::new())
                };
                self.chunks.set(ci, DynamicChunk { memory, free, live: live - 1 });
                proof {
                    Self::lemma_release_frame(&*self, &*old(self), memory);
                    assert forall|a: int, c: int|
                        0 <= a < c < self.chunks@.len() implies (#[trigger] self.chunks@[a]).memory
                        != (#[trigger] self.chunks@[c]).memory by {
                        assert(old(self).chunks@[a].memory != old(self).chunks@[c].memory);
                    }
                    assert forall|k: int| 0 <= k < self.chunks@.len() implies #[trigger] self.chunks@[k].live >= 1 by {
                        assert(old(self).chunks@[k].live >= 1);
                    }
                    assert forall|c: int|
                        0 <= c < old(self).chunk_count_spec() && #[trigger] old(self).chunk_memory(c)
                            == memory implies old(self).chunk_live(c) > 1 by {
                        if c != ci {
                            assert(old(self).chunks@[c].memory != old(self).chunks@[ci as int].memory);
                        }
                    }
                    assert forall|i: int| 0 <= i < self.chunks@.len() implies free_list_wf(
                        #[trigger] self.chunks@[i].free@,
                        self.config.chunk_size,
                    ) by {
                        if i != ci {
                            assert(self.chunks@[i] == old(self).chunks@[i]);
                        }
                    }
                }
            }
            proof {
                assert forall|c: int| #[trigger] old(self).first_with(c, memory) implies c == ci by {
                    if c < ci {
                        assert(old(self).chunk_memory(c) != memory);
                    } else if c > ci {
                        assert(old(self).chunk_memory(ci as int) != memory);
                    }
                }
            }
        } else {
            proof {
                assert forall|c: int| !#[trigger] old(self).first_with(c, memory) by {}
            }
        }
        let ghost pre = *self;
        self.live = Ghost(
            if self.live@ > 0 {
                (self.live@ - 1) as nat
            } else {
                0
            },
        );
        proof {
            lemma_chunks_add(self.chunks@.len() as int, chunk_size as int);
            Self::lemma_release_frame(&*self, &pre, memory);
            if ci >= n {
                Self::lemma_release_frame(&*self, &*old(self), memory);
            }
        }
        released
    }

    /// Dispose of the allocator. Every block must have been freed.
    pub fn dispose<D: RawDevice>(self, device: &D)
        requires
            self.live() == 0,
    {
        let mut chunks = self.chunks;
        while chunks.len() > 0
            decreases chunks.len(),
        {
            let chunk = chunks.pop().unwrap();
            device.free_memory(chunk.memory);
        }
    }
}

} // verus!
