use vstd::arithmetic::div_mod::{lemma_fundamental_div_mod, lemma_mod_multiples_basic};
use vstd::prelude::*;

verus! {

/// Bytes to skip from `offset` to reach a multiple of `align`. An `align` of
/// zero asks for no alignment.
pub open spec fn padding_spec(offset: u64, align: u64) -> int {
    if align == 0 || offset % align == 0 {
        0
    } else {
        align - offset % align
    }
}

pub fn padding(offset: u64, align: u64) -> (pad: u64)
    ensures
        pad == padding_spec(offset, align),
        align == 0 ==> pad == 0,
        align > 0 ==> pad < align && (offset + pad) % (align as int) == 0,
{
    if align == 0 {
        0
    } else {
        let rem = offset % align;
        if rem == 0 {
            0
        } else {
            proof {
                let o = offset as int;
                let a = align as int;
                let q = o / a;
                lemma_fundamental_div_mod(o, a);
                assert(o + (a - o % a) == (q + 1) * a) by (nonlinear_arith)
                    requires
                        o == a * q + o % a,
                ;
                lemma_mod_multiples_basic(q + 1, a);
            }
            align - rem
        }
    }
}

/// Adding one more chunk of `c` bytes to `n` adds exactly `c`.
pub proof fn lemma_chunks_add(n: int, c: int)
    requires
        n >= 0,
        c >= 0,
    ensures
        (n + 1) * c == n * c + c,
        n * c >= 0,
        (n + 1) * c >= c,
{
    assert((n + 1) * c == n * c + c) by (nonlinear_arith);
    assert(n * c >= 0) by (nonlinear_arith)
        requires
            n >= 0,
            c >= 0,
    ;
}

} // verus!
