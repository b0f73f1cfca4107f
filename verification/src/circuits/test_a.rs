//! A small test circuit: a private input `p1` times a public input `p2`,
//! asserted not to overflow 64 bits and to equal the public output `o3`.
use vstd::prelude::*;

verus! {

/// Whether `p1`, `p2`, `o3` satisfy the test circuit: the high 64 bits of
/// the 128-bit product `p1 * p2` are zero and its low 64 bits equal `o3`.
pub fn a(p1: u64, p2: u64, o3: u64) -> (ok: bool)
    ensures
        ok == (p1 * p2 <= u64::MAX && o3 == p1 * p2),
{
    assert(p1 * p2 <= 0xffff_ffff_ffff_ffffu64 * 0xffff_ffff_ffff_ffffu64) by (nonlinear_arith)
        requires
            p1 <= 0xffff_ffff_ffff_ffffu64,
            p2 <= 0xffff_ffff_ffff_ffffu64,
    ;
    let product: u128 = (p1 as u128) * (p2 as u128);
    assert(product == p1 * p2) by (nonlinear_arith)
        requires
            product == (p1 as u128) * (p2 as u128),
    ;
    let high = (product >> 64u128) as u64;
    let low = product as u64;
    assert(high == 0 <==> product <= u64::MAX as u128) by (bit_vector)
        requires
            high == (product >> 64u128) as u64,
    ;
    assert(product <= u64::MAX as u128 ==> low == product) by (bit_vector)
        requires
            low == product as u64,
    ;
    high == 0 && o3 == low
}

} // verus!
