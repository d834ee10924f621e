//! Basis-point fee arithmetic shared by the protocol fee, the late fee
//! and the insurance surcharge: `fee = floor(amount * bps / 10000)`.

use vstd::prelude::*;

use crate::MAX_BASIS_POINTS;

verus! {

/// `floor(amount * bps / 10000)`.
pub open spec fn spec_fee_of(amount: u64, bps: u32) -> int {
    (amount * bps) / (MAX_BASIS_POINTS as int)
}

/// A fee at a rate of at most the whole never exceeds the amount, and a
/// zero rate yields exactly zero.
pub proof fn lemma_fee_of_bounds(amount: u64, bps: u32)
    requires
        bps <= MAX_BASIS_POINTS,
    ensures
        0 <= spec_fee_of(amount, bps) <= amount,
        bps == 0 ==> spec_fee_of(amount, bps) == 0,
{
    assert(0 <= (amount * bps) / (MAX_BASIS_POINTS as int) <= amount) by (nonlinear_arith)
        requires
            bps <= MAX_BASIS_POINTS,
            amount >= 0,
            MAX_BASIS_POINTS == 10000,
    ;
}

/// Compute a basis-point fee without overflow, widening to 128 bits.
pub fn fee_of(amount: u64, bps: u32) -> (fee: u64)
    requires
        bps <= MAX_BASIS_POINTS,
    ensures
        fee == spec_fee_of(amount, bps),
        fee <= amount,
        bps == 0 ==> fee == 0,
{
    proof {
        lemma_fee_of_bounds(amount, bps);
    }
    let wide: u128 = (amount as u128) * (bps as u128) / (MAX_BASIS_POINTS as u128);
    wide as u64
}

} // verus!
