//! The lucky-draw engine: a pure map from a draw of randomness to the raw
//! draw value and the reward tier.
use vstd::prelude::*;

use crate::TOKEN_1;

verus! {

/// The draw modulus: raw values are reduced into `[0, LUCKYDRAW_DIVISOR)`,
/// about 3446 whole tokens, giving the payout its long tail.
pub const LUCKYDRAW_DIVISOR: u64 = 344_693_032_001;

/// The jackpot reward, in whole tokens.
pub const LUCKIEST_AIRDROP_AMOUNT: u64 = 100_000;

/// The raw draw value: the first eight bytes of the randomness read as a
/// big-endian integer, reduced by the draw modulus.
pub open spec fn spec_draw_value(random: Seq<u8>) -> u64
    recommends
        random.len() >= 8,
{
    let x = ((random[0] as u64) << 56) | ((random[1] as u64) << 48) | ((random[2] as u64) << 40)
        | ((random[3] as u64) << 32) | ((random[4] as u64) << 24) | ((random[5] as u64) << 16) | (
    (random[6] as u64) << 8) | (random[7] as u64);
    x % LUCKYDRAW_DIVISOR
}

/// The reward for raw value `x`, in minor units: the jackpot at five whole
/// tokens and below, the fixed floor of 1000 tokens up to 1000, and the value
/// itself above that.
pub open spec fn spec_draw_amount(x: u64) -> u64
    recommends
        x < LUCKYDRAW_DIVISOR,
{
    let v = x / TOKEN_1;
    if v <= 5 {
        (LUCKIEST_AIRDROP_AMOUNT * TOKEN_1) as u64
    } else if v <= 1000 {
        (1000 * TOKEN_1) as u64
    } else {
        (v * TOKEN_1) as u64
    }
}

/// Maps a draw of randomness to the raw draw value and the reward in minor
/// units.
pub fn luckydraw_amount(random: &[u8]) -> (r: (u64, u64))
    requires
        random@.len() >= 8,
    ensures
        r.0 == spec_draw_value(random@),
        r.0 < LUCKYDRAW_DIVISOR,
        r.1 == spec_draw_amount(r.0),
{
    let x = ((random[0] as u64) << 56) | ((random[1] as u64) << 48) | ((random[2] as u64) << 40)
        | ((random[3] as u64) << 32) | ((random[4] as u64) << 24) | ((random[5] as u64) << 16) | (
    (random[6] as u64) << 8) | (random[7] as u64);
    let x = x % LUCKYDRAW_DIVISOR;
    let v = x / TOKEN_1;
    assert(v <= 3446) by {
        assert(x / TOKEN_1 <= 344_693_032_000u64 / TOKEN_1) by (nonlinear_arith)
            requires
                x <= 344_693_032_000u64,
        ;
    }
    let amount: u64 = if v <= 5 {
        LUCKIEST_AIRDROP_AMOUNT
    } else if v <= 1000 {
        1000
    } else {
        v
    };
    (x, amount * TOKEN_1)
}

} // verus!
