//! Trusted boundary to `uniswap_v3_math`: every function that the pool
//! simulation calls, with what its source or Uniswap's documentation states
//! about it. Results that take pages to state are named, never rebuilt.

use crate::word::{fits_i256, limbs_value, pow_2_128, word_modulus, I256, U256};
use vstd::arithmetic::power2::pow2;
use vstd::prelude::*;

verus! {

/// `uniswap_v3_math`'s error type, carried through as an opaque value.
#[verifier::external_type_specification]
#[verifier::external_body]
pub struct ExMathError(uniswap_v3_math::error::UniswapV3MathError);

/// The lowest tick of Uniswap V3.
pub open spec fn min_tick() -> int {
    -887272
}

/// The highest tick of Uniswap V3.
pub open spec fn max_tick() -> int {
    887272
}

/// The square-root price of the lowest tick, as a Q64.96 number.
pub open spec fn min_sqrt_ratio() -> nat {
    4295128739
}

/// The square-root price of the highest tick, as a Q64.96 number.
pub open spec fn max_sqrt_ratio() -> nat {
    1461446703485210103287273052203988822378723970342nat
}

/// A signed 16-bit word holding the low 16 bits of an integer.
pub open spec fn wrap_i16(x: int) -> int {
    ((x + 32768) % 65536) - 32768
}

/// The square-root price at a tick (`TickMath.getSqrtRatioAtTick`).
pub uninterp spec fn sqrt_ratio_at_tick(tick: int) -> nat;

/// The tick `TickMath.getTickAtSqrtRatio` computes for a square-root price:
/// `None` where the computation fails.
pub uninterp spec fn tick_at_sqrt_ratio(sqrt_price: nat) -> Option<int>;

/// The outcome of one swap step (`SwapMath.computeSwapStep`): `None` where the
/// computation fails, else the next square-root price, the amount in, the
/// amount out and the fee amount.
pub uninterp spec fn swap_step_outcome(
    current: nat,
    target: nat,
    liquidity: nat,
    remaining: int,
    fee_pips: nat,
) -> Option<(nat, nat, nat, nat)>;

/// `uniswap_v3_math::bit_math::most_significant_bit`: fails on zero, else the
/// index of the highest set bit.
#[verifier::external_body]
pub(crate) fn most_significant_bit(x: U256) -> (r: Result<u8, uniswap_v3_math::error::UniswapV3MathError>)
    ensures
        r is Ok <==> x@ > 0,
        r matches Ok(b) ==> pow2(b as nat) <= x@ < pow2(b as nat + 1),
{
    uniswap_v3_math::bit_math::most_significant_bit(alloy_primitives::U256::from_limbs([x.l0, x.l1, x.l2, x.l3]))
}

/// `uniswap_v3_math::bit_math::least_significant_bit`: fails on zero, else the
/// index of the lowest set bit.
#[verifier::external_body]
pub(crate) fn least_significant_bit(x: U256) -> (r: Result<u8, uniswap_v3_math::error::UniswapV3MathError>)
    ensures
        r is Ok <==> x@ > 0,
        r matches Ok(b) ==> x@ % pow2(b as nat) == 0 && (x@ / pow2(b as nat)) % 2 == 1,
{
    uniswap_v3_math::bit_math::least_significant_bit(alloy_primitives::U256::from_limbs([x.l0, x.l1, x.l2, x.l3]))
}

/// The word of a compressed tick in the bitmap (`tick >> 8`, kept to 16
/// bits) and its bit within the word (`tick` modulo 256), as
/// `uniswap_v3_math::tick_bitmap::position` computes them.
pub(crate) fn position(tick: i32) -> (r: (i16, u8))
    ensures
        r.0 as int == wrap_i16(tick as int / 256),
        r.1 as int == tick as int % 256,
{
    let word: i32 = tick >> 8u32;
    let bit: i32 = tick & 255i32;
    assert(word as int == tick as int / 256 && bit as int == tick as int % 256 && 0 <= bit < 256) by (bit_vector)
        requires
            word == tick >> 8u32,
            bit == tick & 255i32,
    ;
    let w16: i16 = #[verifier::truncate] (word as i16);
    assert(w16 == (((word as int + 32768) % 65536) - 32768)) by (bit_vector)
        requires
            w16 == #[verifier::truncate] (word as i16),
    ;
    (w16, bit as u8)
}

/// `uniswap_v3_math::full_math::mul_div`: `floor(a * b / d)` with a 512-bit
/// intermediate product; it fails when `d` is zero or the quotient does not
/// fit 256 bits.
#[verifier::external_body]
pub(crate) fn mul_div(a: U256, b: U256, d: U256) -> (r: Result<U256, uniswap_v3_math::error::UniswapV3MathError>)
    ensures
        r is Ok <==> (d@ > 0 && a@ * b@ / d@ < word_modulus()),
        r matches Ok(v) ==> v@ == a@ * b@ / d@,
{
    let x = alloy_primitives::U256::from_limbs([a.l0, a.l1, a.l2, a.l3]);
    let y = alloy_primitives::U256::from_limbs([b.l0, b.l1, b.l2, b.l3]);
    let z = alloy_primitives::U256::from_limbs([d.l0, d.l1, d.l2, d.l3]);
    let l = uniswap_v3_math::full_math::mul_div(x, y, z)?.into_limbs();
    Ok(U256 { l0: l[0], l1: l[1], l2: l[2], l3: l[3] })
}

/// `uniswap_v3_math::liquidity_math::add_delta`: `x + y` where it fits 128
/// unsigned bits, else an error. It negates a negative `y` first, which
/// overflows for `i128::MIN`; `requires` leaves that input out.
#[verifier::external_body]
pub(crate) fn add_delta(x: u128, y: i128) -> (r: Result<u128, uniswap_v3_math::error::UniswapV3MathError>)
    requires
        y != i128::MIN,
    ensures
        r is Ok <==> 0 <= x + y < pow_2_128(),
        r matches Ok(v) ==> v == x + y,
{
    uniswap_v3_math::liquidity_math::add_delta(x, y)
}

/// `uniswap_v3_math::tick_math::get_sqrt_ratio_at_tick`: fails outside
/// `[MIN_TICK, MAX_TICK]`, else the named square-root price. It negates a
/// negative tick first, which overflows for `i32::MIN`; `requires` leaves
/// that input out.
#[verifier::external_body]
pub(crate) fn get_sqrt_ratio_at_tick(tick: i32) -> (r: Result<U256, uniswap_v3_math::error::UniswapV3MathError>)
    requires
        tick != i32::MIN,
    ensures
        r is Ok <==> min_tick() <= tick <= max_tick(),
        r matches Ok(v) ==> v@ == sqrt_ratio_at_tick(tick as int),
{
    let l = uniswap_v3_math::tick_math::get_sqrt_ratio_at_tick(tick)?.into_limbs();
    Ok(U256 { l0: l[0], l1: l[1], l2: l[2], l3: l[3] })
}

/// `uniswap_v3_math::tick_math::get_tick_at_sqrt_ratio`: fails outside
/// `[MIN_SQRT_RATIO, MAX_SQRT_RATIO)`, else the named outcome. Inside that
/// range it picks between two candidate ticks and calls
/// `get_sqrt_ratio_at_tick` on one of them; the source does not bound those
/// candidates, so neither success nor the range of the tick is stated.
#[verifier::external_body]
pub(crate) fn get_tick_at_sqrt_ratio(sqrt_price: U256) -> (r: Result<i32, uniswap_v3_math::error::UniswapV3MathError>)
    ensures
        !(min_sqrt_ratio() <= sqrt_price@ < max_sqrt_ratio()) ==> r is Err,
        match r {
            Ok(t) => tick_at_sqrt_ratio(sqrt_price@) == Some(t as int),
            Err(_) => tick_at_sqrt_ratio(sqrt_price@) is None,
        },
{
    uniswap_v3_math::tick_math::get_tick_at_sqrt_ratio(alloy_primitives::U256::from_limbs([sqrt_price.l0, sqrt_price.l1, sqrt_price.l2, sqrt_price.l3]))
}

/// `uniswap_v3_math::swap_math::compute_swap_step`, with its outcome named;
/// the next price and the three amounts come back as limbs. It computes
/// `1e6 - fee_pips` on `u32` and negates a negative remaining amount;
/// `requires` leaves out the inputs on which those overflow.
#[verifier::external_body]
pub(crate) fn compute_swap_step(
    current: U256,
    target: U256,
    liquidity: u128,
    remaining: I256,
    fee_pips: u32,
) -> (r: Result<([u64; 4], [u64; 4], [u64; 4], [u64; 4]), uniswap_v3_math::error::UniswapV3MathError>)
    requires
        fee_pips <= 1_000_000,
        fits_i256(-remaining@),
    ensures
        r is Ok <==> swap_step_outcome(current@, target@, liquidity as nat, remaining@, fee_pips as nat) is Some,
        r matches Ok(v) ==> swap_step_outcome(current@, target@, liquidity as nat, remaining@, fee_pips as nat)
            == Some((limbs_value(v.0), limbs_value(v.1), limbs_value(v.2), limbs_value(v.3))),
{
    let c = alloy_primitives::U256::from_limbs([current.l0, current.l1, current.l2, current.l3]);
    let t = alloy_primitives::U256::from_limbs([target.l0, target.l1, target.l2, target.l3]);
    let a = alloy_primitives::I256::from_raw(alloy_primitives::U256::from_limbs([remaining.raw.l0, remaining.raw.l1, remaining.raw.l2, remaining.raw.l3]));
    let (n, i, o, f) = uniswap_v3_math::swap_math::compute_swap_step(c, t, liquidity, a, fee_pips)?;
    Ok((n.into_limbs(), i.into_limbs(), o.into_limbs(), f.into_limbs()))
}

} // verus!
