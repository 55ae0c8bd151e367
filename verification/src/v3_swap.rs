//! The swap of a concentrated-liquidity pool, one step at a time. A step
//! moves the price to the next initialized tick of the bitmap word it reads,
//! or to the price limit, and crosses that tick where the price reached it.
//! Both reads go through the pool's storage mappings; where a mapping lacks
//! a storage slot, the step asks the caller to fetch it and changes nothing.

use crate::abi::{abi_bytes, abi_word, address_value, address_word, encode_four_words_bytes, encode_three_words_bytes};
use crate::cache::MappingKey;
use crate::storage::mapping_value_slot;
use crate::tick_bitmap::{bitmap_word_to_search, next_initialized_tick_within_one_word, search_inputs_ok, search_next, search_start, search_word};
use crate::v3_math::{
    add_delta, compute_swap_step, get_sqrt_ratio_at_tick, get_tick_at_sqrt_ratio, max_sqrt_ratio,
    max_tick, min_sqrt_ratio, min_tick, mul_div, sqrt_ratio_at_tick, swap_step_outcome, tick_at_sqrt_ratio,
};
use crate::token::Address;
use crate::v3_pool::PancakeSwapV3Pool;
use crate::word::{
    fits_i256, lemma_signed_bounds, pow_2_128, pow_2_255, signed_checked_add, signed_checked_neg,
    signed_checked_sub, word_add, word_div, word_modulus, word_mul, word_sub, I256, U256,
};
use vstd::prelude::*;

verus! {

/// What a swap fixes at its start: the protocol's share of the fee in the
/// swap's direction, and the liquidity it starts with.
#[derive(Clone, Copy, PartialEq, Eq, Structural, Debug)]
pub struct SwapCache {
    pub fee_protocol: u32,
    pub liquidity_start: u128,
}

/// The running state of a swap.
#[derive(Clone, Copy, PartialEq, Eq, Structural, Debug)]
pub struct SwapState {
    pub amount_specified_remaining: I256,
    pub amount_calculated: I256,
    pub sqrt_price_x96: U256,
    pub tick: i32,
    pub fee_growth_global_x128: U256,
    pub protocol_fee: u128,
    pub liquidity: u128,
}

/// The state of a swap as numbers.
pub struct SwapModel {
    pub remaining: int,
    pub calculated: int,
    pub sqrt_price: nat,
    pub tick: int,
    pub fee_growth: nat,
    pub protocol_fee: nat,
    pub liquidity: nat,
}

impl View for SwapState {
    type V = SwapModel;

    open spec fn view(&self) -> SwapModel {
        SwapModel {
            remaining: self.amount_specified_remaining@,
            calculated: self.amount_calculated@,
            sqrt_price: self.sqrt_price_x96@,
            tick: self.tick as int,
            fee_growth: self.fee_growth_global_x128@,
            protocol_fee: self.protocol_fee as nat,
            liquidity: self.liquidity as nat,
        }
    }
}

/// A swap under way: its direction, whether the amount specified is an
/// input, that amount, the price limit, what it fixed at the start, and its
/// state.
#[derive(Clone, Copy, PartialEq, Eq, Structural, Debug)]
pub struct SwapRun {
    pub zero_for_one: bool,
    pub exact_input: bool,
    pub amount_specified: I256,
    pub sqrt_price_limit_x96: U256,
    pub cache: SwapCache,
    pub state: SwapState,
}

/// Why a swap cannot be completed: a computation of the pool's math failed,
/// or a signed or 128-bit amount left its range.
#[derive(Clone, Copy, PartialEq, Eq, Structural, Debug)]
pub enum SwapError {
    Math,
    Overflow,
}

/// What a swap step did: it moved the state, it needs `count` consecutive
/// storage slots from `slot` fetched into the pool's storage before it can
/// go on, or the swap is finished with the amount out.
#[derive(Clone, Copy, PartialEq, Eq, Structural, Debug)]
pub enum SwapProgress {
    Stepped,
    NeedSlots { slot: U256, count: usize },
    Done(U256),
}

/// The value of a word read as a signed word.
pub open spec fn signed_word(n: nat) -> int {
    if n >= pow_2_255() {
        n - word_modulus()
    } else {
        n as int
    }
}

/// The raw bits of a signed value, as an unsigned word.
pub open spec fn raw_word(x: int) -> nat {
    (if x < 0 {
        x + word_modulus()
    } else {
        x
    }) as nat
}

/// A tick clamped to `[MIN_TICK, MAX_TICK]`.
pub open spec fn clamp_tick(t: int) -> int {
    if t < min_tick() {
        min_tick()
    } else if t > max_tick() {
        max_tick()
    } else {
        t
    }
}

/// The price a step aims at: the next tick's price, or the limit where that
/// price lies beyond it.
pub open spec fn step_target(zero_for_one: bool, next_price: nat, limit: nat) -> nat {
    if zero_for_one {
        if next_price < limit {
            limit
        } else {
            next_price
        }
    } else {
        if next_price > limit {
            limit
        } else {
            next_price
        }
    }
}

/// A swap is finished once nothing remains of the amount specified or the
/// price reached the limit.
pub open spec fn swap_finished(run: SwapRun) -> bool {
    run.state.amount_specified_remaining@ == 0 || run.state.sqrt_price_x96@ == run.sqrt_price_limit_x96@
}

impl SwapRun {
    /// Whether the swap is finished: nothing of the amount specified is
    /// left, or the price reached the limit.
    pub fn is_finished(&self) -> (b: bool)
        ensures
            b == swap_finished(*self),
    {
        self.state.amount_specified_remaining.is_zero() || self.state.sqrt_price_x96.eq_word(&self.sqrt_price_limit_x96)
    }
}

/// The amount out of a finished swap: the negated amount of the token the
/// swap does not take in, as raw bits; the pool's two amounts are the part
/// of the amount specified that was used and the amount calculated.
pub open spec fn swap_output(run: SwapRun) -> Result<nat, SwapError> {
    let used = run.amount_specified@ - run.state.amount_specified_remaining@;
    let calculated = run.state.amount_calculated@;
    let amount0 = if run.zero_for_one == run.exact_input { used } else { calculated };
    let amount1 = if run.zero_for_one == run.exact_input { calculated } else { used };
    let out = if run.zero_for_one { amount1 } else { amount0 };
    if !fits_i256(used) || !fits_i256(-out) {
        Err(SwapError::Overflow)
    } else {
        Ok(raw_word(-out))
    }
}

/// What one outcome of the swap math does to a run's state: the price
/// moves to the outcome's, the amount paid in (amount and fee) and the
/// amount out are booked on the amounts specified and calculated, the
/// protocol takes its share of the fee, and the rest of the fee grows the
/// fee growth per unit of liquidity. The tick and the liquidity stay.
pub open spec fn step_effect(run: SwapRun, outcome: (nat, nat, nat, nat)) -> Result<SwapModel, SwapError> {
    let s = run.state@;
    let (price, amount_in, amount_out, fee_amount) = outcome;
    let paid = signed_word((amount_in + fee_amount) % word_modulus());
    let out = signed_word(amount_out);
    let remaining = if run.exact_input { s.remaining - paid } else { s.remaining + out };
    let calculated = if run.exact_input { s.calculated - out } else { s.calculated + paid };
    let fp = run.cache.fee_protocol as nat;
    let delta = (fee_amount * fp) % word_modulus() / 10000;
    let lp_fee = if fp > 0 { ((fee_amount - delta + word_modulus()) % (word_modulus() as int)) as nat } else { fee_amount };
    let protocol_fee = if fp > 0 { s.protocol_fee + delta } else { s.protocol_fee };
    let growth = lp_fee * pow_2_128() / s.liquidity;
    if !fits_i256(remaining) || !fits_i256(calculated) {
        Err(SwapError::Overflow)
    } else if fp > 0 && (delta >= pow_2_128() || protocol_fee >= pow_2_128()) {
        Err(SwapError::Overflow)
    } else if s.liquidity > 0 && growth >= word_modulus() {
        Err(SwapError::Math)
    } else {
        Ok(SwapModel {
            remaining,
            calculated,
            sqrt_price: price,
            tick: s.tick,
            fee_growth: if s.liquidity > 0 { (s.fee_growth + growth) % word_modulus() } else { s.fee_growth },
            protocol_fee,
            liquidity: s.liquidity,
        })
    }
}

/// The first part of a step towards the tick `next` (already clamped): the
/// swap math towards the target price, and its effect on the state.
pub open spec fn step_move(run: SwapRun, fee: nat, next: int) -> Result<SwapModel, SwapError> {
    let s = run.state@;
    let target = step_target(run.zero_for_one, sqrt_ratio_at_tick(next), run.sqrt_price_limit_x96@);
    if !fits_i256(-s.remaining) {
        Err(SwapError::Overflow)
    } else {
        match swap_step_outcome(s.sqrt_price, target, s.liquidity, s.remaining, fee) {
            None => Err(SwapError::Math),
            Some(outcome) => step_effect(run, outcome),
        }
    }
}

/// The second part of a step: where the price reached the tick `next`, the
/// state moves onto it (one below when the price falls) and, if the tick is
/// initialized, its net liquidity is added, negated when the price falls;
/// where the price moved short of it, the tick follows the price, and the
/// step fails where the tick math fails or gives a tick outside
/// `[MIN_TICK, MAX_TICK]`. `Ok(None)` when the crossed tick's net liquidity is
/// needed and not given.
pub open spec fn step_cross(run: SwapRun, moved: SwapModel, next: int, initialized: bool, liquidity_net: Option<int>) -> Result<Option<SwapModel>, SwapError> {
    let zero_for_one = run.zero_for_one;
    if moved.sqrt_price == sqrt_ratio_at_tick(next) {
        let tick = if zero_for_one { next - 1 } else { next };
        if initialized {
            match liquidity_net {
                None => Ok(None),
                Some(net) => {
                    if net == -0x8000_0000_0000_0000_0000_0000_0000_0000 {
                        Err(SwapError::Overflow)
                    } else {
                        let liquidity = moved.liquidity + if zero_for_one { -net } else { net };
                        if 0 <= liquidity < pow_2_128() {
                            Ok(Some(SwapModel {
                                remaining: moved.remaining,
                                calculated: moved.calculated,
                                sqrt_price: moved.sqrt_price,
                                tick,
                                fee_growth: moved.fee_growth,
                                protocol_fee: moved.protocol_fee,
                                liquidity: liquidity as nat,
                            }))
                        } else {
                            Err(SwapError::Math)
                        }
                    }
                },
            }
        } else {
            Ok(Some(SwapModel {
                remaining: moved.remaining,
                calculated: moved.calculated,
                sqrt_price: moved.sqrt_price,
                tick,
                fee_growth: moved.fee_growth,
                protocol_fee: moved.protocol_fee,
                liquidity: moved.liquidity,
            }))
        }
    } else if moved.sqrt_price != run.state.sqrt_price_x96@ {
        match tick_at_sqrt_ratio(moved.sqrt_price) {
            Some(t) => if min_tick() <= t <= max_tick() {
                Ok(Some(SwapModel {
                    remaining: moved.remaining,
                    calculated: moved.calculated,
                    sqrt_price: moved.sqrt_price,
                    tick: t,
                    fee_growth: moved.fee_growth,
                    protocol_fee: moved.protocol_fee,
                    liquidity: moved.liquidity,
                }))
            } else {
                Err(SwapError::Math)
            },
            None => Err(SwapError::Math),
        }
    } else {
        Ok(Some(moved))
    }
}

/// A tick of the swap's state stays within 24 signed bits.
pub open spec fn tick_in_range(tick: int) -> bool {
    -0x80_0000 <= tick < 0x80_0000
}

/// `x == -2^255`, the one signed word whose negation does not fit.
fn is_min_signed(x: I256) -> (b: bool)
    ensures
        b == !fits_i256(-x@),
{
    proof {
        lemma_signed_bounds(x);
    }
    x.raw.eq_word(&U256 { l0: 0, l1: 0, l2: 0, l3: 0x8000_0000_0000_0000 })
}

/// The tick clamped to `[MIN_TICK, MAX_TICK]`.
pub fn clamp(t: i32) -> (c: i32)
    ensures
        c as int == clamp_tick(t as int),
{
    if t < -887272 {
        -887272
    } else if t > 887272 {
        887272
    } else {
        t
    }
}

/// The output of a finished swap.
pub fn finish_output(run: &SwapRun) -> (r: Result<U256, SwapError>)
    ensures
        match swap_output(*run) {
            Ok(v) => r matches Ok(a) && a@ == v,
            Err(e) => r == Err::<U256, SwapError>(e),
        },
{
    let used = match signed_checked_sub(run.amount_specified, run.state.amount_specified_remaining) {
        Some(v) => v,
        None => return Err(SwapError::Overflow),
    };
    let calculated = run.state.amount_calculated;
    let (amount0, amount1) = if run.zero_for_one == run.exact_input {
        (used, calculated)
    } else {
        (calculated, used)
    };
    let out = if run.zero_for_one {
        amount1
    } else {
        amount0
    };
    match signed_checked_neg(out) {
        Some(v) => {
            proof {
                lemma_signed_bounds(v);
            }
            Ok(v.raw)
        },
        None => Err(SwapError::Overflow),
    }
}

/// The effect of one outcome of the swap math on a run's state.
#[verifier::rlimit(40)]
pub fn apply_step_outcome(run: &SwapRun, price: U256, amount_in: U256, amount_out: U256, fee_amount: U256) -> (r: Result<SwapState, SwapError>)
    ensures
        match r {
            Ok(s) => step_effect(*run, (price@, amount_in@, amount_out@, fee_amount@)) == Ok::<SwapModel, SwapError>(s@),
            Err(e) => step_effect(*run, (price@, amount_in@, amount_out@, fee_amount@)) == Err::<SwapModel, SwapError>(e),
        },
{
    let s = run.state;
    let paid = I256::from_raw(word_add(amount_in, fee_amount));
    let out = I256::from_raw(amount_out);
    let (remaining, calculated) = if run.exact_input {
        (signed_checked_sub(s.amount_specified_remaining, paid), signed_checked_sub(s.amount_calculated, out))
    } else {
        (signed_checked_add(s.amount_specified_remaining, out), signed_checked_add(s.amount_calculated, paid))
    };
    let remaining = match remaining {
        Some(v) => v,
        None => return Err(SwapError::Overflow),
    };
    let calculated = match calculated {
        Some(v) => v,
        None => return Err(SwapError::Overflow),
    };
    let mut lp_fee = fee_amount;
    let mut protocol_fee = s.protocol_fee;
    if run.cache.fee_protocol > 0 {
        let delta = word_div(word_mul(fee_amount, U256::from_u64(run.cache.fee_protocol as u64)), U256::from_u64(10000));
        lp_fee = word_sub(fee_amount, delta);
        if !delta.fits_u128() {
            return Err(SwapError::Overflow);
        }
        protocol_fee = match s.protocol_fee.checked_add(delta.to_u128()) {
            Some(v) => v,
            None => return Err(SwapError::Overflow),
        };
    }
    let mut fee_growth = s.fee_growth_global_x128;
    if s.liquidity > 0 {
        let q128 = U256 { l0: 0, l1: 0, l2: 1, l3: 0 };
        proof {
            assert(q128@ == pow_2_128());
        }
        let growth = match mul_div(lp_fee, q128, U256::from_u128(s.liquidity)) {
            Ok(v) => v,
            Err(_) => return Err(SwapError::Math),
        };
        fee_growth = word_add(fee_growth, growth);
    }
    Ok(SwapState {
        amount_specified_remaining: remaining,
        amount_calculated: calculated,
        sqrt_price_x96: price,
        tick: s.tick,
        fee_growth_global_x128: fee_growth,
        protocol_fee,
        liquidity: s.liquidity,
    })
}

/// The first part of a step towards the clamped tick `next`, with that
/// tick's price.
pub fn move_step(run: &SwapRun, fee: u32, next: i32) -> (r: Result<(SwapState, U256), SwapError>)
    requires
        fee <= 1_000_000,
        min_tick() <= next <= max_tick(),
    ensures
        match r {
            Ok((s, p)) => step_move(*run, fee as nat, next as int) == Ok::<SwapModel, SwapError>(s@)
                && p@ == sqrt_ratio_at_tick(next as int),
            Err(e) => step_move(*run, fee as nat, next as int) == Err::<SwapModel, SwapError>(e),
        },
{
    let s = run.state;
    let next_price = match get_sqrt_ratio_at_tick(next) {
        Ok(p) => p,
        Err(_) => return Err(SwapError::Math),
    };
    let limit = run.sqrt_price_limit_x96;
    let target = if run.zero_for_one {
        if next_price.lt(&limit) {
            limit
        } else {
            next_price
        }
    } else {
        if limit.lt(&next_price) {
            limit
        } else {
            next_price
        }
    };
    if is_min_signed(s.amount_specified_remaining) {
        return Err(SwapError::Overflow);
    }
    let (price, amount_in, amount_out, fee_amount) = match compute_swap_step(
        s.sqrt_price_x96,
        target,
        s.liquidity,
        s.amount_specified_remaining,
        fee,
    ) {
        Ok(v) => (U256::from_limbs(v.0), U256::from_limbs(v.1), U256::from_limbs(v.2), U256::from_limbs(v.3)),
        Err(_) => return Err(SwapError::Math),
    };
    match apply_step_outcome(run, price, amount_in, amount_out, fee_amount) {
        Ok(moved) => Ok((moved, next_price)),
        Err(e) => Err(e),
    }
}

/// The second part of a step: the crossing of the tick `next`, whose price
/// is `next_price`, given its net liquidity where it is known.
pub fn cross_step(run: &SwapRun, moved: SwapState, next: i32, next_price: U256, initialized: bool, liquidity_net: Option<i128>) -> (r: Result<Option<SwapState>, SwapError>)
    requires
        min_tick() <= next <= max_tick(),
        next_price@ == sqrt_ratio_at_tick(next as int),
    ensures
        step_cross(*run, moved@, next as int, initialized, match liquidity_net { Some(n) => Some(n as int), None => None }) == match r {
            Ok(Some(s)) => Ok::<Option<SwapModel>, SwapError>(Some(s@)),
            Ok(None) => Ok::<Option<SwapModel>, SwapError>(None),
            Err(e) => Err::<Option<SwapModel>, SwapError>(e),
        },
        r matches Ok(Some(s)) ==> tick_in_range(s.tick as int) || s.tick == moved.tick,
{
    if moved.sqrt_price_x96.eq_word(&next_price) {
        let tick = if run.zero_for_one {
            next - 1
        } else {
            next
        };
        if initialized {
            match liquidity_net {
                None => Ok(None),
                Some(net) => {
                    if net == i128::MIN {
                        return Err(SwapError::Overflow);
                    }
                    let delta = if run.zero_for_one {
                        -net
                    } else {
                        net
                    };
                    match add_delta(moved.liquidity, delta) {
                        Ok(liquidity) => Ok(Some(SwapState { tick, liquidity, ..moved })),
                        Err(_) => Err(SwapError::Math),
                    }
                },
            }
        } else {
            Ok(Some(SwapState { tick, ..moved }))
        }
    } else if !moved.sqrt_price_x96.eq_word(&run.state.sqrt_price_x96) {
        match get_tick_at_sqrt_ratio(moved.sqrt_price_x96) {
            Ok(tick) => if -887272 <= tick && tick <= 887272 {
                Ok(Some(SwapState { tick, ..moved }))
            } else {
                Err(SwapError::Math)
            },
            Err(_) => Err(SwapError::Math),
        }
    } else {
        Ok(Some(moved))
    }
}

/// The raw tick the bitmap search gives for a run's next step on a bitmap
/// word, and whether that tick is initialized.
pub open spec fn step_search(pool: PancakeSwapV3Pool, run: SwapRun, word: nat) -> (int, bool) {
    search_next(word, run.state.tick as int, pool.tick_spacing as int, run.zero_for_one)
}

/// The tick a run's next step moves towards: the search result, clamped.
pub open spec fn step_next(pool: PancakeSwapV3Pool, run: SwapRun, word: nat) -> int {
    clamp_tick(step_search(pool, run, word).0)
}

/// The net liquidity of a tick, as the pool's tick mapping and storage give
/// it.
pub open spec fn known_liquidity_net(pool: PancakeSwapV3Pool, tick: int) -> Option<int> {
    match pool.ticks.lookup(&pool.storage, tick as i32) {
        Some(info) => Some(info.liquidity_net as int),
        None => None,
    }
}

/// A run's next step on a bitmap word: the new state, or `Ok(None)` where
/// the crossed tick is not known.
pub open spec fn step_result(pool: PancakeSwapV3Pool, run: SwapRun, word: nat) -> Result<Option<SwapModel>, SwapError> {
    let next = step_next(pool, run, word);
    match step_move(run, pool.fee as nat, next) {
        Err(e) => Err(e),
        Ok(moved) => step_cross(run, moved, next, step_search(pool, run, word).1, known_liquidity_net(pool, next)),
    }
}

/// The swap a pool starts from its state: `None` where the price limit is
/// not beyond the current price in the swap's direction.
pub open spec fn swap_start(pool: PancakeSwapV3Pool, zero_for_one: bool, amount_specified: I256, limit: U256) -> Option<SwapRun> {
    let price = pool.slot0.sqrt_price_x96;
    if (zero_for_one && limit@ >= price@) || (!zero_for_one && limit@ <= price@) {
        None
    } else {
        Some(SwapRun {
            zero_for_one,
            exact_input: amount_specified@ > 0,
            amount_specified,
            sqrt_price_limit_x96: limit,
            cache: SwapCache {
                fee_protocol: if zero_for_one { (pool.slot0.fee_protocol % 65536) as u32 } else { (pool.slot0.fee_protocol / 65536) as u32 },
                liquidity_start: pool.liquidity,
            },
            state: SwapState {
                amount_specified_remaining: amount_specified,
                amount_calculated: I256 { raw: U256 { l0: 0, l1: 0, l2: 0, l3: 0 } },
                sqrt_price_x96: price,
                tick: pool.slot0.tick,
                fee_growth_global_x128: if zero_for_one { pool.fee_growth_global_0_x128 } else { pool.fee_growth_global_1_x128 },
                protocol_fee: 0,
                liquidity: pool.liquidity,
            },
        })
    }
}

/// `MIN_SQRT_RATIO + 1`, the price limit of a swap of token0 in.
pub open spec fn lowest_limit() -> nat {
    min_sqrt_ratio() + 1
}

/// `MAX_SQRT_RATIO - 1`, the price limit of a swap of token1 in.
pub open spec fn highest_limit() -> nat {
    (max_sqrt_ratio() - 1) as nat
}

/// The selector of `swap(address,bool,int256,uint160,bytes)`.
pub open spec fn swap_selector() -> Seq<u8> {
    seq![0x12u8, 0x8au8, 0xcbu8, 0x08u8]
}

/// The data the pool hands back to the swap's callback: the pool, the
/// token in, the amount and the caller's extra bytes, as
/// `(address, address, uint256, bytes)`.
pub open spec fn swap_callback_data(pool: Address, token_in: Address, amount: nat, extra: Seq<u8>) -> Seq<u8> {
    abi_word(address_value(pool)) + abi_word(address_value(token_in)) + abi_word(amount) + abi_word(128) + abi_bytes(extra)
}

/// The call data of the pool's `swap`: recipient, direction, amount
/// specified (as its raw bits), price limit and callback data.
pub open spec fn swap_call_data(recipient: Address, zero_for_one: bool, amount: nat, limit: nat, data: Seq<u8>) -> Seq<u8> {
    swap_selector() + abi_word(address_value(recipient)) + abi_word(if zero_for_one { 1 } else { 0 }) + abi_word(amount)
        + abi_word(limit) + abi_word(160) + abi_bytes(data)
}

/// One step of a swap, or caching the slots it asked for, keeps a pool's
/// state: its parameters, `slot0`, liquidity and fee growths are as they
/// were, and its storage cache and its tick and bitmap mappings only gain
/// entries.
pub open spec fn pool_state_kept(before: PancakeSwapV3Pool, after: PancakeSwapV3Pool) -> bool {
    &&& after.address == before.address
    &&& after.token0 == before.token0
    &&& after.token1 == before.token1
    &&& after.fee == before.fee
    &&& after.tick_spacing == before.tick_spacing
    &&& after.slot0 == before.slot0
    &&& after.fee_growth_global_0_x128 == before.fee_growth_global_0_x128
    &&& after.fee_growth_global_1_x128 == before.fee_growth_global_1_x128
    &&& after.liquidity == before.liquidity
    &&& forall|w: U256| before.storage.slots().contains_key(w) ==> #[trigger] after.storage.slots().contains_key(w)
    &&& forall|k: i16| before.tick_bitmap.values().contains_key(k) ==> #[trigger] after.tick_bitmap.values().contains_key(k)
    &&& forall|k: i32| before.ticks.values().contains_key(k) ==> #[trigger] after.ticks.values().contains_key(k)
}

/// The pool call that swaps all of `amount` of `token_in` for the other
/// token, paid to `recipient`, with the price limit at the end of the range
/// and `extra` handed on in the callback.
pub open spec fn swap_payload(pool: PancakeSwapV3Pool, recipient: Address, token_in: Address, amount: nat, extra: Seq<u8>) -> Seq<u8> {
    swap_call_data(
        recipient,
        token_in == pool.token0.address,
        amount,
        if token_in == pool.token0.address { lowest_limit() } else { highest_limit() },
        swap_callback_data(pool.address, token_in, amount, extra),
    )
}

impl PancakeSwapV3Pool {
    /// The pool parameters under which a swap step computes: a positive tick
    /// spacing, and a fee of at most a million pips.
    pub open spec fn swap_params_ok(&self) -> bool {
        &&& 0 < self.tick_spacing
        &&& self.fee <= 1_000_000
    }

    /// Starts a swap towards the price limit; `None` where the limit is not
    /// beyond the current price in the swap's direction, which is a swap of
    /// nothing. The limit must lie inside the range of prices.
    pub fn swap_begin(&self, zero_for_one: bool, amount_specified: I256, sqrt_price_limit_x96: U256) -> (r: Option<SwapRun>)
        requires
            zero_for_one ==> sqrt_price_limit_x96@ > min_sqrt_ratio(),
            !zero_for_one ==> sqrt_price_limit_x96@ < max_sqrt_ratio(),
        ensures
            r == swap_start(*self, zero_for_one, amount_specified, sqrt_price_limit_x96),
    {
        let price = self.slot0.sqrt_price_x96;
        if zero_for_one {
            if price.le(&sqrt_price_limit_x96) {
                return None;
            }
        } else {
            if sqrt_price_limit_x96.le(&price) {
                return None;
            }
        }
        let fp = self.slot0.fee_protocol;
        let fee_protocol = if zero_for_one {
            fp % 65536
        } else {
            proof {
                assert(fp >> 16 == fp / 65536) by (bit_vector);
            }
            fp >> 16
        };
        Some(SwapRun {
            zero_for_one,
            exact_input: amount_specified.is_positive(),
            amount_specified,
            sqrt_price_limit_x96,
            cache: SwapCache { fee_protocol, liquidity_start: self.liquidity },
            state: SwapState {
                amount_specified_remaining: amount_specified,
                amount_calculated: I256::zero(),
                sqrt_price_x96: price,
                tick: self.slot0.tick,
                fee_growth_global_x128: if zero_for_one {
                    self.fee_growth_global_0_x128
                } else {
                    self.fee_growth_global_1_x128
                },
                protocol_fee: 0,
                liquidity: self.liquidity,
            },
        })
    }

    /// Starts a swap of `amount` of `token` in, down to the lowest price when
    /// the token is token0 and up to the highest otherwise.
    pub fn exact_input_start(&self, token: Address, amount: U256) -> (r: Option<SwapRun>)
        ensures
            token == self.token0.address ==> r == swap_start(*self, true, I256 { raw: amount }, crate::word::word_of(lowest_limit())),
            token != self.token0.address ==> r == swap_start(*self, false, I256 { raw: amount }, crate::word::word_of(highest_limit())),
    {
        let zero_for_one = token == self.token0.address;
        let limit = if zero_for_one {
            U256::from_u64(4295128739 + 1)
        } else {
            U256 { l0: 0x5D95_1D52_6398_8D25, l1: 0xEFD1_FC6A_5064_8849, l2: 0xFFFD_8963, l3: 0 }
        };
        proof {
            crate::word::lemma_word_of(limit, 0);
            assert(highest_limit() == 1461446703485210103287273052203988822378723970341nat);
        }
        self.swap_begin(zero_for_one, I256::from_raw(amount), limit)
    }

    /// The call data that swaps `amount` of `token_in` through the pool to
    /// the far price limit, paying `recipient`; the callback data names the
    /// pool, the token in, the amount and `extra`.
    pub fn create_payload(&self, recipient: Address, token_in: Address, amount: U256, extra: Vec<u8>) -> (data: Vec<u8>)
        ensures
            data@ == swap_payload(*self, recipient, token_in, amount@, extra@),
    {
        let zero_for_one = token_in == self.token0.address;
        let limit = if zero_for_one {
            U256::from_u64(4295128739 + 1)
        } else {
            U256 { l0: 0x5D95_1D52_6398_8D25, l1: 0xEFD1_FC6A_5064_8849, l2: 0xFFFD_8963, l3: 0 }
        };
        proof {
            assert(highest_limit() == 1461446703485210103287273052203988822378723970341nat);
        }
        let callback = encode_three_words_bytes(address_word(self.address), address_word(token_in), amount, &extra);
        let direction = U256::from_u64(if zero_for_one { 1 } else { 0 });
        let mut params = encode_four_words_bytes(address_word(recipient), direction, amount, limit, &callback);
        let mut data: Vec<u8> = vec![0x12u8, 0x8au8, 0xcbu8, 0x08u8];
        data.append(&mut params);
        data
    }

    /// Caches slots fetched for a swap, each value at its slot; the pool's
    /// state is kept.
    pub fn cache_fetched_slots(&mut self, slots: &Vec<U256>, values: &Vec<U256>)
        requires
            slots@.len() == values@.len(),
        ensures
            pool_state_kept(*old(self), *final(self)),
            final(self).storage.slots() == old(self).storage.slots().union_prefer_right(crate::cache::entries_map(slots@.zip_with(values@))),
            final(self).storage.address == old(self).storage.address,
            final(self).tick_bitmap == old(self).tick_bitmap,
            final(self).ticks == old(self).ticks,
    {
        self.storage.insert_many(slots, values);
    }

    /// One step of a swap. A finished swap gives its output. Otherwise the
    /// step reads the bitmap word that holds the next tick, moves the price
    /// towards the next initialized tick or the limit, and, where it reaches
    /// an initialized tick, reads that tick to cross it. Where a read lacks
    /// storage slots, the step asks for them and leaves the swap as it was;
    /// the mappings keep what was read, and only what the storage gave.
    #[verifier::rlimit(60)]
    pub fn swap_step(&mut self, run: &mut SwapRun) -> (r: Result<SwapProgress, SwapError>)
        requires
            old(self).swap_params_ok(),
            tick_in_range(old(run).state.tick as int),
            !swap_finished(*old(run)) ==> search_inputs_ok(old(run).state.tick as int, old(self).tick_spacing as int, old(run).zero_for_one),
        ensures
            tick_in_range(final(run).state.tick as int),
            pool_state_kept(*old(self), *final(self)),
            final(self).storage == old(self).storage,
            final(self).address == old(self).address,
            final(self).token0 == old(self).token0,
            final(self).token1 == old(self).token1,
            final(self).fee == old(self).fee,
            final(self).tick_spacing == old(self).tick_spacing,
            final(self).slot0 == old(self).slot0,
            final(self).fee_growth_global_0_x128 == old(self).fee_growth_global_0_x128,
            final(self).fee_growth_global_1_x128 == old(self).fee_growth_global_1_x128,
            final(self).liquidity == old(self).liquidity,
            forall|k: i16| #[trigger] final(self).tick_bitmap.values().contains_key(k) ==> old(self).tick_bitmap.lookup(&old(self).storage, k) == Some(final(self).tick_bitmap.values()[k]),
            forall|k: i16| old(self).tick_bitmap.values().contains_key(k) ==> #[trigger] final(self).tick_bitmap.values().contains_key(k),
            forall|k: i32| #[trigger] final(self).ticks.values().contains_key(k) ==> old(self).ticks.lookup(&old(self).storage, k) == Some(final(self).ticks.values()[k]),
            forall|k: i32| old(self).ticks.values().contains_key(k) ==> #[trigger] final(self).ticks.values().contains_key(k),
            swap_finished(*old(run)) ==> *final(run) == *old(run) && match swap_output(*old(run)) {
                Ok(v) => (r matches Ok(SwapProgress::Done(a)) && a@ == v),
                Err(e) => r == Err::<SwapProgress, SwapError>(e),
            },
            !swap_finished(*old(run)) ==> {
                let pos = search_word(old(run).state.tick as int, old(self).tick_spacing as int, old(run).zero_for_one) as i16;
                match old(self).tick_bitmap.lookup(&old(self).storage, pos) {
                    None => *final(run) == *old(run) && (r matches Ok(SwapProgress::NeedSlots { slot, count })
                        && slot@ == mapping_value_slot(pos.key_word(), 7) && count == 1),
                    Some(word) => match step_result(*old(self), *old(run), word@) {
                        Err(e) => *final(run) == *old(run) && r == Err::<SwapProgress, SwapError>(e),
                        Ok(None) => *final(run) == *old(run) && (r matches Ok(SwapProgress::NeedSlots { slot, count })
                            && slot@ == mapping_value_slot((step_next(*old(self), *old(run), word@) as i32).key_word(), 6) && count == 4),
                        Ok(Some(m)) => r == Ok::<SwapProgress, SwapError>(SwapProgress::Stepped) && final(run).state@ == m
                            && final(run).zero_for_one == old(run).zero_for_one
                            && final(run).exact_input == old(run).exact_input
                            && final(run).amount_specified == old(run).amount_specified
                            && final(run).sqrt_price_limit_x96 == old(run).sqrt_price_limit_x96
                            && final(run).cache == old(run).cache,
                    },
                }
            },
    {
        if run.state.amount_specified_remaining.is_zero() || run.state.sqrt_price_x96.eq_word(&run.sqrt_price_limit_x96) {
            return match finish_output(run) {
                Ok(v) => Ok(SwapProgress::Done(v)),
                Err(e) => Err(e),
            };
        }
        let zero_for_one = run.zero_for_one;
        let pos = bitmap_word_to_search(run.state.tick, self.tick_spacing, zero_for_one);
        let word = match self.tick_bitmap.get(&self.storage, &pos) {
            Some(w) => w,
            None => {
                let slot = self.tick_bitmap.get_value_storage_slot(&pos);
                return Ok(SwapProgress::NeedSlots { slot, count: 1 });
            },
        };
        let (raw_next, initialized) = next_initialized_tick_within_one_word(word, run.state.tick, self.tick_spacing, zero_for_one);
        let next = clamp(raw_next);
        let (moved, next_price) = match move_step(run, self.fee, next) {
            Ok(v) => v,
            Err(e) => return Err(e),
        };
        let mut liquidity_net: Option<i128> = None;
        if initialized && moved.sqrt_price_x96.eq_word(&next_price) {
            match self.ticks.get(&self.storage, &next) {
                Some(info) => {
                    liquidity_net = Some(info.liquidity_net);
                },
                None => {
                    let slot = self.ticks.get_value_storage_slot(&next);
                    return Ok(SwapProgress::NeedSlots { slot, count: 4 });
                },
            }
        }
        match cross_step(run, moved, next, next_price, initialized, liquidity_net) {
            Ok(Some(s)) => {
                run.state = s;
                Ok(SwapProgress::Stepped)
            },
            Ok(None) => Err(SwapError::Math),
            Err(e) => Err(e),
        }
    }
}


/// A swap of nothing is finished as soon as it starts, and gives nothing
/// out.
pub proof fn law_swap_of_nothing_gives_nothing(pool: PancakeSwapV3Pool, zero_for_one: bool, limit: U256)
    requires
        swap_start(pool, zero_for_one, I256 { raw: U256 { l0: 0, l1: 0, l2: 0, l3: 0 } }, limit) is Some,
    ensures
        ({
            let run = swap_start(pool, zero_for_one, I256 { raw: U256 { l0: 0, l1: 0, l2: 0, l3: 0 } }, limit)->Some_0;
            swap_finished(run) && swap_output(run) == Ok::<nat, SwapError>(0)
        }),
{
}

/// The output of a finished swap whose amount specified is an input is the
/// amount calculated, negated: what the pool pays out.
pub proof fn law_exact_input_output(run: SwapRun)
    requires
        run.exact_input,
        fits_i256(run.amount_specified@ - run.state.amount_specified_remaining@),
        fits_i256(-run.state.amount_calculated@),
    ensures
        swap_output(run) == Ok::<nat, SwapError>(raw_word(-run.state.amount_calculated@)),
{
}

/// A whole swap keeps the pool's state, whatever its outcome: over any run
/// of steps, each of which keeps the state (a swap step, or caching the
/// slots it asked for), the pool's parameters, `slot0`, liquidity and fee
/// growths end as they began, and its caches have only gained entries.
pub proof fn law_swap_keeps_the_pool_state(states: Seq<PancakeSwapV3Pool>)
    requires
        states.len() > 0,
        forall|i: int| 0 <= i < states.len() - 1 ==> #[trigger] pool_state_kept(states[i], states[i + 1]),
    ensures
        pool_state_kept(states[0], states.last()),
    decreases states.len(),
{
    if states.len() > 1 {
        let rest = states.drop_last();
        assert forall|i: int| 0 <= i < rest.len() - 1 implies #[trigger] pool_state_kept(rest[i], rest[i + 1]) by {
            assert(pool_state_kept(states[i], states[i + 1]));
        }
        law_swap_keeps_the_pool_state(rest);
        let j = states.len() - 2;
        assert(pool_state_kept(states[j], states[j + 1]));
        assert(rest.last() == states[j]);
    }
}

/// A step aims at the nearer of the next tick's price and the price limit,
/// in the swap's direction: a falling price (`zero_for_one`) stops at the
/// higher of the two, a rising one at the lower. So a step never runs past
/// the next initialized tick before the limit.
pub proof fn law_step_aims_at_the_nearer_price(zero_for_one: bool, next_price: nat, limit: nat)
    ensures
        step_target(zero_for_one, next_price, limit) == next_price || step_target(zero_for_one, next_price, limit) == limit,
        zero_for_one ==> step_target(zero_for_one, next_price, limit) >= next_price && step_target(zero_for_one, next_price, limit) >= limit,
        !zero_for_one ==> step_target(zero_for_one, next_price, limit) <= next_price && step_target(zero_for_one, next_price, limit) <= limit,
{
}

/// The first part of a step runs the swap math from the current price
/// towards the nearer of the next tick's price and the limit, and nowhere
/// else.
pub proof fn law_step_moves_towards_the_nearer_price(run: SwapRun, fee: nat, next: int)
    requires
        fits_i256(-run.state.amount_specified_remaining@),
    ensures
        exists|t: nat| {
            &&& (t == sqrt_ratio_at_tick(next) || t == run.sqrt_price_limit_x96@)
            &&& run.zero_for_one ==> t >= sqrt_ratio_at_tick(next) && t >= run.sqrt_price_limit_x96@
            &&& !run.zero_for_one ==> t <= sqrt_ratio_at_tick(next) && t <= run.sqrt_price_limit_x96@
            &&& step_move(run, fee, next) == match #[trigger] swap_step_outcome(run.state.sqrt_price_x96@, t, run.state.liquidity as nat, run.state.amount_specified_remaining@, fee) {
                None => Err::<SwapModel, SwapError>(SwapError::Math),
                Some(outcome) => step_effect(run, outcome),
            }
        },
{
    let t = step_target(run.zero_for_one, sqrt_ratio_at_tick(next), run.sqrt_price_limit_x96@);
    law_step_aims_at_the_nearer_price(run.zero_for_one, sqrt_ratio_at_tick(next), run.sqrt_price_limit_x96@);
    assert(step_move(run, fee, next) == match swap_step_outcome(run.state.sqrt_price_x96@, t, run.state.liquidity as nat, run.state.amount_specified_remaining@, fee) {
        None => Err::<SwapModel, SwapError>(SwapError::Math),
        Some(outcome) => step_effect(run, outcome),
    });
}

/// Where a step's price reached the next tick's price, the state moves just
/// past that tick in the swap's direction: onto it when the price rises, one
/// below it when the price falls. The next search in the same direction
/// then starts beyond the tick, so each tick is crossed at most once per
/// direction.
pub proof fn law_crossing_moves_past_the_tick(run: SwapRun, moved: SwapModel, next: int, initialized: bool, liquidity_net: Option<int>, tick_spacing: int)
    requires
        moved.sqrt_price == sqrt_ratio_at_tick(next),
        step_cross(run, moved, next, initialized, liquidity_net) matches Ok(Some(s)),
        0 < tick_spacing,
    ensures
        ({
            let s = step_cross(run, moved, next, initialized, liquidity_net)->Ok_0->Some_0;
            &&& !run.zero_for_one ==> s.tick == next && search_start(s.tick, tick_spacing, false) * tick_spacing > next
            &&& run.zero_for_one ==> s.tick == next - 1 && search_start(s.tick, tick_spacing, true) * tick_spacing < next
        }),
{
    let s = step_cross(run, moved, next, initialized, liquidity_net)->Ok_0->Some_0;
    vstd::arithmetic::div_mod::lemma_fundamental_div_mod(s.tick, tick_spacing);
    let q = s.tick / tick_spacing;
    assert((q + 1) * tick_spacing == q * tick_spacing + tick_spacing) by (nonlinear_arith);
    assert(q * tick_spacing == tick_spacing * q) by (nonlinear_arith);
}

/// A tick's net liquidity is what crossing it upwards adds. Crossing an
/// initialized tick upwards and then back downwards with its net liquidity
/// gives back the liquidity there was before, and the state
/// ends one below the tick; crossing a tick that is not initialized leaves
/// the liquidity as it was.
pub proof fn law_crossing_back_restores_liquidity(up: SwapRun, down: SwapRun, moved: SwapModel, next: int, net: int)
    requires
        !up.zero_for_one,
        down.zero_for_one,
        moved.sqrt_price == sqrt_ratio_at_tick(next),
        step_cross(up, moved, next, true, Some(net)) matches Ok(Some(s1)),
        step_cross(down, step_cross(up, moved, next, true, Some(net))->Ok_0->Some_0, next, true, Some(net)) matches Ok(Some(s2)),
    ensures
        ({
            let s1 = step_cross(up, moved, next, true, Some(net))->Ok_0->Some_0;
            let s2 = step_cross(down, s1, next, true, Some(net))->Ok_0->Some_0;
            &&& s1.liquidity == moved.liquidity + net
            &&& s2.liquidity == moved.liquidity
            &&& s2.tick == next - 1
            &&& s2.sqrt_price == moved.sqrt_price
        }),
        forall|r: SwapRun| #[trigger] step_cross(r, moved, next, false, None) matches Ok(Some(s)) ==> s.liquidity == moved.liquidity,
{
}

} // verus!
