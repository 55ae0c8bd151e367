//! Constant-product pools (Uniswap V2 and its forks PancakeSwap V2 and
//! SushiSwap V2): the swap formula, the decoding of the packed reserves slot,
//! and the pool state the engine keeps between blocks.

use crate::changes::{changes_contents, StorageChanges};
use crate::token::{Address, ERC20};
use crate::word::{word_add, word_div, word_modulus, word_mul, U256};
use vstd::prelude::*;

verus! {

/// 2^112, the bound of a reserve.
pub open spec fn pow_2_112() -> nat {
    0x1_0000_0000_0000_0000_0000_0000_0000nat
}

/// The storage slot of a Uniswap V2 pair that packs both reserves and the
/// timestamp of the last update.
pub open spec fn reserves_slot() -> nat {
    8
}

/// The amount in after the fee, modulo 2^256 as the words compute it.
pub open spec fn amount_in_with_fee(amount_in: nat, fee_numerator: nat) -> nat {
    (amount_in * fee_numerator) % word_modulus()
}

/// The denominator of the constant-product formula, modulo 2^256.
pub open spec fn swap_denominator(amount_in: nat, reserve_in: nat, fee_numerator: nat, fee_denominator: nat) -> nat {
    ((reserve_in * fee_denominator) % word_modulus() + amount_in_with_fee(amount_in, fee_numerator)) % word_modulus()
}

/// What a constant-product pool pays out for an amount in, with the fee
/// `fee_numerator / fee_denominator` kept on the input; zero when any input
/// is zero. Products and sums wrap modulo 2^256, as the words compute them.
pub open spec fn amount_out(amount_in: nat, reserve_in: nat, reserve_out: nat, fee_numerator: nat, fee_denominator: nat) -> nat {
    if amount_in == 0 || reserve_in == 0 || reserve_out == 0 {
        0
    } else {
        ((amount_in_with_fee(amount_in, fee_numerator) * reserve_out) % word_modulus()) / swap_denominator(
            amount_in,
            reserve_in,
            fee_numerator,
            fee_denominator,
        )
    }
}

/// Whether the formula can be evaluated without dividing by zero.
pub open spec fn amount_out_defined(amount_in: nat, reserve_in: nat, reserve_out: nat, fee_numerator: nat, fee_denominator: nat) -> bool {
    amount_in == 0 || reserve_in == 0 || reserve_out == 0 || swap_denominator(amount_in, reserve_in, fee_numerator, fee_denominator) != 0
}

/// The inputs on which no product or sum of the formula wraps around.
pub open spec fn fits_without_wrapping(amount_in: nat, reserve_in: nat, reserve_out: nat, fee_numerator: nat, fee_denominator: nat) -> bool {
    &&& amount_in * fee_numerator * reserve_out < word_modulus()
    &&& reserve_in * fee_denominator + amount_in * fee_numerator < word_modulus()
}

/// Where nothing wraps, the formula is the exact constant-product quotient.
pub proof fn lemma_amount_out_exact(amount_in: nat, reserve_in: nat, reserve_out: nat, fee_numerator: nat, fee_denominator: nat)
    requires
        amount_in > 0,
        reserve_in > 0,
        reserve_out > 0,
        fee_denominator > 0,
        fits_without_wrapping(amount_in, reserve_in, reserve_out, fee_numerator, fee_denominator),
    ensures
        amount_out_defined(amount_in, reserve_in, reserve_out, fee_numerator, fee_denominator),
        amount_out(amount_in, reserve_in, reserve_out, fee_numerator, fee_denominator) == (amount_in
            * fee_numerator * reserve_out) / (reserve_in * fee_denominator + amount_in * fee_numerator),
{
    let m = word_modulus();
    let w = amount_in * fee_numerator;
    assert(w <= w * reserve_out) by (nonlinear_arith)
        requires
            reserve_out > 0,
    ;
    assert(reserve_in * fee_denominator > 0) by (nonlinear_arith)
        requires
            reserve_in > 0,
            fee_denominator > 0,
    ;
    vstd::arithmetic::div_mod::lemma_small_mod(w, m);
    vstd::arithmetic::div_mod::lemma_small_mod(w * reserve_out, m);
    vstd::arithmetic::div_mod::lemma_small_mod(reserve_in * fee_denominator, m);
    vstd::arithmetic::div_mod::lemma_small_mod(reserve_in * fee_denominator + w, m);
}

/// Law: a constant-product swap pays out no less for more in, while nothing
/// wraps.
pub proof fn law_amount_out_grows_with_amount_in(a1: nat, a2: nat, reserve_in: nat, reserve_out: nat, fee_numerator: nat, fee_denominator: nat)
    requires
        a1 <= a2,
        reserve_in > 0,
        fee_denominator > 0,
        fits_without_wrapping(a2, reserve_in, reserve_out, fee_numerator, fee_denominator),
    ensures
        amount_out(a1, reserve_in, reserve_out, fee_numerator, fee_denominator) <= amount_out(a2, reserve_in, reserve_out, fee_numerator, fee_denominator),
{
    if a1 > 0 && reserve_out > 0 && fee_numerator > 0 {
        assert(a1 * fee_numerator * reserve_out <= a2 * fee_numerator * reserve_out) by (nonlinear_arith)
            requires
                a1 <= a2,
        ;
        assert(a1 * fee_numerator <= a2 * fee_numerator) by (nonlinear_arith)
            requires
                a1 <= a2,
        ;
        lemma_amount_out_exact(a1, reserve_in, reserve_out, fee_numerator, fee_denominator);
        lemma_amount_out_exact(a2, reserve_in, reserve_out, fee_numerator, fee_denominator);
        let c = reserve_in * fee_denominator;
        let n1 = a1 * fee_numerator * reserve_out;
        let n2 = a2 * fee_numerator * reserve_out;
        let d1 = c + a1 * fee_numerator;
        let d2 = c + a2 * fee_numerator;
        assert(c > 0) by (nonlinear_arith)
            requires
                c == reserve_in * fee_denominator,
                reserve_in > 0,
                fee_denominator > 0,
        ;
        assert(n1 * d2 <= n2 * d1) by (nonlinear_arith)
            requires
                n1 == a1 * fee_numerator * reserve_out,
                n2 == a2 * fee_numerator * reserve_out,
                d1 == c + a1 * fee_numerator,
                d2 == c + a2 * fee_numerator,
                a1 <= a2,
                c >= 0,
        ;
        let q1 = n1 / d1;
        vstd::arithmetic::div_mod::lemma_fundamental_div_mod(n1 as int, d1 as int);
        vstd::arithmetic::div_mod::lemma_mod_pos_bound(n1 as int, d1 as int);
        assert(q1 * d2 <= n2) by (nonlinear_arith)
            requires
                q1 * d1 <= n1,
                n1 * d2 <= n2 * d1,
                d1 > 0,
                d2 > 0,
        ;
        vstd::arithmetic::div_mod::lemma_fundamental_div_mod(n2 as int, d2 as int);
        vstd::arithmetic::div_mod::lemma_mod_pos_bound(n2 as int, d2 as int);
        assert(q1 <= n2 / d2) by (nonlinear_arith)
            requires
                q1 * d2 <= n2,
                n2 == d2 * (n2 / d2) + n2 % d2,
                n2 % d2 < d2,
                d2 > 0,
        ;
    } else if a1 > 0 && reserve_out > 0 {
        // No fee numerator: nothing comes out for any amount.
        assert(amount_in_with_fee(a1, fee_numerator) == 0);
        assert(reserve_in * fee_denominator > 0) by (nonlinear_arith)
            requires
                reserve_in > 0,
                fee_denominator > 0,
        ;
        vstd::arithmetic::div_mod::lemma_small_mod(reserve_in * fee_denominator, word_modulus());
        vstd::arithmetic::div_mod::lemma_small_mod(0, word_modulus());
        assert(swap_denominator(a1, reserve_in, fee_numerator, fee_denominator) > 0);
    }
}

/// Law: a constant-product swap never pays out the whole reserve of the
/// token bought.
pub proof fn law_amount_out_below_reserve(amount_in: nat, reserve_in: nat, reserve_out: nat, fee_numerator: nat, fee_denominator: nat)
    requires
        reserve_in > 0,
        fee_denominator > 0,
        fits_without_wrapping(amount_in, reserve_in, reserve_out, fee_numerator, fee_denominator),
    ensures
        amount_out(amount_in, reserve_in, reserve_out, fee_numerator, fee_denominator) < reserve_out || reserve_out == 0,
{
    if amount_in > 0 && reserve_out > 0 {
        lemma_amount_out_exact(amount_in, reserve_in, reserve_out, fee_numerator, fee_denominator);
        let x = amount_in * fee_numerator * reserve_out;
        let d = reserve_in * fee_denominator + amount_in * fee_numerator;
        assert(x < reserve_out * d) by (nonlinear_arith)
            requires
                x == amount_in * fee_numerator * reserve_out,
                d == reserve_in * fee_denominator + amount_in * fee_numerator,
                reserve_in > 0,
                fee_denominator > 0,
                reserve_out > 0,
        ;
        assert(d > 0) by (nonlinear_arith)
            requires
                d == reserve_in * fee_denominator + amount_in * fee_numerator,
                reserve_in > 0,
                fee_denominator > 0,
        ;
        assert(x < d * reserve_out) by (nonlinear_arith) requires x < reserve_out * d;
        vstd::arithmetic::div_mod::lemma_multiply_divide_lt(x as int, d as int, reserve_out as int);
    }
}

/// Law: a constant-product swap with the fee on the input never lowers the
/// product of the reserves: `(reserve_in + amount_in) * (reserve_out -
/// amount_out) >= reserve_in * reserve_out`.
pub proof fn law_constant_product_never_decreases(amount_in: nat, reserve_in: nat, reserve_out: nat, fee_numerator: nat, fee_denominator: nat)
    requires
        reserve_in > 0,
        0 < fee_numerator <= fee_denominator,
        fits_without_wrapping(amount_in, reserve_in, reserve_out, fee_numerator, fee_denominator),
    ensures
        amount_out(amount_in, reserve_in, reserve_out, fee_numerator, fee_denominator) <= reserve_out,
        (reserve_in + amount_in) * (reserve_out - amount_out(amount_in, reserve_in, reserve_out, fee_numerator, fee_denominator)) >= reserve_in * reserve_out,
{
    law_amount_out_below_reserve(amount_in, reserve_in, reserve_out, fee_numerator, fee_denominator);
    if amount_in > 0 && reserve_out > 0 {
        lemma_amount_out_exact(amount_in, reserve_in, reserve_out, fee_numerator, fee_denominator);
        let x = amount_in * fee_numerator * reserve_out;
        let d = reserve_in * fee_denominator + amount_in * fee_numerator;
        let out = amount_out(amount_in, reserve_in, reserve_out, fee_numerator, fee_denominator);
        assert(d > 0) by (nonlinear_arith)
            requires
                d == reserve_in * fee_denominator + amount_in * fee_numerator,
                reserve_in > 0,
                fee_denominator > 0,
        ;
        vstd::arithmetic::div_mod::lemma_fundamental_div_mod(x as int, d as int);
        vstd::arithmetic::div_mod::lemma_mod_pos_bound(x as int, d as int);
        assert(out * d <= x) by (nonlinear_arith)
            requires
                out == x / d,
                x == d * (x / d) + x % d,
                x % d >= 0,
        ;
        assert((reserve_in + amount_in) * (reserve_out - out) >= reserve_in * reserve_out) by (nonlinear_arith)
            requires
                out * d <= x,
                x == amount_in * fee_numerator * reserve_out,
                d == reserve_in * fee_denominator + amount_in * fee_numerator,
                0 < fee_numerator <= fee_denominator,
                out <= reserve_out,
                reserve_in > 0,
        ;
    }
}

/// The constant-product formula on words.
fn constant_product_out(amount_in: U256, reserve_in: U256, reserve_out: U256, fee_numerator: u64, fee_denominator: u64) -> (out: U256)
    requires
        amount_out_defined(amount_in@, reserve_in@, reserve_out@, fee_numerator as nat, fee_denominator as nat),
    ensures
        out@ == amount_out(amount_in@, reserve_in@, reserve_out@, fee_numerator as nat, fee_denominator as nat),
{
    if amount_in.is_zero() || reserve_in.is_zero() || reserve_out.is_zero() {
        return U256::zero();
    }
    let with_fee = word_mul(amount_in, U256::from_u64(fee_numerator));
    let numerator = word_mul(with_fee, reserve_out);
    let denominator = word_add(word_mul(reserve_in, U256::from_u64(fee_denominator)), with_fee);
    word_div(numerator, denominator)
}

/// Whether the constant-product formula can be evaluated on these inputs:
/// any input is zero, or the wrapped denominator is not.
pub fn swap_is_defined(amount_in: U256, reserve_in: U256, reserve_out: U256, fee_numerator: u64, fee_denominator: u64) -> (b: bool)
    ensures
        b == amount_out_defined(amount_in@, reserve_in@, reserve_out@, fee_numerator as nat, fee_denominator as nat),
{
    if amount_in.is_zero() || reserve_in.is_zero() || reserve_out.is_zero() {
        return true;
    }
    let with_fee = word_mul(amount_in, U256::from_u64(fee_numerator));
    let denominator = word_add(word_mul(reserve_in, U256::from_u64(fee_denominator)), with_fee);
    !denominator.is_zero()
}

/// The two reserves of a pair, each below 2^112.
#[derive(Clone, Copy, PartialEq, Eq, Structural, Debug)]
pub struct Reserves {
    pub reserve0: u128,
    pub reserve1: u128,
}

impl Reserves {
    /// Each reserve fits the 112 bits the pair stores it in.
    pub open spec fn wf(&self) -> bool {
        self.reserve0 < pow_2_112() && self.reserve1 < pow_2_112()
    }

    /// The reserves packed in the pair's reserves slot: the low 112 bits
    /// hold reserve0, the next 112 bits reserve1.
    pub fn from_storage_value(value: U256) -> (r: Reserves)
        ensures
            r.wf(),
            r.reserve0 == value@ % pow_2_112(),
            r.reserve1 == (value@ / pow_2_112()) % pow_2_112(),
    {
        let p48: u64 = 0x1_0000_0000_0000;
        let p32: u64 = 0x1_0000_0000;
        let low1 = value.l1 % p48;
        let high1 = value.l1 / p48;
        let low3 = value.l3 % p32;
        let high3 = value.l3 / p32;
        let r0 = value.l0 as u128 + low1 as u128 * 0x1_0000_0000_0000_0000;
        let r1 = high1 as u128 + value.l2 as u128 * 0x1_0000 + low3 as u128 * 0x1_0000_0000_0000_0000_0000;
        proof {
            lemma_reserves_split(value, low1 as nat, high1 as nat, low3 as nat, high3 as nat);
        }
        Reserves { reserve0: r0, reserve1: r1 }
    }
}

/// The arithmetic behind the decoding of the reserves slot.
proof fn lemma_reserves_split(value: U256, low1: nat, high1: nat, low3: nat, high3: nat)
    requires
        value.l1 == high1 * 0x1_0000_0000_0000 + low1,
        low1 < 0x1_0000_0000_0000,
        value.l3 == high3 * 0x1_0000_0000 + low3,
        low3 < 0x1_0000_0000,
    ensures
        value.l0 + low1 * 0x1_0000_0000_0000_0000 < pow_2_112(),
        high1 + value.l2 * 0x1_0000 + low3 * 0x1_0000_0000_0000_0000_0000 < pow_2_112(),
        value@ % pow_2_112() == value.l0 + low1 * 0x1_0000_0000_0000_0000,
        (value@ / pow_2_112()) % pow_2_112() == high1 + value.l2 * 0x1_0000 + low3 * 0x1_0000_0000_0000_0000_0000,
{
    let l0 = value.l0 as int;
    let l2 = value.l2 as int;
    let r0 = l0 + low1 * 0x1_0000_0000_0000_0000;
    let r1 = high1 + l2 * 0x1_0000 + low3 * 0x1_0000_0000_0000_0000_0000;
    let q = high1 + l2 * 0x1_0000 + value.l3 as int * 0x1_0000_0000_0000_0000_0000;
    assert(r0 < pow_2_112()) by (nonlinear_arith)
        requires
            0 <= l0 < 0x1_0000_0000_0000_0000,
            low1 < 0x1_0000_0000_0000,
            r0 == l0 + low1 * 0x1_0000_0000_0000_0000,
    ;
    assert(r1 < pow_2_112()) by (nonlinear_arith)
        requires
            high1 < 0x1_0000,
            0 <= l2 < 0x1_0000_0000_0000_0000,
            low3 < 0x1_0000_0000,
            r1 == high1 + l2 * 0x1_0000 + low3 * 0x1_0000_0000_0000_0000_0000,
    ;
    assert(high1 < 0x1_0000) by (nonlinear_arith)
        requires
            value.l1 == high1 * 0x1_0000_0000_0000 + low1,
            value.l1 < 0x1_0000_0000_0000_0000,
    ;
    assert(value@ == r0 + q * pow_2_112()) by (nonlinear_arith)
        requires
            value@ == (value.l3 * 0x1_0000_0000_0000_0000 + value.l2) * 0x1_0000_0000_0000_0000_0000_0000_0000_0000 + value.l1 * 0x1_0000_0000_0000_0000 + value.l0,
            value.l1 == high1 * 0x1_0000_0000_0000 + low1,
            r0 == l0 + low1 * 0x1_0000_0000_0000_0000,
            q == high1 + l2 * 0x1_0000 + value.l3 as int * 0x1_0000_0000_0000_0000_0000,
            l0 == value.l0,
            l2 == value.l2,
    ;
    vstd::arithmetic::div_mod::lemma_fundamental_div_mod_converse(value@ as int, pow_2_112() as int, q, r0);
    assert(q == r1 + high3 * pow_2_112()) by (nonlinear_arith)
        requires
            value.l3 == high3 * 0x1_0000_0000 + low3,
            q == high1 + l2 * 0x1_0000 + value.l3 as int * 0x1_0000_0000_0000_0000_0000,
            r1 == high1 + l2 * 0x1_0000 + low3 * 0x1_0000_0000_0000_0000_0000,
    ;
    vstd::arithmetic::div_mod::lemma_fundamental_div_mod_converse(q, pow_2_112() as int, high3 as int, r1);
}

/// A reserve that disagrees with the chain.
#[derive(Clone, Copy, PartialEq, Eq, Structural, Debug)]
pub enum ReserveMismatch {
    Reserve0 { real: u128, local: u128 },
    Reserve1 { real: u128, local: u128 },
}

/// A Uniswap V2 pair: its address, its two tokens and its reserves.
#[derive(Clone, Debug)]
pub struct UniswapV2Pool {
    pub address: Address,
    pub token0: ERC20,
    pub token1: ERC20,
    pub reserves: Reserves,
}

/// The reserves that a swap of `token` reads: the token's own reserve first,
/// then the other one.
pub open spec fn reserves_for(token: Address, token0: Address, reserves: Reserves) -> (nat, nat) {
    if token == token0 {
        (reserves.reserve0 as nat, reserves.reserve1 as nat)
    } else {
        (reserves.reserve1 as nat, reserves.reserve0 as nat)
    }
}

/// The reserves after applying a block's storage changes: decoded from the
/// reserves slot if it changed, else unchanged.
pub open spec fn reserves_after_changes(reserves: Reserves, changes: Map<nat, nat>) -> (nat, nat) {
    if changes.contains_key(reserves_slot()) {
        (changes[reserves_slot()] % pow_2_112(), (changes[reserves_slot()] / pow_2_112()) % pow_2_112())
    } else {
        (reserves.reserve0 as nat, reserves.reserve1 as nat)
    }
}

impl UniswapV2Pool {
    /// The pair's reserves fit their 112 bits.
    pub open spec fn wf(&self) -> bool {
        self.reserves.wf()
    }

    /// A pair as read from chain: its address, its tokens and its reserves.
    pub fn new(address: Address, token0: ERC20, token1: ERC20, reserves: Reserves) -> (p: UniswapV2Pool)
        ensures
            p.address == address,
            p.token0 == token0,
            p.token1 == token1,
            p.reserves == reserves,
    {
        UniswapV2Pool { address, token0, token1, reserves }
    }

    /// The amount out of a Uniswap V2 swap, with its 0.3% fee.
    pub fn swap(amount_in: U256, reserve_in: U256, reserve_out: U256) -> (out: U256)
        requires
            amount_out_defined(amount_in@, reserve_in@, reserve_out@, 997, 1000),
        ensures
            out@ == amount_out(amount_in@, reserve_in@, reserve_out@, 997, 1000),
    {
        constant_product_out(amount_in, reserve_in, reserve_out, 997, 1000)
    }

    /// The amount of the other token that swapping `amount` of `token`
    /// yields; any token other than token0 is taken as token1.
    pub fn simulate_swap(&self, token: Address, amount: U256) -> (out: U256)
        requires
            amount_out_defined(amount@, reserves_for(token, self.token0.address, self.reserves).0, reserves_for(token, self.token0.address, self.reserves).1, 997, 1000),
        ensures
            out@ == amount_out(amount@, reserves_for(token, self.token0.address, self.reserves).0, reserves_for(token, self.token0.address, self.reserves).1, 997, 1000),
    {
        let (reserve_in, reserve_out) = if token == self.token0.address {
            (self.reserves.reserve0, self.reserves.reserve1)
        } else {
            (self.reserves.reserve1, self.reserves.reserve0)
        };
        Self::swap(amount, U256::from_u128(reserve_in), U256::from_u128(reserve_out))
    }

    /// Applies a block's storage changes: a new reserves slot replaces both
    /// reserves.
    pub fn apply_storage_changes(&mut self, changes: &StorageChanges)
        ensures
            old(self).wf() ==> final(self).wf(),
            (final(self).reserves.reserve0 as nat, final(self).reserves.reserve1 as nat) == reserves_after_changes(old(self).reserves, changes_contents(*changes)),
            final(self).address == old(self).address,
            final(self).token0 == old(self).token0,
            final(self).token1 == old(self).token1,
    {
        let slot = U256::from_u64(8);
        if let Some(value) = changes.get(slot) {
            self.reserves = Reserves::from_storage_value(value);
        }
    }

    /// Both reserves are nonzero.
    pub fn is_liquidity_valid(&self) -> (b: bool)
        ensures
            b == (self.reserves.reserve0 != 0 && self.reserves.reserve1 != 0),
    {
        self.reserves.reserve0 != 0 && self.reserves.reserve1 != 0
    }

    /// The amounts of token0 and token1 the pair holds: its reserves.
    pub fn tokens_locked(&self) -> (r: (U256, U256))
        ensures
            r.0@ == self.reserves.reserve0,
            r.1@ == self.reserves.reserve1,
    {
        (U256::from_u128(self.reserves.reserve0), U256::from_u128(self.reserves.reserve1))
    }

    pub fn identifier(&self) -> (s: &'static str)
        ensures
            s@ == "uniswap_v2"@,
    {
        "uniswap_v2"
    }

    pub fn address(&self) -> (a: Address)
        ensures
            a == self.address,
    {
        self.address
    }

    pub fn token0(&self) -> (t: &ERC20)
        ensures
            *t == self.token0,
    {
        &self.token0
    }

    pub fn token1(&self) -> (t: &ERC20)
        ensures
            *t == self.token1,
    {
        &self.token1
    }

    /// Compares the reserves the pair reports on chain with the ones kept
    /// here: reserve0 first, then reserve1.
    pub fn verify_reserves(&self, real0: u128, real1: u128) -> (r: Result<bool, ReserveMismatch>)
        ensures
            real0 != self.reserves.reserve0 ==> r == Err::<bool, ReserveMismatch>(ReserveMismatch::Reserve0 { real: real0, local: self.reserves.reserve0 }),
            real0 == self.reserves.reserve0 && real1 != self.reserves.reserve1 ==> r == Err::<bool, ReserveMismatch>(ReserveMismatch::Reserve1 { real: real1, local: self.reserves.reserve1 }),
            real0 == self.reserves.reserve0 && real1 == self.reserves.reserve1 ==> r == Ok::<bool, ReserveMismatch>(true),
    {
        if real0 != self.reserves.reserve0 {
            return Err(ReserveMismatch::Reserve0 { real: real0, local: self.reserves.reserve0 });
        }
        if real1 != self.reserves.reserve1 {
            return Err(ReserveMismatch::Reserve1 { real: real1, local: self.reserves.reserve1 });
        }
        Ok(true)
    }

    /// Replaces the reserves with the ones read from chain.
    pub fn update_reserves(&mut self, reserve0: u128, reserve1: u128)
        ensures
            final(self).reserves == (Reserves { reserve0, reserve1 }),
            final(self).address == old(self).address,
            final(self).token0 == old(self).token0,
            final(self).token1 == old(self).token1,
    {
        self.reserves.reserve0 = reserve0;
        self.reserves.reserve1 = reserve1;
    }
}

/// A PancakeSwap V2 pair: a Uniswap V2 pair with a 0.25% fee.
#[derive(Clone, Debug)]
pub struct PancakeSwapV2Pool(pub UniswapV2Pool);

/// A SushiSwap V2 pair, priced with the same 0.25% fee as PancakeSwap V2.
#[derive(Clone, Debug)]
pub struct SushiSwapV2Pool(pub UniswapV2Pool);

impl PancakeSwapV2Pool {
    /// The amount of the other token that swapping `amount_in` of `token`
    /// yields under the 0.25% fee.
    pub fn simulate_swap(&self, token: Address, amount_in: U256) -> (out: U256)
        requires
            amount_out_defined(amount_in@, reserves_for(token, self.0.token0.address, self.0.reserves).0, reserves_for(token, self.0.token0.address, self.0.reserves).1, 9975, 10000),
        ensures
            out@ == amount_out(amount_in@, reserves_for(token, self.0.token0.address, self.0.reserves).0, reserves_for(token, self.0.token0.address, self.0.reserves).1, 9975, 10000),
    {
        let (reserve_in, reserve_out) = if token == self.0.token0.address {
            (self.0.reserves.reserve0, self.0.reserves.reserve1)
        } else {
            (self.0.reserves.reserve1, self.0.reserves.reserve0)
        };
        constant_product_out(amount_in, U256::from_u128(reserve_in), U256::from_u128(reserve_out), 9975, 10000)
    }

    pub fn identifier(&self) -> (s: &'static str)
        ensures
            s@ == "pancakeswap_v2"@,
    {
        "pancakeswap_v2"
    }
}

impl SushiSwapV2Pool {
    /// The amount of the other token that swapping `amount` of `token`
    /// yields under the 0.3% fee its router charges.
    pub fn simulate_swap(&self, token: Address, amount: U256) -> (out: U256)
        requires
            amount_out_defined(amount@, reserves_for(token, self.0.token0.address, self.0.reserves).0, reserves_for(token, self.0.token0.address, self.0.reserves).1, 997, 1000),
        ensures
            out@ == amount_out(amount@, reserves_for(token, self.0.token0.address, self.0.reserves).0, reserves_for(token, self.0.token0.address, self.0.reserves).1, 997, 1000),
    {
        let (reserve_in, reserve_out) = if token == self.0.token0.address {
            (self.0.reserves.reserve0, self.0.reserves.reserve1)
        } else {
            (self.0.reserves.reserve1, self.0.reserves.reserve0)
        };
        constant_product_out(amount, U256::from_u128(reserve_in), U256::from_u128(reserve_out), 997, 1000)
    }

    /// The identifier the SushiSwap V2 pair reports; it is the PancakeSwap V2
    /// one.
    pub fn identifier(&self) -> (s: &'static str)
        ensures
            s@ == "pancakeswap_v2"@,
    {
        "pancakeswap_v2"
    }
}


/// The reserves a pair's packed reserves slot holds: reserve0 in the low 112
/// bits, reserve1 in the next 112.
pub open spec fn packed_reserves(slot_value: nat) -> (nat, nat) {
    (slot_value % pow_2_112(), (slot_value / pow_2_112()) % pow_2_112())
}

/// Law: a pair in step with the chain's reserves slot before a block stays
/// in step after the block's storage changes are applied, where the changes
/// are the block's diff of the pair (the slot's new value if it changed,
/// nothing for it otherwise); the health check then compares equal
/// reserves.
pub proof fn law_applied_diff_keeps_reserves_in_step(reserves: Reserves, changes: Map<nat, nat>, slot_before: nat, slot_after: nat)
    requires
        (reserves.reserve0 as nat, reserves.reserve1 as nat) == packed_reserves(slot_before),
        changes.contains_key(reserves_slot()) ==> changes[reserves_slot()] == slot_after,
        !changes.contains_key(reserves_slot()) ==> slot_after == slot_before,
    ensures
        reserves_after_changes(reserves, changes) == packed_reserves(slot_after),
{
}

/// Reserves as the pair packs them in its slot (reserve0 in the low 112
/// bits, reserve1 in the next 112, the timestamp of the last update above)
/// read back as they were packed.
pub proof fn law_reserves_slot_roundtrip(reserve0: nat, reserve1: nat, timestamp: nat)
    requires
        reserve0 < pow_2_112(),
        reserve1 < pow_2_112(),
    ensures
        ({
            let packed = reserve0 + pow_2_112() * (reserve1 + pow_2_112() * timestamp);
            &&& packed % pow_2_112() == reserve0
            &&& (packed / pow_2_112()) % pow_2_112() == reserve1
        }),
{
    let p = pow_2_112() as int;
    let packed = reserve0 + pow_2_112() * (reserve1 + pow_2_112() * timestamp);
    vstd::arithmetic::div_mod::lemma_fundamental_div_mod_converse(packed as int, p, (reserve1 + p * timestamp) as int, reserve0 as int);
    vstd::arithmetic::div_mod::lemma_fundamental_div_mod_converse((reserve1 + p * timestamp) as int, p, timestamp as int, reserve1 as int);
}

} // verus!
