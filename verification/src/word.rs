//! Unsigned and signed 256-bit words, held as two 128-bit halves.
//!
//! Comparisons and bit operations are proved here; wrapping arithmetic is
//! delegated to `ruint` (through `alloy_primitives`), whose documented
//! behaviour each trusted wrapper states exactly.

use vstd::arithmetic::power2::pow2;
use vstd::prelude::*;

verus! {

/// 2^128.
pub open spec fn pow_2_128() -> nat {
    0x1_0000_0000_0000_0000_0000_0000_0000_0000nat
}

/// 2^255.
pub open spec fn pow_2_255() -> nat {
    0x8000_0000_0000_0000_0000_0000_0000_0000_0000_0000_0000_0000_0000_0000_0000_0000nat
}

/// 2^256, the modulus of wrapping word arithmetic.
pub open spec fn word_modulus() -> nat {
    0x1_0000_0000_0000_0000_0000_0000_0000_0000_0000_0000_0000_0000_0000_0000_0000_0000nat
}

/// 2^64.
pub open spec fn pow_2_64() -> nat {
    0x1_0000_0000_0000_0000nat
}

/// An unsigned 256-bit word held as four 64-bit limbs, least significant
/// first, as `ruint` holds it.
#[derive(Clone, Copy, PartialEq, Eq, Structural, Debug)]
pub struct U256 {
    pub l0: u64,
    pub l1: u64,
    pub l2: u64,
    pub l3: u64,
}

/// The low 128 bits of a word.
pub open spec fn low_half(x: U256) -> nat {
    x.l1 as nat * pow_2_64() + x.l0 as nat
}

/// The high 128 bits of a word.
pub open spec fn high_half(x: U256) -> nat {
    x.l3 as nat * pow_2_64() + x.l2 as nat
}

impl View for U256 {
    type V = nat;

    open spec fn view(&self) -> nat {
        high_half(*self) * pow_2_128() + low_half(*self)
    }
}

/// A two-digit number in base `p` compares by its high digit first.
proof fn lemma_two_digit_order(ah: int, al: int, bh: int, bl: int, p: int)
    requires
        0 <= al < p,
        0 <= bl < p,
    ensures
        (ah * p + al < bh * p + bl) == (ah < bh || (ah == bh && al < bl)),
        (ah * p + al == bh * p + bl) == (ah == bh && al == bl),
{
    assert(ah < bh ==> ah * p + al < bh * p + bl) by (nonlinear_arith)
        requires
            0 <= al < p,
            0 <= bl < p,
    ;
    assert(bh < ah ==> bh * p + bl < ah * p + al) by (nonlinear_arith)
        requires
            0 <= al < p,
            0 <= bl < p,
    ;
}

/// A two-digit number in base `p` with digits below `p` is below `p * p`.
proof fn lemma_two_digit_bound(h: int, l: int, p: int)
    requires
        0 <= h < p,
        0 <= l < p,
    ensures
        0 <= h * p + l < p * p,
{
    assert(0 <= h * p + l < p * p) by (nonlinear_arith)
        requires
            0 <= h < p,
            0 <= l < p,
    ;
}

/// The halves of a word are below 2^128, and the word below 2^256.
pub proof fn lemma_word_bounds(x: U256)
    ensures
        low_half(x) < pow_2_128(),
        high_half(x) < pow_2_128(),
        0 <= x@ < word_modulus(),
{
    lemma_two_digit_bound(x.l1 as int, x.l0 as int, pow_2_64() as int);
    lemma_two_digit_bound(x.l3 as int, x.l2 as int, pow_2_64() as int);
    lemma_two_digit_bound(high_half(x) as int, low_half(x) as int, pow_2_128() as int);
}

/// Two words compare as their limbs do, from the most significant one.
pub proof fn lemma_word_order(a: U256, b: U256)
    ensures
        (a@ < b@) == (a.l3 < b.l3 || (a.l3 == b.l3 && (a.l2 < b.l2 || (a.l2 == b.l2 && (a.l1
            < b.l1 || (a.l1 == b.l1 && a.l0 < b.l0)))))),
        (a@ == b@) == (a == b),
{
    lemma_word_bounds(a);
    lemma_word_bounds(b);
    let p = pow_2_64() as int;
    lemma_two_digit_order(a.l1 as int, a.l0 as int, b.l1 as int, b.l0 as int, p);
    lemma_two_digit_order(a.l3 as int, a.l2 as int, b.l3 as int, b.l2 as int, p);
    lemma_two_digit_order(
        high_half(a) as int,
        low_half(a) as int,
        high_half(b) as int,
        low_half(b) as int,
        pow_2_128() as int,
    );
}

/// The value of four 64-bit limbs, least significant first.
pub open spec fn limbs_value(l: [u64; 4]) -> nat {
    (l@[3] as nat * pow_2_64() + l@[2] as nat) * pow_2_128() + l@[1] as nat * pow_2_64() + l@[0] as nat
}

impl U256 {
    pub fn zero() -> (r: U256)
        ensures
            r@ == 0,
    {
        U256 { l0: 0, l1: 0, l2: 0, l3: 0 }
    }

    /// The word of four limbs, least significant first.
    pub fn from_limbs(l: [u64; 4]) -> (r: U256)
        ensures
            r@ == limbs_value(l),
    {
        U256 { l0: l[0], l1: l[1], l2: l[2], l3: l[3] }
    }

    pub fn from_u64(x: u64) -> (r: U256)
        ensures
            r@ == x,
    {
        U256 { l0: x, l1: 0, l2: 0, l3: 0 }
    }

    /// The word of a 128-bit value.
    pub fn from_u128(x: u128) -> (r: U256)
        ensures
            r@ == x,
    {
        let r = U256 { l0: (x % 0x1_0000_0000_0000_0000) as u64, l1: (x / 0x1_0000_0000_0000_0000) as u64, l2: 0, l3: 0 };
        r
    }

    pub fn is_zero(&self) -> (b: bool)
        ensures
            b == (self@ == 0),
    {
        proof {
            lemma_word_order(*self, U256 { l0: 0, l1: 0, l2: 0, l3: 0 });
        }
        self.l0 == 0 && self.l1 == 0 && self.l2 == 0 && self.l3 == 0
    }

    /// `self < other`.
    pub fn lt(&self, other: &U256) -> (b: bool)
        ensures
            b == (self@ < other@),
    {
        proof {
            lemma_word_order(*self, *other);
        }
        self.l3 < other.l3 || (self.l3 == other.l3 && (self.l2 < other.l2 || (self.l2 == other.l2
            && (self.l1 < other.l1 || (self.l1 == other.l1 && self.l0 < other.l0)))))
    }

    /// `self <= other`.
    pub fn le(&self, other: &U256) -> (b: bool)
        ensures
            b == (self@ <= other@),
    {
        let b = self.lt(other) || *self == *other;
        proof {
            lemma_word_order(*self, *other);
        }
        b
    }

    /// Whether the value fits 128 bits.
    pub fn fits_u128(&self) -> (b: bool)
        ensures
            b == (self@ < pow_2_128()),
    {
        proof {
            lemma_word_bounds(*self);
            let h = high_half(*self);
            let l = low_half(*self);
            assert(h == 0 <==> self@ < pow_2_128()) by (nonlinear_arith)
                requires
                    self@ == h * pow_2_128() + l,
                    l < pow_2_128(),
                    h >= 0,
            ;
        }
        self.l2 == 0 && self.l3 == 0
    }

    /// The value as a `u128`; it must fit.
    pub fn to_u128(&self) -> (v: u128)
        requires
            self@ < pow_2_128(),
        ensures
            v == self@,
    {
        proof {
            lemma_word_bounds(*self);
            let h = high_half(*self);
            let l = low_half(*self);
            assert(h == 0) by (nonlinear_arith)
                requires
                    self@ == h * pow_2_128() + l,
                    self@ < pow_2_128(),
                    h >= 0,
                    l >= 0,
            ;
        }
        self.l1 as u128 * 0x1_0000_0000_0000_0000 + self.l0 as u128
    }

    /// `self == other`, by value.
    pub fn eq_word(&self, other: &U256) -> (b: bool)
        ensures
            b == (self@ == other@),
    {
        proof {
            lemma_word_order(*self, *other);
        }
        *self == *other
    }
}

/// Bitwise AND of two naturals, bit by bit from the least significant one.
pub open spec fn bit_and(a: nat, b: nat) -> nat
    decreases a,
{
    if a == 0 || b == 0 {
        0
    } else {
        2 * bit_and(a / 2, b / 2) + (a % 2) * (b % 2)
    }
}

/// The word whose value is `n` modulo 2^256, limb by limb.
pub open spec fn word_of(n: nat) -> U256 {
    let b = pow_2_64();
    U256 {
        l0: (n % b) as u64,
        l1: ((n / b) % b) as u64,
        l2: ((n / b / b) % b) as u64,
        l3: ((n / b / b / b) % b) as u64,
    }
}

/// A word is the word of its value, and a number below 2^256 is the value of
/// its word.
pub proof fn lemma_word_of(x: U256, n: nat)
    requires
        n < word_modulus(),
    ensures
        word_of(x@) == x,
        word_of(n)@ == n,
{
    let b = pow_2_64() as int;
    let (l0, l1, l2, l3) = (x.l0 as int, x.l1 as int, x.l2 as int, x.l3 as int);
    assert(x@ == l0 + b * (l1 + b * (l2 + b * l3))) by (nonlinear_arith)
        requires
            x@ == (l3 * b + l2) * (b * b) + l1 * b + l0,
            b == 0x1_0000_0000_0000_0000,
            pow_2_128() == b * b,
    ;
    let q1 = l1 + b * (l2 + b * l3);
    let q2 = l2 + b * l3;
    vstd::arithmetic::div_mod::lemma_fundamental_div_mod_converse(x@ as int, b, q1, l0);
    vstd::arithmetic::div_mod::lemma_fundamental_div_mod_converse(q1, b, q2, l1);
    vstd::arithmetic::div_mod::lemma_fundamental_div_mod_converse(q2, b, l3, l2);
    vstd::arithmetic::div_mod::lemma_fundamental_div_mod_converse(l3, b, 0, l3);
    assert(q1 == b * q2 + l1) by (nonlinear_arith)
        requires
            q1 == l1 + b * q2,
    ;
    let m = n as int;
    vstd::arithmetic::div_mod::lemma_fundamental_div_mod(m, b);
    vstd::arithmetic::div_mod::lemma_fundamental_div_mod(m / b, b);
    vstd::arithmetic::div_mod::lemma_fundamental_div_mod(m / b / b, b);
    vstd::arithmetic::div_mod::lemma_fundamental_div_mod(m / b / b / b, b);
    assert(m / b / b / b < b) by {
        vstd::arithmetic::div_mod::lemma_div_denominator(m, b, b);
        vstd::arithmetic::div_mod::lemma_div_denominator(m, b * b, b);
        assert(m < (b * b * b) * b) by (nonlinear_arith)
            requires
                m < word_modulus(),
                b == 0x1_0000_0000_0000_0000,
        ;
        vstd::arithmetic::div_mod::lemma_multiply_divide_lt(m, b * b * b, b);
    }
    vstd::arithmetic::div_mod::lemma_small_mod((m / b / b / b) as nat, b as nat);
    let w = word_of(n);
    assert(w@ == m) by (nonlinear_arith)
        requires
            w@ == (w.l3 * b + w.l2) * (b * b) + w.l1 * b + w.l0,
            w.l0 == m % b,
            w.l1 == (m / b) % b,
            w.l2 == (m / b / b) % b,
            w.l3 == m / b / b / b,
            m == b * (m / b) + m % b,
            m / b == b * (m / b / b) + (m / b) % b,
            m / b / b == b * (m / b / b / b) + (m / b / b) % b,
            b == 0x1_0000_0000_0000_0000,
            pow_2_128() == b * b,
    ;
}

/// AND with the mask of the low `n` bits keeps `x` modulo 2^n.
pub proof fn lemma_bit_and_low_mask(x: nat, n: nat)
    ensures
        bit_and(x, (pow2(n) - 1) as nat) == x % pow2(n),
    decreases n,
{
    vstd::arithmetic::power2::lemma_pow2_pos(n);
    if n == 0 {
        vstd::arithmetic::power2::lemma2_to64();
    } else if x == 0 {
    } else {
        vstd::arithmetic::power2::lemma_pow2_unfold(n);
        vstd::arithmetic::power2::lemma_pow2_pos((n - 1) as nat);
        let m = (pow2(n) - 1) as nat;
        let h = pow2((n - 1) as nat);
        assert(m / 2 == (h - 1) as nat && m % 2 == 1) by {
            vstd::arithmetic::div_mod::lemma_fundamental_div_mod_converse(m as int, 2, h - 1, 1);
        }
        lemma_bit_and_low_mask(x / 2, (n - 1) as nat);
        vstd::arithmetic::div_mod::lemma_mod_breakdown(x as int, 2, h as int);
        assert(bit_and(x, m) == 2 * bit_and(x / 2, m / 2) + (x % 2) * (m % 2));
    }
}

/// AND with the mask of the bits from `b` up to `n` keeps
/// `x mod 2^n - x mod 2^b`.
pub proof fn lemma_bit_and_band_mask(x: nat, n: nat, b: nat)
    requires
        b <= n,
    ensures
        pow2(b) <= pow2(n),
        bit_and(x, (pow2(n) - pow2(b)) as nat) == x % pow2(n) - x % pow2(b),
    decreases b,
{
    vstd::arithmetic::power2::lemma_pow2_pos(n);
    vstd::arithmetic::power2::lemma_pow2_pos(b);
    if b < n {
        vstd::arithmetic::power2::lemma_pow2_strictly_increases(b, n);
    }
    if b == 0 {
        vstd::arithmetic::power2::lemma2_to64();
        lemma_bit_and_low_mask(x, n);
    } else if b == n {
    } else if x == 0 {
    } else {
        vstd::arithmetic::power2::lemma_pow2_unfold(n);
        vstd::arithmetic::power2::lemma_pow2_unfold(b);
        let m = (pow2(n) - pow2(b)) as nat;
        let hn = pow2((n - 1) as nat);
        let hb = pow2((b - 1) as nat);
        assert(m / 2 == (hn - hb) as nat && m % 2 == 0) by {
            vstd::arithmetic::div_mod::lemma_fundamental_div_mod_converse(m as int, 2, hn - hb, 0);
        }
        lemma_bit_and_band_mask(x / 2, (n - 1) as nat, (b - 1) as nat);
        vstd::arithmetic::power2::lemma_pow2_pos((n - 1) as nat);
        vstd::arithmetic::power2::lemma_pow2_pos((b - 1) as nat);
        vstd::arithmetic::div_mod::lemma_mod_breakdown(x as int, 2, hn as int);
        vstd::arithmetic::div_mod::lemma_mod_breakdown(x as int, 2, hb as int);
        assert(bit_and(x, m) == 2 * bit_and(x / 2, m / 2) + (x % 2) * (m % 2));
    }
}

/// 2^256 is the word modulus, and every lower power of two is below it.
pub proof fn lemma_pow2_below_modulus(b: nat)
    requires
        b < 256,
    ensures
        pow2(b) < word_modulus(),
        pow2(256) == word_modulus(),
{
    vstd::arithmetic::power2::lemma2_to64();
    vstd::arithmetic::power2::lemma_pow2_adds(64, 64);
    vstd::arithmetic::power2::lemma_pow2_adds(128, 128);
    assert(pow2(128) == pow_2_128());
    assert(pow_2_128() * pow_2_128() == word_modulus()) by (nonlinear_arith);
    assert(pow2(256) == pow2(128) * pow2(128));
    vstd::arithmetic::power2::lemma_pow2_strictly_increases(b, 256);
}

/// A signed 256-bit word in two's complement.
#[derive(Clone, Copy, PartialEq, Eq, Structural, Debug)]
pub struct I256 {
    pub raw: U256,
}

/// Whether an integer fits a signed 256-bit word.
pub open spec fn fits_i256(x: int) -> bool {
    -(pow_2_255() as int) <= x < pow_2_255()
}

impl View for I256 {
    type V = int;

    open spec fn view(&self) -> int {
        if self.raw@ >= pow_2_255() {
            self.raw@ - word_modulus()
        } else {
            self.raw@ as int
        }
    }
}

/// The value of a signed word fits a signed word, and its raw bits are its
/// value modulo 2^256.
pub proof fn lemma_signed_bounds(x: I256)
    ensures
        fits_i256(x@),
        x.raw@ == (if x@ < 0 { x@ + word_modulus() } else { x@ }),
{
    lemma_word_bounds(x.raw);
}

/// One limb of a sum: the low 64 bits of `a + b + carry` and the carry out.
fn add_limb(a: u64, b: u64, carry: u64) -> (r: (u64, u64))
    requires
        carry <= 1,
    ensures
        r.1 <= 1,
        a + b + carry == r.0 + pow_2_64() * r.1,
{
    let s: u128 = a as u128 + b as u128 + carry as u128;
    ((s % 0x1_0000_0000_0000_0000u128) as u64, (s / 0x1_0000_0000_0000_0000u128) as u64)
}

/// One limb of a difference: the low 64 bits of `a - b - borrow` and the
/// borrow out.
fn sub_limb(a: u64, b: u64, borrow: u64) -> (r: (u64, u64))
    requires
        borrow <= 1,
    ensures
        r.1 <= 1,
        a - b - borrow == r.0 - pow_2_64() * r.1,
{
    let s: u128 = a as u128 + 0x1_0000_0000_0000_0000u128 - b as u128 - borrow as u128;
    ((s % 0x1_0000_0000_0000_0000u128) as u64, 1 - (s / 0x1_0000_0000_0000_0000u128) as u64)
}

/// The sum modulo 2^256, limb by limb with carries, as `ruint`'s `+`
/// (`wrapping_add`) computes it.
pub(crate) fn word_add(a: U256, b: U256) -> (r: U256)
    ensures
        r@ == (a@ + b@) % word_modulus(),
{
    let (l0, c0) = add_limb(a.l0, b.l0, 0);
    let (l1, c1) = add_limb(a.l1, b.l1, c0);
    let (l2, c2) = add_limb(a.l2, b.l2, c1);
    let (l3, c3) = add_limb(a.l3, b.l3, c2);
    let r = U256 { l0, l1, l2, l3 };
    proof {
        lemma_word_bounds(r);
        assert(a@ + b@ == r@ + word_modulus() * c3);
        vstd::arithmetic::div_mod::lemma_fundamental_div_mod_converse((a@ + b@) as int, word_modulus() as int, c3 as int, r@ as int);
    }
    r
}

/// The difference modulo 2^256, limb by limb with borrows, as `ruint`'s `-`
/// (`wrapping_sub`) computes it.
pub(crate) fn word_sub(a: U256, b: U256) -> (r: U256)
    ensures
        r@ == (a@ - b@ + word_modulus()) % (word_modulus() as int),
{
    let (l0, c0) = sub_limb(a.l0, b.l0, 0);
    let (l1, c1) = sub_limb(a.l1, b.l1, c0);
    let (l2, c2) = sub_limb(a.l2, b.l2, c1);
    let (l3, c3) = sub_limb(a.l3, b.l3, c2);
    let r = U256 { l0, l1, l2, l3 };
    proof {
        lemma_word_bounds(r);
        assert(a@ - b@ + word_modulus() == r@ + word_modulus() * (1 - c3));
        vstd::arithmetic::div_mod::lemma_fundamental_div_mod_converse(a@ - b@ + word_modulus(), word_modulus() as int, 1 - c3, r@ as int);
    }
    r
}

/// `ruint`'s `*` (`wrapping_mul`): the product modulo 2^256.
#[verifier::external_body]
pub(crate) fn word_mul(a: U256, b: U256) -> (r: U256)
    ensures
        r@ == (a@ * b@) % word_modulus(),
{
    let x = alloy_primitives::U256::from_limbs([a.l0, a.l1, a.l2, a.l3]);
    let y = alloy_primitives::U256::from_limbs([b.l0, b.l1, b.l2, b.l3]);
    let l = (x * y).into_limbs();
    U256 { l0: l[0], l1: l[1], l2: l[2], l3: l[3] }
}

/// `ruint`'s `/` (`wrapping_div`): the floor of the quotient; it panics on a
/// zero divisor, which `requires` leaves out.
#[verifier::external_body]
pub(crate) fn word_div(a: U256, b: U256) -> (r: U256)
    requires
        b@ > 0,
    ensures
        r@ == a@ / b@,
{
    let x = alloy_primitives::U256::from_limbs([a.l0, a.l1, a.l2, a.l3]);
    let y = alloy_primitives::U256::from_limbs([b.l0, b.l1, b.l2, b.l3]);
    let l = (x / y).into_limbs();
    U256 { l0: l[0], l1: l[1], l2: l[2], l3: l[3] }
}

/// `ruint`'s `&`: the bitwise AND.
#[verifier::external_body]
pub(crate) fn word_and(a: U256, b: U256) -> (r: U256)
    ensures
        r@ == bit_and(a@, b@),
{
    let x = alloy_primitives::U256::from_limbs([a.l0, a.l1, a.l2, a.l3]);
    let y = alloy_primitives::U256::from_limbs([b.l0, b.l1, b.l2, b.l3]);
    let l = (x & y).into_limbs();
    U256 { l0: l[0], l1: l[1], l2: l[2], l3: l[3] }
}

/// Every one of the 256 bits flipped, that is `2^256 - 1 - a`, as `ruint`'s
/// `!` computes it limb by limb.
pub(crate) fn word_not(a: U256) -> (r: U256)
    ensures
        r@ == word_modulus() - 1 - a@,
{
    let r = U256 { l0: !a.l0, l1: !a.l1, l2: !a.l2, l3: !a.l3 };
    assert(forall|x: u64| #[trigger] (!x) == 0xffff_ffff_ffff_ffffu64 - x) by (bit_vector);
    assert(!a.l0 == 0xffff_ffff_ffff_ffffu64 - a.l0);
    assert(!a.l1 == 0xffff_ffff_ffff_ffffu64 - a.l1);
    assert(!a.l2 == 0xffff_ffff_ffff_ffffu64 - a.l2);
    assert(!a.l3 == 0xffff_ffff_ffff_ffffu64 - a.l3);
    r
}

/// `ruint`'s `<<` by a bit count: bits shifted past bit 255 are dropped, so
/// the result is `a * 2^s` modulo 2^256 (zero once `s >= 256`).
#[verifier::external_body]
pub(crate) fn word_shl(a: U256, s: u8) -> (r: U256)
    ensures
        r@ == (a@ * pow2(s as nat)) % word_modulus(),
{
    let x = alloy_primitives::U256::from_limbs([a.l0, a.l1, a.l2, a.l3]);
    let l = (x << (s as usize)).into_limbs();
    U256 { l0: l[0], l1: l[1], l2: l[2], l3: l[3] }
}

/// `alloy_primitives::I256::checked_add`: the sum where it fits, else `None`.
#[verifier::external_body]
pub(crate) fn signed_checked_add(a: I256, b: I256) -> (r: Option<I256>)
    ensures
        r is Some <==> fits_i256(a@ + b@),
        r matches Some(v) ==> v@ == a@ + b@,
{
    let x = alloy_primitives::I256::from_raw(alloy_primitives::U256::from_limbs([a.raw.l0, a.raw.l1, a.raw.l2, a.raw.l3]));
    let y = alloy_primitives::I256::from_raw(alloy_primitives::U256::from_limbs([b.raw.l0, b.raw.l1, b.raw.l2, b.raw.l3]));
    let l = x.checked_add(y)?.into_raw().into_limbs();
    Some(I256 { raw: U256 { l0: l[0], l1: l[1], l2: l[2], l3: l[3] } })
}

/// `alloy_primitives::I256::checked_sub`: the difference where it fits, else
/// `None`.
#[verifier::external_body]
pub(crate) fn signed_checked_sub(a: I256, b: I256) -> (r: Option<I256>)
    ensures
        r is Some <==> fits_i256(a@ - b@),
        r matches Some(v) ==> v@ == a@ - b@,
{
    let x = alloy_primitives::I256::from_raw(alloy_primitives::U256::from_limbs([a.raw.l0, a.raw.l1, a.raw.l2, a.raw.l3]));
    let y = alloy_primitives::I256::from_raw(alloy_primitives::U256::from_limbs([b.raw.l0, b.raw.l1, b.raw.l2, b.raw.l3]));
    let l = x.checked_sub(y)?.into_raw().into_limbs();
    Some(I256 { raw: U256 { l0: l[0], l1: l[1], l2: l[2], l3: l[3] } })
}

/// `alloy_primitives::I256::checked_neg`: the negation, `None` for the minimum.
#[verifier::external_body]
pub(crate) fn signed_checked_neg(a: I256) -> (r: Option<I256>)
    ensures
        r is Some <==> fits_i256(-a@),
        r matches Some(v) ==> v@ == -a@,
{
    let x = alloy_primitives::I256::from_raw(alloy_primitives::U256::from_limbs([a.raw.l0, a.raw.l1, a.raw.l2, a.raw.l3]));
    let l = x.checked_neg()?.into_raw().into_limbs();
    Some(I256 { raw: U256 { l0: l[0], l1: l[1], l2: l[2], l3: l[3] } })
}

impl I256 {
    /// Reinterprets the bits of an unsigned word.
    pub fn from_raw(raw: U256) -> (r: I256)
        ensures
            r.raw == raw,
    {
        I256 { raw }
    }

    pub fn zero() -> (r: I256)
        ensures
            r@ == 0,
    {
        I256 { raw: U256 { l0: 0, l1: 0, l2: 0, l3: 0 } }
    }

    pub fn is_zero(&self) -> (b: bool)
        ensures
            b == (self@ == 0),
    {
        proof {
            lemma_word_bounds(self.raw);
        }
        self.raw.is_zero()
    }

    /// Whether the value is strictly positive.
    pub fn is_positive(&self) -> (b: bool)
        ensures
            b == (self@ > 0),
    {
        let half = U256 { l0: 0, l1: 0, l2: 0, l3: 0x8000_0000_0000_0000 };
        proof {
            assert(half@ == pow_2_255());
        }
        !self.raw.is_zero() && self.raw.lt(&half)
    }
}

} // verus!
