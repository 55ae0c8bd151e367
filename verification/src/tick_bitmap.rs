//! The search for the next initialized tick within one 256-bit word of a
//! pool's tick bitmap. Fetching the word is the caller's I/O: the position to
//! fetch and the search on the fetched word are both here.

use crate::v3_math::{least_significant_bit, most_significant_bit, position, wrap_i16};
use crate::word::{
    lemma_bit_and_band_mask, lemma_bit_and_low_mask, lemma_pow2_below_modulus,
    lemma_word_bounds, word_add, word_and, word_modulus, word_not, word_shl, word_sub, U256,
};
use vstd::arithmetic::power2::pow2;
use vstd::prelude::*;

verus! {

/// The tick compressed by the spacing, rounded towards negative infinity.
pub open spec fn compressed_tick(tick: int, tick_spacing: int) -> int {
    tick / tick_spacing
}


/// The compressed tick whose bitmap bit the search starts from: the tick
/// itself when searching at or below it, the next one when searching above.
pub open spec fn search_start(tick: int, tick_spacing: int, lte: bool) -> int {
    if lte {
        compressed_tick(tick, tick_spacing)
    } else {
        compressed_tick(tick, tick_spacing) + 1
    }
}

/// The ticks and spacings on which the search stays within `i32`: a positive
/// spacing, and the ticks at the far edge of the word searched fit 32
/// signed bits (searching above, the compressed tick also has a successor).
pub open spec fn search_inputs_ok(tick: int, tick_spacing: int, lte: bool) -> bool {
    let edge = search_start(tick, tick_spacing, lte) - search_bit(tick, tick_spacing, lte);
    &&& 0 < tick_spacing
    &&& -0x8000_0000 <= tick < 0x8000_0000
    &&& lte ==> -0x8000_0000 <= edge * tick_spacing
    &&& !lte ==> compressed_tick(tick, tick_spacing) < 0x7fff_ffff && (edge + 255) * tick_spacing < 0x8000_0000
}

/// The bitmap word that holds the start of the search.
pub open spec fn search_word(tick: int, tick_spacing: int, lte: bool) -> int {
    wrap_i16(search_start(tick, tick_spacing, lte) / 256)
}

/// The bit of the start of the search within its word.
pub open spec fn search_bit(tick: int, tick_spacing: int, lte: bool) -> nat {
    (search_start(tick, tick_spacing, lte) % 256) as nat
}

/// `k` is the highest set bit of `x`.
pub open spec fn is_highest_bit(x: nat, k: nat) -> bool {
    pow2(k) <= x < pow2(k + 1)
}

/// `k` is the lowest set bit of `x`.
pub open spec fn is_lowest_bit(x: nat, k: nat) -> bool {
    x % pow2(k) == 0 && (x / pow2(k)) % 2 == 1
}

/// The bits of a word at or below `bit`.
pub open spec fn bits_at_or_below(word: nat, bit: nat) -> nat {
    word % pow2(bit + 1)
}

/// The bits of a word at or above `bit`.
pub open spec fn bits_at_or_above(word: nat, bit: nat) -> nat {
    (word - word % pow2(bit)) as nat
}

/// What the search gives for a bitmap word: whether an initialized tick was
/// found in the word, and the tick found, or else the tick at the edge of the
/// word in the direction of the search. Searching at or below, the found tick
/// is the highest set bit at or below the start; above, the lowest set bit at
/// or above the start.
pub open spec fn search_result(word: nat, tick: int, tick_spacing: int, lte: bool, next: int, initialized: bool) -> bool {
    let start = search_start(tick, tick_spacing, lte);
    let bit = search_bit(tick, tick_spacing, lte);
    if lte {
        let masked = bits_at_or_below(word, bit);
        &&& initialized == (masked != 0)
        &&& initialized ==> exists|k: nat| #[trigger] is_highest_bit(masked, k) && next == (start - bit + k) * tick_spacing
        &&& !initialized ==> next == (start - bit) * tick_spacing
    } else {
        let masked = bits_at_or_above(word, bit);
        &&& initialized == (masked != 0)
        &&& initialized ==> exists|k: nat| #[trigger] is_lowest_bit(masked, k) && next == (start - bit + k) * tick_spacing
        &&& !initialized ==> next == (start - bit + 255) * tick_spacing
    }
}

/// The highest set bit of a nonzero number.
pub open spec fn highest_bit(x: nat) -> nat {
    choose|k: nat| is_highest_bit(x, k)
}

/// The lowest set bit of a nonzero number.
pub open spec fn lowest_bit(x: nat) -> nat {
    choose|k: nat| is_lowest_bit(x, k)
}

/// The search result as a function of the word: the tick found, or the tick
/// at the edge of the word, and whether it is initialized.
pub open spec fn search_next(word: nat, tick: int, tick_spacing: int, lte: bool) -> (int, bool) {
    let start = search_start(tick, tick_spacing, lte);
    let bit = search_bit(tick, tick_spacing, lte);
    if lte {
        let masked = bits_at_or_below(word, bit);
        if masked != 0 {
            ((start - bit + highest_bit(masked)) * tick_spacing, true)
        } else {
            ((start - bit) * tick_spacing, false)
        }
    } else {
        let masked = bits_at_or_above(word, bit);
        if masked != 0 {
            ((start - bit + lowest_bit(masked)) * tick_spacing, true)
        } else {
            ((start - bit + 255) * tick_spacing, false)
        }
    }
}

/// A number has one highest set bit.
proof fn lemma_highest_bit_unique(x: nat, k: nat)
    requires
        is_highest_bit(x, k),
    ensures
        highest_bit(x) == k,
{
    let j = highest_bit(x);
    assert(is_highest_bit(x, j));
    if j < k {
        if j + 1 < k {
            vstd::arithmetic::power2::lemma_pow2_strictly_increases(j + 1, k);
        }
    } else if k < j {
        if k + 1 < j {
            vstd::arithmetic::power2::lemma_pow2_strictly_increases(k + 1, j);
        }
    }
}

/// A bit below the lowest set bit of a multiple of `2^j` is not its lowest
/// set bit when `k < j`.
proof fn lemma_lowest_bit_not_below(x: nat, k: nat, j: nat)
    requires
        k < j,
        x % pow2(j) == 0,
    ensures
        (x / pow2(k)) % 2 == 0,
{
    vstd::arithmetic::power2::lemma_pow2_pos(j);
    vstd::arithmetic::power2::lemma_pow2_pos(k);
    vstd::arithmetic::div_mod::lemma_fundamental_div_mod(x as int, pow2(j) as int);
    let q = x / pow2(j);
    let e = (j - k) as nat;
    vstd::arithmetic::power2::lemma_pow2_adds(k, e);
    vstd::arithmetic::power2::lemma_pow2_unfold(e);
    let h = pow2((e - 1) as nat);
    assert(x == pow2(k) * (2 * (h * q))) by (nonlinear_arith)
        requires
            x == pow2(j) * q,
            pow2(j) == pow2(k) * pow2(e),
            pow2(e) == 2 * h,
    ;
    vstd::arithmetic::div_mod::lemma_div_multiples_vanish((2 * (h * q)) as int, pow2(k) as int);
    vstd::arithmetic::div_mod::lemma_mod_multiples_basic((h * q) as int, 2);
    assert((h * q) * 2 == 2 * (h * q));
}

/// A number has one lowest set bit.
proof fn lemma_lowest_bit_unique(x: nat, k: nat)
    requires
        is_lowest_bit(x, k),
    ensures
        lowest_bit(x) == k,
{
    let j = lowest_bit(x);
    assert(is_lowest_bit(x, j));
    if j < k {
        lemma_lowest_bit_not_below(x, j, k);
    } else if k < j {
        lemma_lowest_bit_not_below(x, k, j);
    }
}

/// Powers of two grow with the exponent.
proof fn lemma_pow2_mono(a: nat, b: nat)
    requires
        a <= b,
    ensures
        pow2(a) <= pow2(b),
{
    if a < b {
        vstd::arithmetic::power2::lemma_pow2_strictly_increases(a, b);
    }
}

/// A nonzero number has a highest set bit.
proof fn lemma_highest_bit_exists(x: nat)
    requires
        x > 0,
    ensures
        is_highest_bit(x, highest_bit(x)),
    decreases x,
{
    if x == 1 {
        vstd::arithmetic::power2::lemma2_to64();
        assert(is_highest_bit(x, 0));
    } else {
        lemma_highest_bit_exists(x / 2);
        let k = highest_bit(x / 2);
        vstd::arithmetic::power2::lemma_pow2_unfold(k + 1);
        vstd::arithmetic::power2::lemma_pow2_unfold(k + 2);
        assert(is_highest_bit(x, k + 1));
    }
}

/// A nonzero number has a lowest set bit.
proof fn lemma_lowest_bit_exists(x: nat)
    requires
        x > 0,
    ensures
        is_lowest_bit(x, lowest_bit(x)),
    decreases x,
{
    vstd::arithmetic::power2::lemma2_to64();
    if x % 2 == 1 {
        assert(is_lowest_bit(x, 0));
    } else {
        lemma_lowest_bit_exists(x / 2);
        let k = lowest_bit(x / 2);
        vstd::arithmetic::power2::lemma_pow2_unfold(k + 1);
        vstd::arithmetic::power2::lemma_pow2_pos(k);
        let p = pow2(k);
        vstd::arithmetic::div_mod::lemma_fundamental_div_mod((x / 2) as int, p as int);
        let q = x / 2 / p;
        assert(x == 2 * p * q) by (nonlinear_arith)
            requires
                x == 2 * (x / 2),
                x / 2 == p * q + 0,
        ;
        vstd::arithmetic::div_mod::lemma_mod_multiples_basic(q as int, (2 * p) as int);
        assert(q * (2 * p) == 2 * p * q) by (nonlinear_arith);
        vstd::arithmetic::div_mod::lemma_div_multiples_vanish(q as int, (2 * p) as int);
        assert((2 * p) * q == 2 * p * q) by (nonlinear_arith);
        assert(is_lowest_bit(x, k + 1));
    }
}

/// The tick at bit `k` of the word the search starts in.
pub open spec fn word_tick(tick: int, tick_spacing: int, lte: bool, k: nat) -> int {
    (search_start(tick, tick_spacing, lte) - search_bit(tick, tick_spacing, lte) + k) * tick_spacing
}

/// The tick the search gives never leaves the bitmap word the search starts
/// in: it is the spacing times a compressed tick of that word, at or below
/// the start when searching at or below, at or above it otherwise.
pub proof fn law_search_within_one_word(word: nat, tick: int, tick_spacing: int, lte: bool)
    requires
        search_inputs_ok(tick, tick_spacing, lte),
        word < crate::word::word_modulus(),
    ensures
        exists|k: nat| {
            &&& k <= 255
            &&& search_next(word, tick, tick_spacing, lte).0 == #[trigger] word_tick(tick, tick_spacing, lte, k)
            &&& lte ==> k <= search_bit(tick, tick_spacing, lte)
            &&& !lte ==> search_bit(tick, tick_spacing, lte) <= k
        },
{
    let bit = search_bit(tick, tick_spacing, lte);
    let start = search_start(tick, tick_spacing, lte);
    assert(bit < 256);
    vstd::arithmetic::power2::lemma_pow2_pos(bit);
    vstd::arithmetic::power2::lemma_pow2_pos(bit + 1);
    lemma_pow2_below_modulus(0);
    if lte {
        let masked = bits_at_or_below(word, bit);
        if masked != 0 {
            lemma_highest_bit_exists(masked);
            let h = highest_bit(masked);
            vstd::arithmetic::div_mod::lemma_mod_pos_bound(word as int, pow2(bit + 1) as int);
            if h > bit {
                lemma_pow2_mono(bit + 1, h);
            }
            assert(h <= bit);
            assert(search_next(word, tick, tick_spacing, lte).0 == word_tick(tick, tick_spacing, lte, h));
        } else {
            assert(search_next(word, tick, tick_spacing, lte).0 == word_tick(tick, tick_spacing, lte, 0nat));
            assert(0nat <= bit);
        }
    } else {
        let masked = bits_at_or_above(word, bit);
        if masked != 0 {
            lemma_lowest_bit_exists(masked);
            let l = lowest_bit(masked);
            lemma_lowest_bit_at_least(word, bit, l);
            vstd::arithmetic::div_mod::lemma_mod_pos_bound(word as int, pow2(bit) as int);
            if l > 255 {
                vstd::arithmetic::power2::lemma_pow2_pos(l);
                vstd::arithmetic::div_mod::lemma_fundamental_div_mod(masked as int, pow2(l) as int);
                assert(masked >= pow2(l)) by (nonlinear_arith)
                    requires
                        masked == pow2(l) * (masked / pow2(l)) + masked % pow2(l),
                        masked % pow2(l) == 0,
                        (masked / pow2(l)) % 2 == 1,
                        pow2(l) > 0,
                ;
                lemma_pow2_mono(256, l);
                lemma_pow2_below_modulus(255);
                assert(word % pow2(bit) <= word) by {
                    vstd::arithmetic::div_mod::lemma_mod_decreases(word, pow2(bit));
                }
                assert(masked <= word);
            }
            assert(bit <= l);
            assert(l <= 255);
            assert(search_next(word, tick, tick_spacing, lte).0 == word_tick(tick, tick_spacing, lte, l));
        } else {
            assert(search_next(word, tick, tick_spacing, lte).0 == word_tick(tick, tick_spacing, lte, 255nat));
        }
    }
}

/// The relational search result is the functional one.
proof fn lemma_search_result_is_next(word: nat, tick: int, tick_spacing: int, lte: bool, next: int, initialized: bool)
    requires
        search_result(word, tick, tick_spacing, lte, next, initialized),
    ensures
        (next, initialized) == search_next(word, tick, tick_spacing, lte),
{
    let bit = search_bit(tick, tick_spacing, lte);
    if lte {
        let masked = bits_at_or_below(word, bit);
        if initialized {
            let k = choose|k: nat| #[trigger] is_highest_bit(masked, k) && next == (search_start(tick, tick_spacing, lte) - bit + k) * tick_spacing;
            lemma_highest_bit_unique(masked, k);
        }
    } else {
        let masked = bits_at_or_above(word, bit);
        if initialized {
            let k = choose|k: nat| #[trigger] is_lowest_bit(masked, k) && next == (search_start(tick, tick_spacing, lte) - bit + k) * tick_spacing;
            lemma_lowest_bit_unique(masked, k);
        }
    }
}

/// The lowest set bit of the bits of a word at or above `b` is at least `b`.
proof fn lemma_lowest_bit_at_least(word: nat, b: nat, k: nat)
    requires
        is_lowest_bit(bits_at_or_above(word, b), k),
    ensures
        b <= k,
{
    let d = pow2(b);
    vstd::arithmetic::power2::lemma_pow2_pos(b);
    vstd::arithmetic::div_mod::lemma_fundamental_div_mod(word as int, d as int);
    let q = word / d;
    assert(bits_at_or_above(word, b) == d * q);
    if k < b {
        let e = (b - k) as nat;
        vstd::arithmetic::power2::lemma_pow2_adds(k, e);
        vstd::arithmetic::power2::lemma_pow2_pos(k);
        vstd::arithmetic::power2::lemma_pow2_unfold(e);
        let pe = pow2(e);
        let pk = pow2(k);
        assert(d * q == pk * (pe * q)) by (nonlinear_arith)
            requires
                d == pk * pe,
        ;
        vstd::arithmetic::div_mod::lemma_div_multiples_vanish((pe * q) as int, pk as int);
        assert(pe * q == 2 * (pow2((e - 1) as nat) * q)) by (nonlinear_arith)
            requires
                pe == 2 * pow2((e - 1) as nat),
        ;
        vstd::arithmetic::div_mod::lemma_mod_multiples_basic((pow2((e - 1) as nat) * q) as int, 2);
        assert(((pow2((e - 1) as nat) * q) * 2) % 2 == 0);
        assert(false);
    }
}

/// A compressed tick `c + j` between two whose scaled ticks fit 32 signed
/// bits fits them too, scaled or not.
proof fn lemma_scaled_between(c: int, s: int, lo: int, j: int, hi: int)
    requires
        0 < s,
        lo <= j <= hi,
        -0x8000_0000 <= (c + lo) * s,
        (c + hi) * s < 0x8000_0000,
    ensures
        -0x8000_0000 <= c + j < 0x8000_0000,
        -0x8000_0000 <= (c + j) * s < 0x8000_0000,
{
    assert((c + lo) * s <= (c + j) * s <= (c + hi) * s) by (nonlinear_arith)
        requires
            0 < s,
            lo <= j <= hi,
    ;
    assert(c + j < 0 ==> (c + j) * s <= c + j) by (nonlinear_arith)
        requires
            0 < s,
    ;
    assert(c + j >= 0 ==> c + j <= (c + j) * s) by (nonlinear_arith)
        requires
            0 < s,
    ;
}

/// Floor division of a tick by a positive spacing, as the pool compresses
/// ticks: truncate, then step down for a negative tick with a remainder.
fn compress(tick: i32, tick_spacing: i32) -> (c: i32)
    requires
        0 < tick_spacing,
    ensures
        c == compressed_tick(tick as int, tick_spacing as int),
        c * tick_spacing <= tick < c * tick_spacing + tick_spacing,
{
    let q = tick / tick_spacing;
    let m = tick % tick_spacing;
    proof {
        let s = tick_spacing as int;
        if tick >= 0 {
            vstd::arithmetic::div_mod::lemma_fundamental_div_mod(tick as int, s);
        } else {
            let a = -(tick as int);
            vstd::arithmetic::div_mod::lemma_fundamental_div_mod(a, s);
            vstd::arithmetic::div_mod::lemma_mod_pos_bound(a, s);
            assert(q == -(a / s));
            assert(m == -(a % s));
            assert(q * s == -(s * (a / s))) by (nonlinear_arith)
                requires
                    q == -(a / s),
            ;
            if a % s == 0 {
                vstd::arithmetic::div_mod::lemma_fundamental_div_mod_converse(tick as int, s, q as int, 0);
            } else {
                assert(a / s <= 0x4000_0000) by (nonlinear_arith)
                    requires
                        a <= 0x8000_0000,
                        s * (a / s) + a % s == a,
                        0 < a % s < s,
                ;
                assert((q - 1) * s == q * s - s) by (nonlinear_arith);
                vstd::arithmetic::div_mod::lemma_fundamental_div_mod_converse(tick as int, s, q - 1, s - a % s);
            }
        }
        vstd::arithmetic::div_mod::lemma_fundamental_div_mod(tick as int, s);
        assert(s * (tick as int / s) == (tick as int / s) * s) by (nonlinear_arith);
    }
    if tick < 0 && m != 0 {
        q - 1
    } else {
        q
    }
}

/// Whether the search from `tick` stays within `i32`: a positive spacing,
/// and the far edge of the word searched fits.
pub fn search_inputs_fit(tick: i32, tick_spacing: i32, lte: bool) -> (b: bool)
    ensures
        b == search_inputs_ok(tick as int, tick_spacing as int, lte),
{
    if tick_spacing <= 0 {
        return false;
    }
    let c = compress(tick, tick_spacing);
    if lte {
        let (_, bit) = position(c);
        let edge: i64 = c as i64 - bit as i64;
        proof {
            assert(search_bit(tick as int, tick_spacing as int, true) == bit);
            assert(-0x8000_0100 <= edge <= 0x8000_0000);
            assert(-0x4000_0100_0000_0000 <= edge * tick_spacing <= 0x4000_0100_0000_0000) by (nonlinear_arith)
                requires
                    -0x8000_0100 <= edge <= 0x8000_0000,
                    0 < tick_spacing <= 0x7fff_ffff,
            ;
        }
        -0x8000_0000i64 <= edge * tick_spacing as i64
    } else {
        if c >= 0x7fff_ffff {
            return false;
        }
        let (_, bit) = position(c + 1);
        let edge: i64 = (c as i64 + 1) - bit as i64 + 255;
        proof {
            assert(search_bit(tick as int, tick_spacing as int, false) == bit);
            assert(-0x8000_0100 <= edge <= 0x8000_0100);
            assert(-0x4000_0100_0000_0000 <= edge * tick_spacing <= 0x4000_0100_0000_0000) by (nonlinear_arith)
                requires
                    -0x8000_0100 <= edge <= 0x8000_0100,
                    0 < tick_spacing <= 0x7fff_ffff,
            ;
        }
        edge * (tick_spacing as i64) < 0x8000_0000i64
    }
}

/// The bitmap word that the search for the next initialized tick reads.
pub fn bitmap_word_to_search(tick: i32, tick_spacing: i32, lte: bool) -> (w: i16)
    requires
        search_inputs_ok(tick as int, tick_spacing as int, lte),
    ensures
        w as int == search_word(tick as int, tick_spacing as int, lte),
{
    let c = compress(tick, tick_spacing);
    let (w, _) = if lte {
        position(c)
    } else {
        position(c + 1)
    };
    w
}

/// The search at or below the start bit of the word.
#[verifier::rlimit(30)]
fn search_at_or_below(word: U256, tick: i32, tick_spacing: i32, compressed: i32) -> (r: (i32, bool))
    requires
        search_inputs_ok(tick as int, tick_spacing as int, true),
        compressed == compressed_tick(tick as int, tick_spacing as int),
        compressed * tick_spacing <= tick < compressed * tick_spacing + tick_spacing,
    ensures
        search_result(word@, tick as int, tick_spacing as int, true, r.0 as int, r.1),
{
    let one = U256::from_u64(1);
    let (_, bit_pos) = position(compressed);
    proof {
        assert(search_bit(tick as int, tick_spacing as int, true) == bit_pos);
    }
    let shifted = word_shl(one, bit_pos);
    proof {
        lemma_pow2_below_modulus(bit_pos as nat);
        vstd::arithmetic::div_mod::lemma_small_mod(pow2(bit_pos as nat), word_modulus());
        vstd::arithmetic::power2::lemma_pow2_pos(bit_pos as nat);
        vstd::arithmetic::power2::lemma_pow2_unfold(bit_pos as nat + 1);
        assert(shifted@ == pow2(bit_pos as nat));
    }
    let low = word_sub(shifted, one);
    proof {
        vstd::arithmetic::div_mod::lemma_fundamental_div_mod_converse(shifted@ - 1 + word_modulus(), word_modulus() as int, 1, shifted@ - 1);
    }
    let mask = word_add(low, shifted);
    proof {
        lemma_pow2_below_modulus(255);
        if bit_pos < 255 {
            vstd::arithmetic::power2::lemma_pow2_strictly_increases(bit_pos as nat + 1, 256);
        }
        vstd::arithmetic::div_mod::lemma_small_mod((pow2(bit_pos as nat + 1) - 1) as nat, word_modulus());
        assert(mask@ == pow2(bit_pos as nat + 1) - 1);
    }
    let masked = word_and(word, mask);
    proof {
        lemma_bit_and_low_mask(word@, bit_pos as nat + 1);
    }
    let initialized = !masked.is_zero();
    let next = if initialized {
        let msb = match most_significant_bit(masked) {
            Ok(b) => b,
            Err(_) => 0,
        };
        proof {
            vstd::arithmetic::div_mod::lemma_mod_pos_bound(word@ as int, pow2(bit_pos as nat + 1) as int);
            if msb > bit_pos {
                if (msb as nat) > bit_pos as nat + 1 {
                    vstd::arithmetic::power2::lemma_pow2_strictly_increases(bit_pos as nat + 1, msb as nat);
                }
            }
            assert(is_highest_bit(masked@, msb as nat));
            lemma_scaled_between(compressed as int, tick_spacing as int, -(bit_pos as int), msb - bit_pos, 0);
        }
        let n = (compressed - (bit_pos - msb) as i32) * tick_spacing;
        proof {
            assert(is_highest_bit(masked@, msb as nat) && n == (compressed - bit_pos + msb) * tick_spacing);
        }
        n
    } else {
        proof {
            lemma_scaled_between(compressed as int, tick_spacing as int, -(bit_pos as int), -(bit_pos as int), 0);
        }
        (compressed - bit_pos as i32) * tick_spacing
    };
    proof {
        assert(search_bit(tick as int, tick_spacing as int, true) == bit_pos);
        assert(masked@ == bits_at_or_below(word@, bit_pos as nat));
    }
    (next, initialized)
}

/// The search above the start bit of the word.
#[verifier::rlimit(30)]
fn search_above(word: U256, tick: i32, tick_spacing: i32, compressed: i32) -> (r: (i32, bool))
    requires
        search_inputs_ok(tick as int, tick_spacing as int, false),
        compressed == compressed_tick(tick as int, tick_spacing as int),
        compressed * tick_spacing <= tick < compressed * tick_spacing + tick_spacing,
    ensures
        search_result(word@, tick as int, tick_spacing as int, false, r.0 as int, r.1),
{
    let one = U256::from_u64(1);
    let (_, bit_pos) = position(compressed + 1);
    proof {
        assert(search_bit(tick as int, tick_spacing as int, false) == bit_pos);
        assert((compressed + 1) * tick_spacing == compressed * tick_spacing + tick_spacing) by (nonlinear_arith);
    }
    let shifted = word_shl(one, bit_pos);
    proof {
        lemma_pow2_below_modulus(bit_pos as nat);
        vstd::arithmetic::div_mod::lemma_small_mod(pow2(bit_pos as nat), word_modulus());
        vstd::arithmetic::power2::lemma_pow2_pos(bit_pos as nat);
        assert(shifted@ == pow2(bit_pos as nat));
    }
    let low = word_sub(shifted, one);
    proof {
        vstd::arithmetic::div_mod::lemma_fundamental_div_mod_converse(shifted@ - 1 + word_modulus(), word_modulus() as int, 1, shifted@ - 1);
    }
    let mask = word_not(low);
    let masked = word_and(word, mask);
    proof {
        lemma_bit_and_band_mask(word@, 256, bit_pos as nat);
        lemma_word_bounds(word);
        vstd::arithmetic::div_mod::lemma_small_mod(word@, word_modulus());
    }
    let initialized = !masked.is_zero();
    let next = if initialized {
        let lsb = match least_significant_bit(masked) {
            Ok(b) => b,
            Err(_) => 0,
        };
        proof {
            assert(is_lowest_bit(masked@, lsb as nat));
            lemma_lowest_bit_at_least(word@, bit_pos as nat, lsb as nat);
            lemma_scaled_between(compressed as int, tick_spacing as int, 1, 1 + lsb - bit_pos, 256 - bit_pos);
        }
        let n = (compressed + 1 + (lsb - bit_pos) as i32) * tick_spacing;
        proof {
            assert(is_lowest_bit(masked@, lsb as nat) && n == (compressed + 1 - bit_pos + lsb) * tick_spacing);
        }
        n
    } else {
        proof {
            lemma_scaled_between(compressed as int, tick_spacing as int, 1, 256 - bit_pos, 256 - bit_pos);
        }
        (compressed + 1 + (255 - bit_pos) as i32) * tick_spacing
    };
    proof {
        assert(search_bit(tick as int, tick_spacing as int, false) == bit_pos);
        assert(masked@ == bits_at_or_above(word@, bit_pos as nat));
    }
    (next, initialized)
}

/// The next initialized tick within one word of the bitmap, at or below the
/// tick (`lte`) or above it, given the bitmap word that holds the start of
/// the search; with whether that tick is initialized.
pub fn next_initialized_tick_within_one_word(word: U256, tick: i32, tick_spacing: i32, lte: bool) -> (r: (i32, bool))
    requires
        search_inputs_ok(tick as int, tick_spacing as int, lte),
    ensures
        search_result(word@, tick as int, tick_spacing as int, lte, r.0 as int, r.1),
        (r.0 as int, r.1) == search_next(word@, tick as int, tick_spacing as int, lte),
{
    let compressed = compress(tick, tick_spacing);
    let r = if lte {
        search_at_or_below(word, tick, tick_spacing, compressed)
    } else {
        search_above(word, tick, tick_spacing, compressed)
    };
    proof {
        lemma_search_result_is_next(word@, tick as int, tick_spacing as int, lte, r.0 as int, r.1);
    }
    r
}

} // verus!
