//! Byte encodings of words: little- and big-endian digit sequences, and the
//! reading of a little-endian field out of a byte string.

use crate::word::{lemma_word_bounds, word_modulus, U256};
use vstd::prelude::*;

verus! {

/// 256^n.
pub open spec fn pow256(n: nat) -> nat
    decreases n,
{
    if n == 0 {
        1
    } else {
        256 * pow256((n - 1) as nat)
    }
}

/// The number a little-endian byte string encodes.
pub open spec fn le_value(s: Seq<u8>) -> nat
    decreases s.len(),
{
    if s.len() == 0 {
        0
    } else {
        s[0] as nat + 256 * le_value(s.drop_first())
    }
}

/// The number a big-endian byte string encodes.
pub open spec fn be_value(s: Seq<u8>) -> nat
    decreases s.len(),
{
    if s.len() == 0 {
        0
    } else {
        be_value(s.drop_last()) * 256 + s.last() as nat
    }
}

/// Byte `i` of `x` counting from the least significant byte.
pub open spec fn byte_of(x: nat, i: nat) -> u8 {
    ((x / pow256(i)) % 256) as u8
}

/// The 32 bytes of a word, least significant first.
pub open spec fn le_bytes(x: nat) -> Seq<u8> {
    Seq::new(32, |i: int| byte_of(x, i as nat))
}

/// The 32 bytes of a word, most significant first.
pub open spec fn be_bytes(x: nat) -> Seq<u8> {
    Seq::new(32, |i: int| byte_of(x, (31 - i) as nat))
}

/// Powers of 256 are positive.
pub proof fn lemma_pow256_pos(n: nat)
    ensures
        pow256(n) > 0,
    decreases n,
{
    if n > 0 {
        lemma_pow256_pos((n - 1) as nat);
    }
}

/// 256^32 is the word modulus.
pub proof fn lemma_pow256_32()
    ensures
        pow256(32) == word_modulus(),
{
    reveal_with_fuel(pow256, 33);
}

/// A byte string of length `n` encodes a number below 256^n.
pub proof fn lemma_le_value_bound(s: Seq<u8>)
    ensures
        le_value(s) < pow256(s.len()),
    decreases s.len(),
{
    if s.len() > 0 {
        lemma_le_value_bound(s.drop_first());
        let r = le_value(s.drop_first());
        let p = pow256((s.len() - 1) as nat);
        assert(s[0] as nat + 256 * r < 256 * p) by (nonlinear_arith)
            requires
                r < p,
                s[0] < 256,
        ;
    }
}

/// A little-endian string split in two encodes the low part plus the high
/// part scaled by the length of the low part.
pub proof fn lemma_le_value_split(s: Seq<u8>, n: int)
    requires
        0 <= n <= s.len(),
    ensures
        le_value(s) == le_value(s.subrange(0, n)) + pow256(n as nat) * le_value(s.subrange(n, s.len() as int)),
    decreases n,
{
    if n == 0 {
        assert(s.subrange(0, 0) =~= Seq::<u8>::empty());
        assert(s.subrange(0, s.len() as int) =~= s);
        assert(le_value(s.subrange(0, 0)) == 0);
        assert(pow256(0) == 1);
        assert(pow256(0) * le_value(s.subrange(0, s.len() as int)) == le_value(s));
    } else {
        let t = s.drop_first();
        lemma_le_value_split(t, n - 1);
        assert(t.subrange(0, n - 1) =~= s.subrange(0, n).drop_first());
        assert(t.subrange(n - 1, t.len() as int) =~= s.subrange(n, s.len() as int));
        let a = le_value(t.subrange(0, n - 1));
        let b = le_value(s.subrange(n, s.len() as int));
        let p = pow256((n - 1) as nat);
        assert(s[0] as nat + 256 * (a + p * b) == (s[0] as nat + 256 * a) + (256 * p) * b) by (nonlinear_arith);
        assert(s.subrange(0, n)[0] == s[0]);
        assert(le_value(s.subrange(0, n)) == s[0] as nat + 256 * a);
        assert(pow256(n as nat) == 256 * p);
        assert(le_value(s) == s[0] as nat + 256 * le_value(t));
        assert(le_value(t) == a + p * b);
        assert(le_value(s) == (s[0] as nat + 256 * a) + (256 * p) * b);
        assert(pow256(n as nat) * b == (256 * p) * b);
    }
}

/// The little-endian digits of a number below 256^n encode it back.
pub proof fn lemma_le_digits(x: nat, n: nat)
    ensures
        le_value(Seq::new(n, |i: int| byte_of(x, i as nat))) == x % pow256(n),
    decreases n,
{
    let s = Seq::new(n, |i: int| byte_of(x, i as nat));
    lemma_pow256_pos(n);
    if n == 0 {
    } else {
        let t = Seq::new((n - 1) as nat, |i: int| byte_of(x / 256, i as nat));
        assert forall|i: int| 0 <= i < n - 1 implies t[i] == s.drop_first()[i] by {
            lemma_pow256_pos(i as nat);
            vstd::arithmetic::div_mod::lemma_div_denominator(x as int, 256, pow256(i as nat) as int);
            assert(pow256((i + 1) as nat) == 256 * pow256(i as nat));
        }
        assert(t =~= s.drop_first());
        lemma_le_digits(x / 256, (n - 1) as nat);
        lemma_pow256_pos((n - 1) as nat);
        vstd::arithmetic::div_mod::lemma_mod_breakdown(x as int, 256, pow256((n - 1) as nat) as int);
        assert(pow256(0) == 1);
        assert(x / 1 == x);
        assert(s[0] == byte_of(x, 0));
        assert(s[0] == (x % 256) as u8);
    }
}

/// `ruint`'s `to_le_bytes::<32>`: the 32 bytes of a word, least significant
/// first.
#[verifier::external_body]
pub(crate) fn word_to_le_bytes(x: U256) -> (r: [u8; 32])
    ensures
        r@ == le_bytes(x@),
{
    alloy_primitives::U256::from_limbs([x.l0, x.l1, x.l2, x.l3]).to_le_bytes::<32>()
}

/// `ruint`'s `to_be_bytes::<32>`: the 32 bytes of a word, most significant
/// first.
#[verifier::external_body]
pub(crate) fn word_to_be_bytes(x: U256) -> (r: [u8; 32])
    ensures
        r@ == be_bytes(x@),
{
    alloy_primitives::U256::from_limbs([x.l0, x.l1, x.l2, x.l3]).to_be_bytes::<32>()
}

/// `ruint`'s `from_be_bytes::<32>`: the word that 32 big-endian bytes encode.
#[verifier::external_body]
pub(crate) fn word_from_be_bytes(b: [u8; 32]) -> (r: U256)
    ensures
        r@ == be_value(b@),
{
    let l = alloy_primitives::U256::from_be_bytes::<32>(b).into_limbs();
    U256 { l0: l[0], l1: l[1], l2: l[2], l3: l[3] }
}

/// The little-endian bytes of a word encode the word.
pub proof fn lemma_le_bytes_value(x: U256)
    ensures
        le_value(le_bytes(x@)) == x@,
        le_bytes(x@).len() == 32,
{
    lemma_le_digits(x@, 32);
    lemma_pow256_32();
    lemma_word_bounds(x);
    vstd::arithmetic::div_mod::lemma_small_mod(x@, word_modulus());
}

/// Reads the little-endian number in bytes `start .. start + n`.
pub fn read_le(bytes: &Vec<u8>, start: usize, n: usize) -> (v: u128)
    requires
        n <= 16,
        start + n <= bytes@.len(),
    ensures
        v == le_value(bytes@.subrange(start as int, start + n)),
{
    let mut v: u128 = 0;
    let mut i: usize = n;
    let len = bytes.len();
    while i > 0
        invariant
            len == bytes@.len(),
            i <= n,
            n <= 16,
            start + n <= bytes@.len(),
            v == le_value(bytes@.subrange(start + i, start + n)),
            v < pow256((n - i) as nat),
        decreases i,
    {
        let ghost s = bytes@.subrange(start + i - 1, start + n);
        proof {
            assert(s.drop_first() =~= bytes@.subrange(start + i, start + n));
            assert(pow256((n - i + 1) as nat) == 256 * pow256((n - i) as nat));
            reveal_with_fuel(pow256, 17);
            assert(pow256((n - i) as nat) <= pow256(15)) by {
                lemma_pow256_mono((n - i) as nat, 15);
            }
        }
        let b = bytes[start + (i - 1)];
        v = b as u128 + 256 * v;
        i = i - 1;
    }
    v
}

/// Powers of 256 grow with the exponent.
pub proof fn lemma_pow256_mono(a: nat, b: nat)
    requires
        a <= b,
    ensures
        pow256(a) <= pow256(b),
    decreases b,
{
    lemma_pow256_pos(a);
    if a < b {
        lemma_pow256_mono(a, (b - 1) as nat);
        lemma_pow256_pos((b - 1) as nat);
    }
}

} // verus!
