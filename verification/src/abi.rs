//! The Solidity ABI encodings of the calls the engine sends. A static value
//! is one 32-byte big-endian word; a byte string after the head is its
//! length as a word, then its bytes, padded with zeros to whole words. The
//! encoding itself is `alloy_sol_types`'; each trusted wrapper states the
//! layout it produces for its types.

use crate::bytes::be_bytes;
use crate::token::Address;
use crate::word::U256;
use alloy_sol_types::sol_data;
use alloy_sol_types::SolType;
use vstd::prelude::*;

verus! {

/// A value as one ABI word: 32 bytes, big-endian.
pub open spec fn abi_word(n: nat) -> Seq<u8> {
    be_bytes(n)
}

/// The zeros that pad a byte string of length `len` to whole words.
pub open spec fn padding(len: nat) -> nat {
    ((32 - len % 32) % 32) as nat
}

/// A byte string in the tail of an encoding: its length, its bytes, and
/// the padding.
pub open spec fn abi_bytes(data: Seq<u8>) -> Seq<u8> {
    abi_word(data.len()) + data + Seq::new(padding(data.len()), |i: int| 0u8)
}

/// Values as consecutive words.
pub open spec fn abi_words(values: Seq<nat>) -> Seq<u8>
    decreases values.len(),
{
    if values.len() == 0 {
        Seq::empty()
    } else {
        abi_words(values.drop_last()) + abi_word(values.last())
    }
}

/// The tails of a sequence of byte strings, one after another.
pub open spec fn bytes_tails(items: Seq<Seq<u8>>) -> Seq<u8>
    decreases items.len(),
{
    if items.len() == 0 {
        Seq::empty()
    } else {
        bytes_tails(items.drop_last()) + abi_bytes(items.last())
    }
}

/// A `bytes[]` value: the number of items, the offset of each item's tail
/// from the end of that number, then the tails.
pub open spec fn abi_bytes_array(items: Seq<Seq<u8>>) -> Seq<u8> {
    abi_word(items.len())
        + abi_words(Seq::new(items.len(), |k: int| 32 * items.len() + bytes_tails(items.subrange(0, k)).len()))
        + bytes_tails(items)
}

/// The value of an address as a number below 2^160.
pub open spec fn address_value(a: Address) -> nat {
    a.hi as nat * 0x1_0000_0000_0000_0000_0000_0000_0000_0000 + a.lo as nat
}

/// The word holding an address.
pub fn address_word(a: Address) -> (w: U256)
    ensures
        w@ == address_value(a),
{
    let lo = U256::from_u128(a.lo);
    U256 { l0: lo.l0, l1: lo.l1, l2: a.hi as u64, l3: 0 }
}

/// `alloy_sol_types`' sequence encoding of `(uint256, bytes)`: the word,
/// the offset of the bytes (two words), then the bytes.
#[verifier::external_body]
pub(crate) fn encode_word_bytes(a: U256, data: &Vec<u8>) -> (r: Vec<u8>)
    ensures
        r@ == abi_word(a@) + abi_word(64) + abi_bytes(data@),
{
    let x = alloy_primitives::U256::from_limbs([a.l0, a.l1, a.l2, a.l3]);
    <(sol_data::Uint<256>, sol_data::Bytes) as SolType>::abi_encode_sequence(&(x, alloy_primitives::Bytes::from(data.clone())))
}

/// `alloy_sol_types`' sequence encoding of `(uint256, uint256, uint256,
/// bytes)`: the three words, the offset of the bytes (four words), then the
/// bytes.
#[verifier::external_body]
pub(crate) fn encode_three_words_bytes(a: U256, b: U256, c: U256, data: &Vec<u8>) -> (r: Vec<u8>)
    ensures
        r@ == abi_word(a@) + abi_word(b@) + abi_word(c@) + abi_word(128) + abi_bytes(data@),
{
    let x = alloy_primitives::U256::from_limbs([a.l0, a.l1, a.l2, a.l3]);
    let y = alloy_primitives::U256::from_limbs([b.l0, b.l1, b.l2, b.l3]);
    let z = alloy_primitives::U256::from_limbs([c.l0, c.l1, c.l2, c.l3]);
    <(sol_data::Uint<256>, sol_data::Uint<256>, sol_data::Uint<256>, sol_data::Bytes) as SolType>::abi_encode_sequence(&(x, y, z, alloy_primitives::Bytes::from(data.clone())))
}

/// `alloy_sol_types`' sequence encoding of `(uint256, uint256, uint256,
/// uint256, bytes)`: the four words, the offset of the bytes (five words),
/// then the bytes.
#[verifier::external_body]
pub(crate) fn encode_four_words_bytes(a: U256, b: U256, c: U256, d: U256, data: &Vec<u8>) -> (r: Vec<u8>)
    ensures
        r@ == abi_word(a@) + abi_word(b@) + abi_word(c@) + abi_word(d@) + abi_word(160) + abi_bytes(data@),
{
    let w = alloy_primitives::U256::from_limbs([a.l0, a.l1, a.l2, a.l3]);
    let x = alloy_primitives::U256::from_limbs([b.l0, b.l1, b.l2, b.l3]);
    let y = alloy_primitives::U256::from_limbs([c.l0, c.l1, c.l2, c.l3]);
    let z = alloy_primitives::U256::from_limbs([d.l0, d.l1, d.l2, d.l3]);
    <(sol_data::Uint<256>, sol_data::Uint<256>, sol_data::Uint<256>, sol_data::Uint<256>, sol_data::Bytes) as SolType>::abi_encode_sequence(&(w, x, y, z, alloy_primitives::Bytes::from(data.clone())))
}

/// `alloy_sol_types`' sequence encoding of `(uint256[], bytes[])`: the
/// offsets of the two arrays (two words, then past the first array), the
/// first array as its length and its words, then the second array.
#[verifier::external_body]
pub(crate) fn encode_words_and_bytes_arrays(words: &Vec<U256>, items: &Vec<Vec<u8>>) -> (r: Vec<u8>)
    ensures
        r@ == abi_word(64) + abi_word(96 + 32 * words@.len()) + abi_word(words@.len())
            + abi_words(words@.map_values(|w: U256| w@)) + abi_bytes_array(items@.map_values(|v: Vec<u8>| v@)),
{
    let w: Vec<alloy_primitives::U256> = words.iter().map(|x| alloy_primitives::U256::from_limbs([x.l0, x.l1, x.l2, x.l3])).collect();
    let b: Vec<alloy_primitives::Bytes> = items.iter().map(|v| alloy_primitives::Bytes::from(v.clone())).collect();
    <(sol_data::Array<sol_data::Uint<256>>, sol_data::Array<sol_data::Bytes>) as SolType>::abi_encode_sequence(&(w, b))
}


/// A byte string in an encoding fills whole words: its length word, then its
/// bytes and padding, fewer than 32 of them.
pub proof fn law_abi_bytes_whole_words(data: Seq<u8>)
    ensures
        abi_bytes(data).len() % 32 == 0,
        abi_bytes(data).len() == 32 + data.len() + padding(data.len()),
        padding(data.len()) < 32,
{
    assert(abi_word(data.len()).len() == 32);
    let n = data.len();
    vstd::arithmetic::div_mod::lemma_fundamental_div_mod(n as int, 32);
}

} // verus!
