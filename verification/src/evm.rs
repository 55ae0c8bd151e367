//! What an EVM call gives back, and a contract field kept at a fixed
//! storage slot.

use crate::bytes::{be_bytes, word_to_be_bytes};
use crate::word::U256;
use vstd::prelude::*;

verus! {

/// The result of a call run in the EVM: the gas it used and its decoded
/// output.
pub struct EvmCall<T> {
    pub gas_used: u64,
    pub output: T,
}

impl<T> EvmCall<T> {
    pub fn new(gas_used: u64, output: T) -> (c: EvmCall<T>)
        ensures
            c.gas_used == gas_used,
            c.output == output,
    {
        EvmCall { gas_used, output }
    }
}

/// A value read from one 32-byte storage word.
pub trait DecodableValue: Sized {
    /// The value the word holds.
    spec fn decoded(word: Seq<u8>) -> Self;

    fn decode(word: [u8; 32]) -> (r: Self)
        ensures
            r == Self::decoded(word@);
}

/// A contract field kept at storage slot `SLOT`.
pub struct StorageSlot<T, const SLOT: usize>(pub T);

impl<T, const SLOT: usize> StorageSlot<T, SLOT> {
    pub fn new(value: T) -> (s: StorageSlot<T, SLOT>)
        ensures
            s.0 == value,
    {
        StorageSlot(value)
    }

    /// The field's value.
    pub fn get(&self) -> (v: &T)
        ensures
            *v == self.0,
    {
        &self.0
    }

    /// The field's slot, as a big-endian word.
    pub fn slot(&self) -> (s: [u8; 32])
        ensures
            s@ == be_bytes(SLOT as nat),
    {
        word_to_be_bytes(U256::from_u64(SLOT as u64))
    }

    /// Sets the field from the word at its slot.
    pub fn decode(&mut self, word: [u8; 32])
        where T: DecodableValue,
        ensures
            final(self).0 == T::decoded(word@),
    {
        self.0 = T::decode(word);
    }
}

} // verus!
