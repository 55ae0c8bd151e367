//! The executor contract's side of an opportunity: the opportunity is one
//! call to the executor with the first leg's pool call, whose callback data
//! carries the targets and call data of the other legs. Signing and sending
//! the transaction is the caller's I/O.

use crate::abi::{
    abi_bytes, abi_bytes_array, abi_word, abi_words, address_value, address_word, encode_word_bytes,
    encode_words_and_bytes_arrays,
};
use crate::token::Address;
use crate::v3_pool::PancakeSwapV3Pool;
use crate::v3_swap::swap_payload;
use crate::word::U256;
use vstd::prelude::*;

verus! {

/// One call of an opportunity: the contract called and its call data.
pub struct ExecutionStep {
    pub target: Address,
    pub data: Vec<u8>,
}

/// The selector of the executor's `execute1695833(address,bytes)`.
pub open spec fn execute_selector() -> Seq<u8> {
    seq![0x00u8, 0x00u8, 0x00u8, 0x14u8]
}

/// The extra bytes handed to the first leg: the other legs' targets and
/// call data, as `(address[], bytes[])`.
pub open spec fn legs_extra_data(steps: Seq<ExecutionStep>) -> Seq<u8> {
    abi_word(64) + abi_word(96 + 32 * steps.len()) + abi_word(steps.len())
        + abi_words(steps.map_values(|s: ExecutionStep| address_value(s.target)))
        + abi_bytes_array(steps.map_values(|s: ExecutionStep| s.data@))
}

/// The executor's call data for a first step: its target and its data.
pub open spec fn execute_call_data(first: ExecutionStep) -> Seq<u8> {
    execute_call_bytes(first.target, first.data@)
}

/// The executor's call data for a first call of `data` to `target`.
pub open spec fn execute_call_bytes(target: Address, data: Seq<u8>) -> Seq<u8> {
    execute_selector() + abi_word(address_value(target)) + abi_word(64) + abi_bytes(data)
}

/// The executor contract, and the nonce of the next transaction sent to it.
pub struct Executor {
    contract: Address,
    nonce: u64,
}

impl Executor {
    /// The executor contract's address.
    pub closed spec fn contract_address(&self) -> Address {
        self.contract
    }

    /// The nonce the next transaction takes.
    pub closed spec fn next_nonce(&self) -> u64 {
        self.nonce
    }

    pub fn new(contract: Address, nonce: u64) -> (e: Executor)
        ensures
            e.contract_address() == contract,
            e.next_nonce() == nonce,
    {
        Executor { contract, nonce }
    }

    pub fn contract(&self) -> (a: Address)
        ensures
            a == self.contract_address(),
    {
        self.contract
    }

    pub fn nonce(&self) -> (n: u64)
        ensures
            n == self.next_nonce(),
    {
        self.nonce
    }

    /// Takes the nonce for a transaction; the next one follows it.
    pub fn take_nonce(&mut self) -> (n: u64)
        requires
            old(self).next_nonce() < u64::MAX,
        ensures
            n == old(self).next_nonce(),
            final(self).next_nonce() == old(self).next_nonce() + 1,
            final(self).contract_address() == old(self).contract_address(),
    {
        let n = self.nonce;
        self.nonce = n + 1;
        n
    }

    /// The extra bytes of the first leg, from the steps of the other legs.
    pub fn legs_extra(steps: &Vec<ExecutionStep>) -> (r: Vec<u8>)
        ensures
            r@ == legs_extra_data(steps@),
    {
        let mut targets: Vec<U256> = Vec::new();
        let mut datas: Vec<Vec<u8>> = Vec::new();
        let mut i: usize = 0;
        while i < steps.len()
            invariant
                i <= steps@.len(),
                targets@.len() == i,
                datas@.len() == i,
                forall|j: int| 0 <= j < i ==> #[trigger] targets@[j]@ == address_value(steps@[j].target),
                forall|j: int| 0 <= j < i ==> #[trigger] datas@[j]@ == steps@[j].data@,
            decreases steps@.len() - i,
        {
            targets.push(address_word(steps[i].target));
            let data = steps[i].data.clone();
            proof {
                assert(data@ =~= steps@[i as int].data@);
            }
            datas.push(data);
            i = i + 1;
        }
        proof {
            assert(targets@.map_values(|w: U256| w@) =~= steps@.map_values(|s: ExecutionStep| address_value(s.target)));
            assert(datas@.map_values(|v: Vec<u8>| v@) =~= steps@.map_values(|s: ExecutionStep| s.data@));
        }
        encode_words_and_bytes_arrays(&targets, &datas)
    }

    /// The call data that executes an opportunity from its first step.
    pub fn call_data(first: &ExecutionStep) -> (r: Vec<u8>)
        ensures
            r@ == execute_call_data(*first),
    {
        let mut params = encode_word_bytes(address_word(first.target), &first.data);
        let mut data: Vec<u8> = vec![0x00u8, 0x00u8, 0x00u8, 0x14u8];
        data.append(&mut params);
        data
    }

    /// The call data that executes an opportunity whose first leg swaps
    /// `amount` of `token_in` in `first`: that swap's pool call, paid to the
    /// executor, carries the other legs' steps in its callback.
    pub fn opportunity_call_data(&self, first: &PancakeSwapV3Pool, token_in: Address, amount: U256, others: &Vec<ExecutionStep>) -> (r: Vec<u8>)
        ensures
            r@ == execute_call_bytes(first.address, swap_payload(*first, self.contract_address(), token_in, amount@, legs_extra_data(others@))),
    {
        let extra = Self::legs_extra(others);
        let step = ExecutionStep { target: first.address, data: first.create_payload(self.contract, token_in, amount, extra) };
        Self::call_data(&step)
    }
}

} // verus!
