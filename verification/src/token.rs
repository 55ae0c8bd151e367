//! Addresses and ERC-20 token descriptions.

use vstd::prelude::*;

verus! {

/// A 20-byte account address, held big-endian as its first four bytes and
/// its last sixteen.
#[derive(Clone, Copy, PartialEq, Eq, Structural, Debug, Hash)]
pub struct Address {
    pub hi: u32,
    pub lo: u128,
}

impl Address {
    pub fn new(hi: u32, lo: u128) -> (a: Address)
        ensures
            a.hi == hi,
            a.lo == lo,
    {
        Address { hi, lo }
    }

    /// The zero address.
    pub fn zero() -> (a: Address)
        ensures
            a.hi == 0 && a.lo == 0,
    {
        Address { hi: 0, lo: 0 }
    }

    pub fn is_zero(&self) -> (b: bool)
        ensures
            b == (self.hi == 0 && self.lo == 0),
    {
        self.hi == 0 && self.lo == 0
    }
}

/// An ERC-20 token as the engine knows it. Two tokens are the same token
/// when their addresses are equal, whatever their symbols and decimals.
#[derive(Clone, Debug)]
pub struct ERC20 {
    pub address: Address,
    pub symbol: String,
    pub decimals: u8,
}

impl PartialEq for ERC20 {
    fn eq(&self, other: &Self) -> (r: bool) {
        self.address == other.address
    }
}

impl vstd::std_specs::cmp::PartialEqSpecImpl for ERC20 {
    open spec fn obeys_eq_spec() -> bool {
        true
    }

    open spec fn eq_spec(&self, other: &ERC20) -> bool {
        self.address == other.address
    }
}

impl ERC20 {
    pub fn new(address: Address, symbol: String, decimals: u8) -> (t: ERC20)
        ensures
            t.address == address,
            t.symbol@ == symbol@,
            t.decimals == decimals,
    {
        ERC20 { address, symbol, decimals }
    }
}

} // verus!
