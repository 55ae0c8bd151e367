//! Uniswap's TickLens contract, which lists the initialized ticks of one
//! word of a pool's tick bitmap.

use crate::token::Address;
use vstd::prelude::*;

verus! {

/// An initialized tick with its net and gross liquidity.
#[derive(Clone, Copy, PartialEq, Eq, Structural, Debug)]
pub struct PopulatedTick {
    pub tick: i32,
    pub liquidity_net: i128,
    pub liquidity_gross: u128,
}

/// The TickLens contract.
pub struct TickLens;

impl TickLens {
    /// Where the contract is deployed.
    pub open spec fn deployment() -> Address {
        Address { hi: 0xbfd8_137f, lo: 0x7d15_16d3_ea5c_a835_2391_4859_ec47_f573 }
    }

    pub fn deployment_address() -> (a: Address)
        ensures
            a == Self::deployment(),
    {
        Address { hi: 0xbfd8_137f, lo: 0x7d15_16d3_ea5c_a835_2391_4859_ec47_f573 }
    }
}

} // verus!
