//! The chains the engine runs on and the token addresses it knows there.

use crate::token::Address;
use vstd::prelude::*;

verus! {

/// The addresses of the tokens the engine prices in on one chain.
#[derive(Clone, Copy, PartialEq, Eq, Structural, Debug)]
pub struct AddressBook {
    pub usdt: Address,
    pub usdc: Address,
    pub weth: Address,
    pub wbtc: Address,
    pub dai: Address,
}

/// Arbitrum One's id.
pub open spec fn arbitrum_chain_id() -> u64 {
    42161
}

/// The token addresses on Arbitrum One.
pub open spec fn arbitrum_book() -> AddressBook {
    AddressBook {
        usdt: Address { hi: 0xfd08_6bc7, lo: 0xcd5c_481d_cc9c_85eb_e478_a1c0_b69f_cbb9 },
        usdc: Address { hi: 0xaf88_d065, lo: 0xe77c_8cc2_2393_27c5_edb3_a432_268e_5831 },
        weth: Address { hi: 0x82af_4944, lo: 0x7d8a_07e3_bd95_bd0d_56f3_5241_523f_bab1 },
        wbtc: Address { hi: 0x2f2a_2543, lo: 0xb76a_4166_549f_7aab_2e75_bef0_aefc_5b0f },
        dai: Address { hi: 0xda10_009c, lo: 0xbd5d_07dd_0cec_c661_61fc_93d7_c900_0da1 },
    }
}

/// The token addresses on Arbitrum One.
pub fn arbitrum() -> (b: AddressBook)
    ensures
        b == arbitrum_book(),
{
    AddressBook {
        usdt: Address { hi: 0xfd08_6bc7, lo: 0xcd5c_481d_cc9c_85eb_e478_a1c0_b69f_cbb9 },
        usdc: Address { hi: 0xaf88_d065, lo: 0xe77c_8cc2_2393_27c5_edb3_a432_268e_5831 },
        weth: Address { hi: 0x82af_4944, lo: 0x7d8a_07e3_bd95_bd0d_56f3_5241_523f_bab1 },
        wbtc: Address { hi: 0x2f2a_2543, lo: 0xb76a_4166_549f_7aab_2e75_bef0_aefc_5b0f },
        dai: Address { hi: 0xda10_009c, lo: 0xbd5d_07dd_0cec_c661_61fc_93d7_c900_0da1 },
    }
}

/// The address book of a chain; Arbitrum One is the only chain known.
pub fn get_address_book_for_chain(chain_id: u64) -> (b: AddressBook)
    requires
        chain_id == arbitrum_chain_id(),
    ensures
        b == arbitrum_book(),
{
    arbitrum()
}

/// A chain the engine runs on: its id and its address book.
pub struct Blockchain {
    chain_id: u64,
    address_book: AddressBook,
}

impl Blockchain {
    pub closed spec fn id(&self) -> u64 {
        self.chain_id
    }

    pub closed spec fn book(&self) -> AddressBook {
        self.address_book
    }

    /// The chain of an id whose address book is known.
    pub fn new(chain_id: u64) -> (c: Blockchain)
        requires
            chain_id == arbitrum_chain_id(),
        ensures
            c.id() == chain_id,
            c.book() == arbitrum_book(),
    {
        Blockchain { chain_id, address_book: get_address_book_for_chain(chain_id) }
    }

    pub fn chain_id(&self) -> (id: u64)
        ensures
            id == self.id(),
    {
        self.chain_id
    }

    pub fn address_book(&self) -> (b: AddressBook)
        ensures
            b == self.book(),
    {
        self.address_book
    }
}

} // verus!
