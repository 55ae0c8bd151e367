//! The exchange protocols the engine reads pools from: their identifiers
//! and the factory contract each has on a chain.

use crate::token::Address;
use vstd::prelude::*;

verus! {

/// An exchange protocol whose factory the engine knows.
#[derive(Clone, Copy, PartialEq, Eq, Structural, Debug)]
pub enum ProtocolKind {
    UniswapV2,
    UniswapV3,
    PancakeSwapV2,
    PancakeSwapV3,
    SushiSwapV2,
    SushiSwapV3,
}

/// The factory of a protocol on Arbitrum One.
pub open spec fn arbitrum_factory(kind: ProtocolKind) -> Address {
    match kind {
        ProtocolKind::UniswapV2 => Address { hi: 0xf1d7_cc64, lo: 0xfb44_52f0_5c49_8126_312e_be29_f30f_bcf9 },
        ProtocolKind::UniswapV3 => Address { hi: 0x1f98_431c, lo: 0x8ad9_8523_631a_e4a5_9f26_7346_ea31_f984 },
        ProtocolKind::PancakeSwapV2 => Address { hi: 0x02a8_4c1b, lo: 0x3bbd_7401_a5f7_fa98_a384_ebc7_0bb5_749e },
        ProtocolKind::PancakeSwapV3 => Address { hi: 0x0bfb_cf9f, lo: 0xa4f9_c56b_0f40_a671_ad40_e080_5a09_1865 },
        ProtocolKind::SushiSwapV2 => Address { hi: 0xc35d_adb6, lo: 0x5012_ec57_9653_6bd9_864e_d877_3abc_74c4 },
        ProtocolKind::SushiSwapV3 => Address { hi: 0x1af4_15a1, lo: 0xeba0_7a49_86a5_2b6f_2e7d_e700_3d82_231e },
    }
}

impl ProtocolKind {
    /// The factory of the protocol on a chain, if it has one there; only
    /// Arbitrum One's are known.
    pub fn factory_address(&self, chain_id: u64) -> (r: Option<Address>)
        ensures
            r is Some <==> chain_id == 42161,
            r matches Some(a) ==> a == arbitrum_factory(*self),
    {
        if chain_id != 42161 {
            return None;
        }
        let a = match self {
            ProtocolKind::UniswapV2 => Address { hi: 0xf1d7_cc64, lo: 0xfb44_52f0_5c49_8126_312e_be29_f30f_bcf9 },
            ProtocolKind::UniswapV3 => Address { hi: 0x1f98_431c, lo: 0x8ad9_8523_631a_e4a5_9f26_7346_ea31_f984 },
            ProtocolKind::PancakeSwapV2 => Address { hi: 0x02a8_4c1b, lo: 0x3bbd_7401_a5f7_fa98_a384_ebc7_0bb5_749e },
            ProtocolKind::PancakeSwapV3 => Address { hi: 0x0bfb_cf9f, lo: 0xa4f9_c56b_0f40_a671_ad40_e080_5a09_1865 },
            ProtocolKind::SushiSwapV2 => Address { hi: 0xc35d_adb6, lo: 0x5012_ec57_9653_6bd9_864e_d877_3abc_74c4 },
            ProtocolKind::SushiSwapV3 => Address { hi: 0x1af4_15a1, lo: 0xeba0_7a49_86a5_2b6f_2e7d_e700_3d82_231e },
        };
        Some(a)
    }

    /// The identifier under which the protocol's pools are stored; the
    /// SushiSwap factories are known, but no SushiSwap protocol is
    /// registered.
    pub fn identifier(&self) -> (s: Option<&'static str>)
        ensures
            *self == ProtocolKind::UniswapV2 ==> (s matches Some(i) && i@ == "uniswap_v2"@),
            *self == ProtocolKind::UniswapV3 ==> (s matches Some(i) && i@ == "uniswap_v3"@),
            *self == ProtocolKind::PancakeSwapV2 ==> (s matches Some(i) && i@ == "pancakeswap_v2"@),
            *self == ProtocolKind::PancakeSwapV3 ==> (s matches Some(i) && i@ == "pancakeswap_v3"@),
            *self == ProtocolKind::SushiSwapV2 || *self == ProtocolKind::SushiSwapV3 ==> s is None,
    {
        match self {
            ProtocolKind::UniswapV2 => Some("uniswap_v2"),
            ProtocolKind::UniswapV3 => Some("uniswap_v3"),
            ProtocolKind::PancakeSwapV2 => Some("pancakeswap_v2"),
            ProtocolKind::PancakeSwapV3 => Some("pancakeswap_v3"),
            ProtocolKind::SushiSwapV2 => None,
            ProtocolKind::SushiSwapV3 => None,
        }
    }
}

} // verus!
