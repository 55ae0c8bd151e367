use plutus::chain::{arbitrum, get_address_book_for_chain, Blockchain};
use plutus::fee::FeeAmount;
use plutus::protocols::ProtocolKind;
use plutus::registry::{best_value, discovery_plan, group_by_protocol, register_protocol, IdentifiedLiquidityPool, ProtocolType};
use plutus::tick_lens::TickLens;
use plutus::token::Address;
use plutus::word::U256;

#[test]
fn protocols_are_scanned_from_their_last_block_unless_past_the_target() {
    let last = vec![("uniswap_v2".to_string(), Some(100)), ("uniswap_v3".to_string(), None), ("pancakeswap_v2".to_string(), Some(500))];
    let plan = discovery_plan(&last, 200);
    assert_eq!(plan, vec![("uniswap_v2".to_string(), 100), ("uniswap_v3".to_string(), 0)]);
    assert_eq!(discovery_plan(&last, 500).len(), 3);
    assert!(discovery_plan(&vec![], 5).is_empty());
}

#[test]
fn records_group_by_protocol_in_order() {
    let r = |p: &str, a: u128| IdentifiedLiquidityPool { address: Address::new(0, a), protocol: p.to_string() };
    let records = vec![r("v3", 1), r("v2", 2), r("v3", 3), r("v2", 4), r("v3", 5)];
    let groups = group_by_protocol(&records);
    assert_eq!(groups.len(), 2);
    assert_eq!(groups[0].0, "v3");
    assert_eq!(groups[0].1, vec![Address::new(0, 1), Address::new(0, 3), Address::new(0, 5)]);
    assert_eq!(groups[1].0, "v2");
    assert_eq!(groups[1].1, vec![Address::new(0, 2), Address::new(0, 4)]);
    assert!(group_by_protocol(&vec![]).is_empty());
}

#[test]
fn the_value_of_a_token_is_its_best_quote() {
    assert_eq!(best_value(&vec![U256::from_u64(3), U256::from_u64(9), U256::from_u64(4)]), U256::from_u64(9));
    assert_eq!(best_value(&vec![]), U256::zero());
    let big = U256 { l0: 0, l1: 0, l2: 0, l3: 1 };
    assert_eq!(best_value(&vec![U256::from_u64(u64::MAX), big]), big);
}

#[test]
fn protocol_types_are_stored_as_integers() {
    assert_eq!(ProtocolType::from(0), ProtocolType::UniswapV2);
    assert_eq!(ProtocolType::from(1), ProtocolType::UniswapV3);
}

#[test]
fn fee_tiers_round_trip() {
    for f in FeeAmount::all() {
        assert_eq!(FeeAmount::from_repr(f.value()), Some(f));
    }
    let values: Vec<u32> = FeeAmount::all().iter().map(|f| f.value()).collect();
    assert_eq!(values, vec![100, 500, 3000, 10000]);
    assert_eq!(FeeAmount::from_repr(3001), None);
    assert_eq!(FeeAmount::Medium.name(), "Medium");
    assert!(FeeAmount::Low < FeeAmount::High);
}

#[test]
fn arbitrum_is_the_known_chain() {
    let book = get_address_book_for_chain(42161);
    assert_eq!(book, arbitrum());
    assert_eq!(book.usdc, Address::new(0xaf88_d065, 0xe77c_8cc2_2393_27c5_edb3_a432_268e_5831));
    let chain = Blockchain::new(42161);
    assert_eq!(chain.chain_id(), 42161);
    assert_eq!(chain.address_book().weth, Address::new(0x82af_4944, 0x7d8a_07e3_bd95_bd0d_56f3_5241_523f_bab1));
}

#[test]
fn factories_are_known_on_arbitrum_only() {
    assert_eq!(
        ProtocolKind::UniswapV3.factory_address(42161),
        Some(Address::new(0x1f98_431c, 0x8ad9_8523_631a_e4a5_9f26_7346_ea31_f984))
    );
    assert_eq!(ProtocolKind::UniswapV2.factory_address(1), None);
    assert_eq!(ProtocolKind::PancakeSwapV3.identifier(), Some("pancakeswap_v3"));
    assert_eq!(ProtocolKind::SushiSwapV2.identifier(), None);
    assert_eq!(TickLens::deployment_address(), Address::new(0xbfd8_137f, 0x7d15_16d3_ea5c_a835_2391_4859_ec47_f573));
}

#[test]
fn registering_a_protocol_again_replaces_its_entry() {
    let a = Address::new(0, 1);
    let b = Address::new(0, 2);
    let c = Address::new(0, 3);
    let mut protocols = Vec::new();
    register_protocol(&mut protocols, ProtocolKind::UniswapV2, a);
    register_protocol(&mut protocols, ProtocolKind::PancakeSwapV3, b);
    assert_eq!(protocols, vec![(ProtocolKind::UniswapV2, a), (ProtocolKind::PancakeSwapV3, b)]);
    register_protocol(&mut protocols, ProtocolKind::UniswapV2, c);
    assert_eq!(protocols, vec![(ProtocolKind::UniswapV2, c), (ProtocolKind::PancakeSwapV3, b)]);
}
