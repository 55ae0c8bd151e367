use plutus::changes::StorageChanges;
use plutus::storage::StorageDecodable;
use plutus::token::{Address, ERC20};
use plutus::v3_pool::{check_storage, HealthError, PancakeSwapV3Pool, Slot0, TickInfo};
use plutus::word::U256;

fn alloy(x: U256) -> alloy_primitives::U256 {
    alloy_primitives::U256::from_limbs([x.l0, x.l1, x.l2, x.l3])
}

fn ours(x: alloy_primitives::U256) -> U256 {
    let l = x.into_limbs();
    U256 { l0: l[0], l1: l[1], l2: l[2], l3: l[3] }
}

fn q96() -> U256 {
    ours(alloy_primitives::U256::from(1) << 96)
}

// slot0's first word: price, tick (24-bit two's complement) and observation
// index 5; its second word: the protocol fee and the `unlocked` flag.
fn slot0_words(sqrt_price: alloy_primitives::U256, tick: i32, fee_protocol: u32) -> (U256, U256) {
    let tick_bits = alloy_primitives::U256::from((tick as u32) & 0xff_ffff);
    let first = sqrt_price + (tick_bits << 160) + (alloy_primitives::U256::from(5) << 184);
    let second = alloy_primitives::U256::from(fee_protocol) + (alloy_primitives::U256::from(1) << 32);
    (ours(first), ours(second))
}

fn pool(slot0: Slot0, words: (U256, U256)) -> PancakeSwapV3Pool {
    PancakeSwapV3Pool::new(
        Address::new(0xaa, 1),
        ERC20::new(Address::new(0x10, 0), "T0".to_string(), 18),
        ERC20::new(Address::new(0x20, 0), "T1".to_string(), 6),
        500,
        10,
        slot0,
        U256::from_u64(7),
        U256::from_u64(8),
        1_000_000,
        words,
    )
}

#[test]
fn slot0_decodes_from_its_two_slots() {
    let words = slot0_words(alloy(q96()), -100, 0x0A0B_0C0D);
    let mut bytes = alloy(words.0).to_le_bytes::<32>().to_vec();
    bytes.extend_from_slice(&alloy(words.1).to_le_bytes::<32>());
    let s = <Slot0 as StorageDecodable>::decode(bytes);
    assert_eq!(s, Slot0 { sqrt_price_x96: q96(), tick: -100, fee_protocol: 0x0A0B_0C0D });
}

#[test]
fn tick_info_decodes_gross_and_net_liquidity() {
    let mut bytes = vec![0u8; 128];
    bytes[0] = 0x10;
    for b in bytes[16..32].iter_mut() {
        *b = 0xff;
    }
    let t = <TickInfo as StorageDecodable>::decode(bytes);
    assert_eq!(t, TickInfo { liquidity_gross: 16, liquidity_net: -1 });
    let mut bytes = vec![0u8; 128];
    bytes[31] = 0x80;
    assert_eq!(<TickInfo as StorageDecodable>::decode(bytes).liquidity_net, i128::MIN);
}

#[test]
fn storage_changes_set_fields_cache_slots_and_refresh_slot0() {
    let old = Slot0 { sqrt_price_x96: q96(), tick: 0, fee_protocol: 0 };
    let mut p = pool(old, slot0_words(alloy(q96()), 0, 0));
    let new_price = alloy(q96()) * alloy_primitives::U256::from(2);
    let (first, _) = slot0_words(new_price, 6931, 0);
    let changes = StorageChanges::from_entries(&vec![
        (U256::from_u64(0), first),
        (U256::from_u64(2), U256::from_u64(70)),
        (U256::from_u64(3), U256::from_u64(80)),
        (U256::from_u64(5), U256::from_u64(12345)),
        (U256::from_u64(42), U256::from_u64(4242)),
    ]);
    p.apply_storage_changes(&changes);
    assert_eq!(p.slot0, Slot0 { sqrt_price_x96: ours(new_price), tick: 6931, fee_protocol: 0 });
    assert_eq!(p.fee_growth_global_0_x128, U256::from_u64(70));
    assert_eq!(p.fee_growth_global_1_x128, U256::from_u64(80));
    assert_eq!(p.liquidity, 12345);
    assert_eq!(p.storage.get_cached(U256::from_u64(42)), Some(U256::from_u64(4242)));
    assert_eq!(p.storage.get_cached(U256::from_u64(0)), Some(first));
    assert_eq!(p.storage.get_cached(U256::from_u64(2)), None);
    assert_eq!(p.storage.get_cached(U256::from_u64(5)), None);
}

#[test]
fn changes_outside_slot0_leave_it_alone() {
    let old = Slot0 { sqrt_price_x96: q96(), tick: 3, fee_protocol: 9 };
    let mut p = pool(old, slot0_words(alloy(q96()), 0, 0));
    p.apply_storage_changes(&StorageChanges::from_entries(&vec![(U256::from_u64(42), U256::from_u64(1))]));
    assert_eq!(p.slot0, old);
}

#[test]
fn health_check_reports_fields_in_order() {
    let s = Slot0 { sqrt_price_x96: q96(), tick: 3, fee_protocol: 9 };
    let p = pool(s, slot0_words(alloy(q96()), 3, 9));
    let fg0 = U256::from_u64(7);
    let fg1 = U256::from_u64(8);
    assert_eq!(p.check_state(s, fg0, fg1), Ok(()));
    let other_price = Slot0 { sqrt_price_x96: U256::from_u64(1), ..s };
    assert_eq!(p.check_state(other_price, fg0, fg1), Err(HealthError::SqrtPriceMismatch { chain: U256::from_u64(1), simulated: q96() }));
    assert_eq!(p.check_state(Slot0 { tick: 4, ..s }, U256::zero(), fg1), Err(HealthError::TickMismatch));
    assert_eq!(p.check_state(Slot0 { fee_protocol: 1, ..s }, fg0, fg1), Err(HealthError::FeeProtocolMismatch { chain: 1, simulated: 9 }));
    assert_eq!(p.check_state(s, U256::zero(), U256::zero()), Err(HealthError::FeeGrowth0Mismatch));
    assert_eq!(p.check_state(s, fg0, U256::zero()), Err(HealthError::FeeGrowth1Mismatch));
}

#[test]
fn health_check_compares_every_cached_slot_but_the_skipped_ones() {
    let s = Slot0 { sqrt_price_x96: q96(), tick: 0, fee_protocol: 0 };
    let words = slot0_words(alloy(q96()), 0, 0);
    let mut p = pool(s, words);
    p.storage.insert(U256::from_u64(3), U256::from_u64(1));
    p.storage.insert(U256::from_u64(5), U256::from_u64(1));
    p.storage.insert(U256::from_u64(77), U256::from_u64(770));
    let mut to_verify = p.storage_to_verify();
    to_verify.sort_by_key(|e| e.0.l0);
    assert_eq!(to_verify, vec![(U256::from_u64(1), words.1), (U256::from_u64(77), U256::from_u64(770))]);
    assert_eq!(check_storage(&to_verify, &vec![words.1, U256::from_u64(770)]), Ok(()));
    assert_eq!(
        check_storage(&to_verify, &vec![words.1, U256::from_u64(771)]),
        Err(HealthError::StorageMismatch { slot: U256::from_u64(77), chain: U256::from_u64(771), simulated: U256::from_u64(770) })
    );
    assert_eq!(
        check_storage(&to_verify, &vec![U256::zero(), U256::from_u64(771)]),
        Err(HealthError::StorageMismatch { slot: U256::from_u64(1), chain: U256::zero(), simulated: words.1 })
    );
}

#[test]
fn updating_from_chain_forgets_the_cached_slots() {
    let s = Slot0 { sqrt_price_x96: q96(), tick: 0, fee_protocol: 0 };
    let mut p = pool(s, slot0_words(alloy(q96()), 0, 0));
    let s2 = Slot0 { sqrt_price_x96: U256::from_u64(5), tick: -1, fee_protocol: 2 };
    p.update_state(s2, U256::from_u64(1), U256::from_u64(2), 3);
    assert_eq!(p.slot0, s2);
    assert_eq!(p.liquidity, 3);
    assert!(p.storage.entries().is_empty());
    assert_eq!(p.identifier(), "pancakeswap_v3");
}

#[test]
fn liquidity_is_valid_strictly_inside_the_price_range() {
    let low = Slot0 { sqrt_price_x96: U256::from_u64(4295128740), tick: 0, fee_protocol: 0 };
    assert!(!pool(low, (U256::zero(), U256::zero())).is_liquidity_valid());
    let above_low = Slot0 { sqrt_price_x96: U256::from_u64(4295128741), ..low };
    assert!(pool(above_low, (U256::zero(), U256::zero())).is_liquidity_valid());
    let mut empty = pool(above_low, (U256::zero(), U256::zero()));
    empty.liquidity = 0;
    assert!(!empty.is_liquidity_valid());
    let max_minus_one = ours(uniswap_v3_math::tick_math::MAX_SQRT_RATIO - alloy_primitives::U256::from(1));
    assert!(!pool(Slot0 { sqrt_price_x96: max_minus_one, ..low }, (U256::zero(), U256::zero())).is_liquidity_valid());
}

#[test]
fn a_cached_copy_of_a_field_slot_is_left_as_it_was() {
    let old = Slot0 { sqrt_price_x96: q96(), tick: 0, fee_protocol: 0 };
    let mut p = pool(old, slot0_words(alloy(q96()), 0, 0));
    p.storage.insert(U256::from_u64(2), U256::from_u64(1));
    let changes = StorageChanges::from_entries(&vec![(U256::from_u64(2), U256::from_u64(70)), (U256::from_u64(9), U256::from_u64(90))]);
    p.apply_storage_changes(&changes);
    assert_eq!(p.fee_growth_global_0_x128, U256::from_u64(70));
    assert_eq!(p.storage.get_cached(U256::from_u64(2)), Some(U256::from_u64(1)));
}

#[test]
fn applying_the_same_changes_twice_is_applying_them_once() {
    let old = Slot0 { sqrt_price_x96: q96(), tick: 0, fee_protocol: 0 };
    let mut p = pool(old, slot0_words(alloy(q96()), 0, 0));
    let (first, _) = slot0_words(alloy(q96()) * alloy_primitives::U256::from(2), 6931, 0);
    let changes = StorageChanges::from_entries(&vec![
        (U256::from_u64(0), first),
        (U256::from_u64(3), U256::from_u64(80)),
        (U256::from_u64(5), U256::from_u64(12345)),
        (U256::from_u64(42), U256::from_u64(4242)),
    ]);
    p.apply_storage_changes(&changes);
    let once = (p.slot0, p.fee_growth_global_0_x128, p.fee_growth_global_1_x128, p.liquidity, p.storage.get_cached(U256::from_u64(42)), p.storage.get_cached(U256::from_u64(0)));
    p.apply_storage_changes(&changes);
    let twice = (p.slot0, p.fee_growth_global_0_x128, p.fee_growth_global_1_x128, p.liquidity, p.storage.get_cached(U256::from_u64(42)), p.storage.get_cached(U256::from_u64(0)));
    assert_eq!(once, twice);
}
