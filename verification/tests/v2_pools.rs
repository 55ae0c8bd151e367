use plutus::changes::StorageChanges;
use plutus::token::{Address, ERC20};
use plutus::v2_pool::{swap_is_defined, PancakeSwapV2Pool, ReserveMismatch, Reserves, SushiSwapV2Pool, UniswapV2Pool};
use plutus::word::U256;

fn token(hi: u32, symbol: &str) -> ERC20 {
    ERC20::new(Address::new(hi, 7), symbol.to_string(), 18)
}

fn pair(reserve0: u128, reserve1: u128) -> UniswapV2Pool {
    UniswapV2Pool::new(Address::new(1, 2), token(10, "AAA"), token(20, "BBB"), Reserves { reserve0, reserve1 })
}

fn value(x: U256) -> u128 {
    assert!(x.l2 == 0 && x.l3 == 0);
    (x.l1 as u128) << 64 | x.l0 as u128
}

#[test]
fn uniswap_v2_swap_exact_values() {
    let out = UniswapV2Pool::swap(U256::from_u64(1000), U256::from_u64(100_000), U256::from_u64(200_000));
    assert_eq!(value(out), 1974);
    let out = UniswapV2Pool::swap(U256::from_u64(1000), U256::from_u64(200_000), U256::from_u64(100_000));
    assert_eq!(value(out), 496);
    let out = UniswapV2Pool::swap(
        U256::from_u128(1_000_000_000_000_000_000),
        U256::from_u128(5_000_000_000_000_000_000_000),
        U256::from_u128(10_000_000_000_000_000_000_000),
    );
    assert_eq!(value(out), 1_993_602_475_666_352_129);
}

#[test]
fn uniswap_v2_swap_of_zero_or_against_empty_reserves_gives_zero() {
    assert!(UniswapV2Pool::swap(U256::from_u64(0), U256::from_u64(10), U256::from_u64(10)).is_zero());
    assert!(UniswapV2Pool::swap(U256::from_u64(5), U256::from_u64(0), U256::from_u64(10)).is_zero());
    assert!(UniswapV2Pool::swap(U256::from_u64(5), U256::from_u64(10), U256::from_u64(0)).is_zero());
}

#[test]
fn simulate_swap_reads_reserves_in_the_swap_direction() {
    let p = pair(100_000, 200_000);
    let t0 = p.token0.address;
    let t1 = p.token1.address;
    assert_eq!(value(p.simulate_swap(t0, U256::from_u64(1000))), 1974);
    assert_eq!(value(p.simulate_swap(t1, U256::from_u64(1000))), 496);
}

#[test]
fn pancake_pairs_keep_a_quarter_percent_and_sushi_pairs_three_tenths() {
    let p = PancakeSwapV2Pool(pair(100_000, 200_000));
    let s = SushiSwapV2Pool(pair(100_000, 200_000));
    let t0 = p.0.token0.address;
    assert_eq!(value(p.simulate_swap(t0, U256::from_u64(1000))), 1975);
    assert_eq!(value(s.simulate_swap(t0, U256::from_u64(1000))), 1974);
    let big = PancakeSwapV2Pool(pair(5_000_000_000_000_000_000_000, 10_000_000_000_000_000_000_000));
    assert_eq!(value(big.simulate_swap(t0, U256::from_u128(1_000_000_000_000_000_000))), 1_994_602_076_885_661_310);
    assert_eq!(p.identifier(), "pancakeswap_v2");
    assert_eq!(s.identifier(), "pancakeswap_v2");
    assert_eq!(p.0.identifier(), "uniswap_v2");
}

#[test]
fn amount_out_stays_below_the_reserve_out() {
    for (a, ri, ro) in [(1u128, 1u128, 1u128), (u64::MAX as u128, 3, 1000), (1 << 100, 1 << 20, 12345)] {
        let out = value(UniswapV2Pool::swap(U256::from_u128(a), U256::from_u128(ri), U256::from_u128(ro)));
        assert!(out < ro);
    }
}

#[test]
fn constant_product_does_not_decrease_after_a_swap() {
    let (a, ri, ro) = (1_000u128, 100_000u128, 200_000u128);
    let out = value(UniswapV2Pool::swap(U256::from_u128(a), U256::from_u128(ri), U256::from_u128(ro)));
    assert!((ri + a) * (ro - out) >= ri * ro);
}

#[test]
fn reserves_decode_from_the_packed_slot() {
    let slot = U256 { l0: 123456789, l1: 7543810850822291456, l2: 15070, l3: 7301444403200000000 };
    let r = Reserves::from_storage_value(slot);
    assert_eq!(r.reserve0, 123456789);
    assert_eq!(r.reserve1, 987654321);
}

#[test]
fn storage_changes_of_the_reserves_slot_replace_the_reserves() {
    let mut p = pair(1, 2);
    let slot = U256 { l0: 123456789, l1: 7543810850822291456, l2: 15070, l3: 7301444403200000000 };
    let unrelated = StorageChanges::from_entries(&vec![(U256::from_u64(9), U256::from_u64(1))]);
    p.apply_storage_changes(&unrelated);
    assert_eq!((p.reserves.reserve0, p.reserves.reserve1), (1, 2));
    let changes = StorageChanges::from_entries(&vec![(U256::from_u64(8), slot)]);
    p.apply_storage_changes(&changes);
    assert_eq!((p.reserves.reserve0, p.reserves.reserve1), (123456789, 987654321));
}

#[test]
fn verify_reserves_reports_the_first_mismatch() {
    let p = pair(10, 20);
    assert_eq!(p.verify_reserves(10, 20), Ok(true));
    assert_eq!(p.verify_reserves(11, 20), Err(ReserveMismatch::Reserve0 { real: 11, local: 10 }));
    assert_eq!(p.verify_reserves(11, 21), Err(ReserveMismatch::Reserve0 { real: 11, local: 10 }));
    assert_eq!(p.verify_reserves(10, 21), Err(ReserveMismatch::Reserve1 { real: 21, local: 20 }));
}

#[test]
fn liquidity_needs_both_reserves() {
    assert!(pair(1, 1).is_liquidity_valid());
    assert!(!pair(0, 1).is_liquidity_valid());
    assert!(!pair(1, 0).is_liquidity_valid());
    let mut p = pair(0, 0);
    p.update_reserves(5, 6);
    assert!(p.is_liquidity_valid());
    let (a, b) = p.tokens_locked();
    assert_eq!((value(a), value(b)), (5, 6));
}

#[test]
fn a_denominator_that_wraps_to_zero_makes_the_swap_undefined() {
    // 997 * amount + 1000 * 1 is a multiple of 2^256.
    let amount = U256 { l0: 1535686818573613624, l1: 17891676548923908137, l2: 3089875887973415365, l3: 5550675247856434789 };
    assert!(!swap_is_defined(amount, U256::from_u64(1), U256::from_u64(1), 997, 1000));
    assert!(swap_is_defined(amount, U256::from_u64(2), U256::from_u64(1), 997, 1000));
    assert!(swap_is_defined(U256::zero(), U256::zero(), U256::zero(), 997, 1000));
    assert!(swap_is_defined(U256::from_u64(1000), U256::from_u64(100_000), U256::from_u64(200_000), 997, 1000));
}

#[test]
fn more_in_never_gives_less_out() {
    let (ri, ro) = (U256::from_u64(100_000), U256::from_u64(200_000));
    let mut last = 0;
    for a in [0u64, 1, 2, 50, 51, 1000, 1001, 99_999, 100_000, 10_000_000] {
        let out = value(UniswapV2Pool::swap(U256::from_u64(a), ri, ro));
        assert!(last <= out && out < 200_000);
        last = out;
    }
}

#[test]
fn applying_the_blocks_diff_keeps_the_pair_healthy() {
    // In step with the chain before the block.
    let mut p = pair(123456789, 987654321);
    let slot_after = U256 { l0: 500, l1: 7 << 48, l2: 0, l3: 0 };
    let real_after = (500u128, 7u128);
    p.apply_storage_changes(&StorageChanges::from_entries(&vec![(U256::from_u64(8), slot_after)]));
    assert_eq!(p.verify_reserves(real_after.0, real_after.1), Ok(true));
    // A block that does not touch the slot keeps the reserves.
    p.apply_storage_changes(&StorageChanges::from_entries(&vec![]));
    assert_eq!(p.verify_reserves(real_after.0, real_after.1), Ok(true));
}
