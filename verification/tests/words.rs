use plutus::cache::KeyMap;
use plutus::evm::{EvmCall, StorageSlot};
use plutus::monitor::{HealthMonitor, StateMonitor};
use plutus::word::{I256, U256};

#[test]
fn words_compare_by_value() {
    let small = U256::from_u64(5);
    let big = U256 { l0: 0, l1: 0, l2: 1, l3: 0 };
    assert!(small.lt(&big) && !big.lt(&small));
    assert!(small.le(&small));
    assert!(small.eq_word(&U256::from_u128(5)));
    assert!(U256::zero().is_zero());
    assert!(!big.fits_u128());
    assert!(U256::from_u128(u128::MAX).fits_u128());
    assert_eq!(U256::from_u128(u128::MAX).to_u128(), u128::MAX);
}

#[test]
fn signed_words_read_their_sign_from_the_top_bit() {
    assert!(I256::from_raw(U256::from_u64(1)).is_positive());
    assert!(!I256::zero().is_positive());
    assert!(I256::zero().is_zero());
    let minus_one = I256::from_raw(U256 { l0: u64::MAX, l1: u64::MAX, l2: u64::MAX, l3: u64::MAX });
    assert!(!minus_one.is_positive());
}

#[test]
fn key_maps_keep_one_value_per_key() {
    let mut m: KeyMap<i32, u8> = KeyMap::new();
    m.insert(1, 10);
    m.insert(-1, 20);
    m.insert(1, 11);
    assert_eq!(m.get(&1), Some(11));
    assert_eq!(m.get(&-1), Some(20));
    assert_eq!(m.to_vec().len(), 2);
    m.remove(&1);
    assert_eq!(m.get(&1), None);
    m.clear();
    assert!(m.to_vec().is_empty());
}

#[test]
fn monitors_and_call_results_hold_what_they_were_given() {
    assert_eq!(*HealthMonitor::new(7u8).provider(), 7);
    assert_eq!(*StateMonitor::new("node").provider(), "node");
    let c = EvmCall::new(21000, (1u8, 2u8));
    assert_eq!((c.gas_used, c.output), (21000, (1, 2)));
    let s: StorageSlot<u8, 8> = StorageSlot::new(3);
    assert_eq!(*s.get(), 3);
    let mut expected = [0u8; 32];
    expected[31] = 8;
    assert_eq!(s.slot(), expected);
}
