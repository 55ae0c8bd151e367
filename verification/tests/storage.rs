use plutus::bytes::read_le;
use plutus::changes::StorageChanges;
use plutus::storage::{word_from_halves, words_to_le_bytes, SmartContractStorage, SolidityMapping};
use plutus::token::Address;
use plutus::v3_pool::TickInfo;
use plutus::word::U256;

fn alloy(x: U256) -> alloy_primitives::U256 {
    alloy_primitives::U256::from_limbs([x.l0, x.l1, x.l2, x.l3])
}

fn ours(x: alloy_primitives::U256) -> U256 {
    let l = x.into_limbs();
    U256 { l0: l[0], l1: l[1], l2: l[2], l3: l[3] }
}

fn mapping_slot(key: alloy_primitives::U256, slot: u64) -> U256 {
    let mut data = key.to_be_bytes::<32>().to_vec();
    data.extend_from_slice(&alloy_primitives::U256::from(slot).to_be_bytes::<32>());
    ours(alloy_primitives::U256::from_be_bytes(alloy_primitives::keccak256(&data).0))
}

#[test]
fn storage_cache_gives_back_what_was_written() {
    let mut s = SmartContractStorage::new(Address::new(1, 2));
    assert!(s.get_cached(U256::from_u64(3)).is_none());
    s.insert(U256::from_u64(3), U256::from_u64(30));
    s.insert(U256::from_u64(4), U256::from_u64(40));
    s.insert(U256::from_u64(3), U256::from_u64(31));
    assert_eq!(s.get_cached(U256::from_u64(3)), Some(U256::from_u64(31)));
    assert_eq!(s.get_cached(U256::from_u64(4)), Some(U256::from_u64(40)));
    let mut entries = s.entries();
    entries.sort_by_key(|e| e.0.l0);
    assert_eq!(entries, vec![(U256::from_u64(3), U256::from_u64(31)), (U256::from_u64(4), U256::from_u64(40))]);
    s.clear();
    assert!(s.get_cached(U256::from_u64(4)).is_none());
    assert!(s.entries().is_empty());
}

#[test]
fn consecutive_slots_need_every_slot_cached() {
    let mut s = SmartContractStorage::new(Address::zero());
    s.insert(U256::from_u64(10), U256::from_u64(1));
    s.insert(U256::from_u64(12), U256::from_u64(3));
    assert!(s.get_consecutive_cached(U256::from_u64(10), 3).is_none());
    s.insert(U256::from_u64(11), U256::from_u64(2));
    assert_eq!(s.get_consecutive_cached(U256::from_u64(10), 3), Some(vec![U256::from_u64(1), U256::from_u64(2), U256::from_u64(3)]));
    assert_eq!(s.get_consecutive_cached(U256::from_u64(99), 0), Some(vec![]));
}

#[test]
fn consecutive_slots_wrap_at_the_top_of_the_word() {
    let top = U256 { l0: u64::MAX, l1: u64::MAX, l2: u64::MAX, l3: u64::MAX };
    let slots = SmartContractStorage::consecutive_slots(top, 3);
    assert_eq!(slots, vec![top, U256::from_u64(0), U256::from_u64(1)]);
}

#[test]
fn fetched_values_fill_the_cache() {
    let mut s = SmartContractStorage::new(Address::zero());
    s.insert_many(&vec![U256::from_u64(1), U256::from_u64(2), U256::from_u64(1)], &vec![U256::from_u64(5), U256::from_u64(6), U256::from_u64(7)]);
    assert_eq!(s.get_cached(U256::from_u64(1)), Some(U256::from_u64(7)));
    assert_eq!(s.get_cached(U256::from_u64(2)), Some(U256::from_u64(6)));
}

#[test]
fn mapping_slots_are_keccak_of_key_and_slot() {
    let m: SolidityMapping<i16, U256, 7, 1> = SolidityMapping::new();
    assert_eq!(m.get_value_storage_slot(&3), mapping_slot(alloy_primitives::U256::from(3), 7));
    // A negative key hashes as its 256-bit two's complement.
    let minus_two = alloy_primitives::U256::MAX - alloy_primitives::U256::from(1);
    assert_eq!(m.get_value_storage_slot(&-2), mapping_slot(minus_two, 7));
    let t: SolidityMapping<i32, TickInfo, 6, 4> = SolidityMapping::new();
    let minus_887272 = alloy_primitives::U256::MAX - alloy_primitives::U256::from(887271);
    assert_eq!(t.get_value_storage_slot(&-887272), mapping_slot(minus_887272, 6));
}

#[test]
fn mapping_reads_decode_cached_slots_and_keep_them() {
    let mut storage = SmartContractStorage::new(Address::zero());
    let mut m: SolidityMapping<i16, U256, 7, 1> = SolidityMapping::new();
    assert!(m.get(&storage, &5).is_none());
    let slot = m.get_value_storage_slot(&5);
    storage.insert(slot, U256::from_u64(0xabcd));
    assert_eq!(m.get(&storage, &5), Some(U256::from_u64(0xabcd)));
    // The value read stays until its slot is invalidated.
    storage.clear();
    assert_eq!(m.get_cached(&5), Some(U256::from_u64(0xabcd)));
    assert_eq!(m.get(&storage, &5), Some(U256::from_u64(0xabcd)));
    m.invalidate(U256::from_u64(1));
    assert_eq!(m.get_cached(&5), Some(U256::from_u64(0xabcd)));
    m.invalidate(slot);
    assert!(m.get_cached(&5).is_none());
    assert!(m.get(&storage, &5).is_none());
}

#[test]
fn tick_values_span_four_slots() {
    let mut storage = SmartContractStorage::new(Address::zero());
    let mut ticks: SolidityMapping<i32, TickInfo, 6, 4> = SolidityMapping::new();
    let base = ticks.fetch_plan(&vec![-60])[0];
    assert_eq!(base, ticks.get_value_storage_slot(&-60));
    let slots = SmartContractStorage::consecutive_slots(base, 4);
    // gross = 1000 in the low half of the first slot, net = -250 in the high half.
    let net = alloy_primitives::U256::from(u128::MAX - 249) << 128;
    let first = ours(net + alloy_primitives::U256::from(1000));
    storage.insert_many(&slots, &vec![first, U256::from_u64(9), U256::from_u64(9), U256::from_u64(9)]);
    let info = ticks.get(&storage, &-60).unwrap();
    assert_eq!(info, TickInfo { liquidity_gross: 1000, liquidity_net: -250 });
    ticks.invalidate_many(&vec![slots[3]]);
    assert!(ticks.get_cached(&-60).is_none());
}

#[test]
fn little_endian_reads_and_layouts() {
    let bytes = vec![0x01, 0x02, 0x03, 0x04, 0x05];
    assert_eq!(read_le(&bytes, 1, 3), 0x040302);
    assert_eq!(read_le(&bytes, 0, 0), 0);
    let w = word_from_halves(1, 2);
    assert_eq!(alloy(w), (alloy_primitives::U256::from(2) << 128) + alloy_primitives::U256::from(1));
    let laid = words_to_le_bytes(&vec![U256::from_u64(0x0102), w]);
    assert_eq!(laid.len(), 64);
    assert_eq!(&laid[0..3], &[0x02, 0x01, 0x00]);
    assert_eq!(laid[32], 1);
    assert_eq!(laid[48], 2);
}

#[test]
fn storage_changes_hold_the_last_value_of_each_slot() {
    let c = StorageChanges::from_entries(&vec![(U256::from_u64(1), U256::from_u64(10)), (U256::from_u64(2), U256::from_u64(20)), (U256::from_u64(1), U256::from_u64(11))]);
    assert_eq!(c.get(U256::from_u64(1)), Some(U256::from_u64(11)));
    assert_eq!(c.get(U256::from_u64(3)), None);
    let mut e = c.entries();
    e.sort_by_key(|x| x.0.l0);
    assert_eq!(e, vec![(U256::from_u64(1), U256::from_u64(11)), (U256::from_u64(2), U256::from_u64(20))]);
}

#[test]
fn invalidating_any_slot_of_a_value_forgets_only_that_value() {
    let mut ticks: SolidityMapping<i32, TickInfo, 6, 4> = SolidityMapping::new();
    let a = TickInfo { liquidity_gross: 5, liquidity_net: -5 };
    let b = TickInfo { liquidity_gross: 9, liquidity_net: 9 };
    ticks.insert(-60, a);
    ticks.insert(120, b);
    let base = ticks.get_value_storage_slot(&-60);
    let third = plutus::storage::SmartContractStorage::consecutive_slots(base, 4)[2];
    ticks.invalidate(third);
    assert_eq!(ticks.get_cached(&-60), None);
    assert_eq!(ticks.get_cached(&120), Some(b));
    // A slot no value was read from changes nothing.
    ticks.invalidate(U256::from_u64(12345));
    assert_eq!(ticks.get_cached(&120), Some(b));
}

#[test]
fn consecutive_slots_wrap_past_the_last_slot() {
    let last = U256 { l0: u64::MAX, l1: u64::MAX, l2: u64::MAX, l3: u64::MAX };
    let slots = SmartContractStorage::consecutive_slots(last, 3);
    assert_eq!(slots, vec![last, U256::from_u64(0), U256::from_u64(1)]);
    let carry = U256 { l0: u64::MAX, l1: 0, l2: u64::MAX, l3: 0 };
    assert_eq!(SmartContractStorage::consecutive_slots(carry, 2)[1], U256 { l0: 0, l1: 1, l2: u64::MAX, l3: 0 });
}
