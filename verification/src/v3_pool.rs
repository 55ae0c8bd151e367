//! PancakeSwap V3 pools: the pool state kept between blocks, the decoding of
//! its packed storage slots, and the swap simulation as a state machine
//! whose storage reads the caller performs.

use crate::bytes::{le_value, read_le, lemma_le_value_split, pow256};
use crate::changes::{changes_contents, StorageChanges};
use crate::storage::{values_bytes, words_to_le_bytes, SmartContractStorage, SolidityMapping, StorageDecodable};
use crate::cache::{entries_map, keys_distinct, lemma_entries_map_keys, lemma_entries_map_value};
use crate::token::{Address, ERC20};
use crate::word::{lemma_word_of, word_of, U256};
use vstd::prelude::*;

verus! {

/// A 24-bit two's complement number.
pub open spec fn signed_24(v: nat) -> int {
    if v >= 0x80_0000 {
        v - 0x100_0000
    } else {
        v as int
    }
}

/// A 128-bit two's complement number.
pub open spec fn signed_128(v: nat) -> int {
    if v >= 0x8000_0000_0000_0000_0000_0000_0000_0000 {
        v - 0x1_0000_0000_0000_0000_0000_0000_0000_0000
    } else {
        v as int
    }
}

/// The fields of a pool's `slot0` that the engine keeps.
#[derive(Clone, Copy, PartialEq, Eq, Structural, Debug)]
pub struct Slot0 {
    pub sqrt_price_x96: U256,
    pub tick: i32,
    pub fee_protocol: u32,
}

/// The first slot of a tick's record: its gross and net liquidity.
#[derive(Clone, Copy, PartialEq, Eq, Structural, Debug)]
pub struct TickInfo {
    pub liquidity_gross: u128,
    pub liquidity_net: i128,
}

/// Reads a 24-bit two's complement field.
fn read_i24(bytes: &Vec<u8>, start: usize) -> (t: i32)
    requires
        start + 3 <= bytes@.len(),
    ensures
        t == signed_24(le_value(bytes@.subrange(start as int, start + 3))),
        -0x80_0000 <= t < 0x80_0000,
{
    let v = read_le(bytes, start, 3);
    proof {
        crate::bytes::lemma_le_value_bound(bytes@.subrange(start as int, start + 3));
        reveal_with_fuel(pow256, 4);
    }
    if v >= 0x80_0000 {
        (v as i32) - 0x100_0000
    } else {
        v as i32
    }
}

impl StorageDecodable for Slot0 {
    open spec fn decodable(bytes: Seq<u8>) -> bool {
        bytes.len() >= 36
    }

    /// Layout over the two slots: the square-root price in bytes 0..20, the
    /// tick in 20..23, three 16-bit observation fields and three bytes of
    /// padding, then the protocol fee in bytes 32..36.
    open spec fn decoded(bytes: Seq<u8>) -> Slot0 {
        Slot0 {
            sqrt_price_x96: word_of(le_value(bytes.subrange(0, 20))),
            tick: signed_24(le_value(bytes.subrange(20, 23))) as i32,
            fee_protocol: le_value(bytes.subrange(32, 36)) as u32,
        }
    }

    fn decode(bytes: Vec<u8>) -> (r: Slot0) {
        let lo = read_le(&bytes, 0, 16);
        let hi = read_le(&bytes, 16, 4);
        let tick = read_i24(&bytes, 20);
        let fee = read_le(&bytes, 32, 4);
        proof {
            assert(bytes@.len() >= 36);
            let s = bytes@.subrange(0, 20);
            assert(s.len() == 20);
            assert(s.subrange(16, s.len() as int) =~= bytes@.subrange(16, 20));
            lemma_le_value_split(s, 16);
            assert(s.subrange(0, 16) =~= bytes@.subrange(0, 16));
            assert(s.subrange(16, 20) =~= bytes@.subrange(16, 20));
            reveal_with_fuel(pow256, 17);
            crate::bytes::lemma_le_value_bound(bytes@.subrange(32, 36));
            crate::bytes::lemma_le_value_bound(bytes@.subrange(16, 20));
        }
        let sqrt = crate::storage::word_from_halves(lo, hi);
        proof {
            lemma_word_of(sqrt, 0);
            assert(pow256(16) == 0x1_0000_0000_0000_0000_0000_0000_0000_0000);
            let s = bytes@.subrange(0, 20);
            assert(le_value(s.subrange(0, 16)) == lo);
            assert(le_value(s.subrange(16, s.len() as int)) == hi);
            assert(le_value(s) == lo + pow256(16) * hi);
            assert(le_value(bytes@.subrange(0, 20)) == sqrt@);
            assert(pow256(4) == 0x1_0000_0000);
            assert(tick == signed_24(le_value(bytes@.subrange(20, 23))) as i32);
        }
        Slot0 { sqrt_price_x96: sqrt, tick, fee_protocol: fee as u32 }
    }
}

impl StorageDecodable for TickInfo {
    open spec fn decodable(bytes: Seq<u8>) -> bool {
        bytes.len() >= 32
    }

    /// The gross liquidity in the low 16 bytes of the first slot, the net
    /// liquidity in the high 16.
    open spec fn decoded(bytes: Seq<u8>) -> TickInfo {
        TickInfo {
            liquidity_gross: le_value(bytes.subrange(0, 16)) as u128,
            liquidity_net: signed_128(le_value(bytes.subrange(16, 32))) as i128,
        }
    }

    fn decode(bytes: Vec<u8>) -> (r: TickInfo) {
        let gross = read_le(&bytes, 0, 16);
        let net = read_le(&bytes, 16, 16);
        let net_signed: i128 = if net < 0x8000_0000_0000_0000_0000_0000_0000_0000 {
            net as i128
        } else if net == 0x8000_0000_0000_0000_0000_0000_0000_0000 {
            i128::MIN
        } else {
            -((0xFFFF_FFFF_FFFF_FFFF_FFFF_FFFF_FFFF_FFFF - net + 1) as i128)
        };
        TickInfo { liquidity_gross: gross, liquidity_net: net_signed }
    }
}

/// How a pool's state differs from the chain's, as its health check finds
/// it: the first field, or the first cached slot, that differs.
#[derive(Clone, Copy, PartialEq, Eq, Structural, Debug)]
pub enum HealthError {
    SqrtPriceMismatch { chain: U256, simulated: U256 },
    TickMismatch,
    FeeProtocolMismatch { chain: u32, simulated: u32 },
    FeeGrowth0Mismatch,
    FeeGrowth1Mismatch,
    StorageMismatch { slot: U256, chain: U256, simulated: U256 },
}

/// The first of a pool's fields that differs from the chain's state, in the
/// order the health check compares them: price, tick, protocol fee, the two
/// fee growths.
pub open spec fn state_check(pool: PancakeSwapV3Pool, chain_slot0: Slot0, chain_fee_growth_0: U256, chain_fee_growth_1: U256) -> Result<(), HealthError> {
    if chain_slot0.sqrt_price_x96 != pool.slot0.sqrt_price_x96 {
        Err(HealthError::SqrtPriceMismatch { chain: chain_slot0.sqrt_price_x96, simulated: pool.slot0.sqrt_price_x96 })
    } else if chain_slot0.tick != pool.slot0.tick {
        Err(HealthError::TickMismatch)
    } else if chain_slot0.fee_protocol != pool.slot0.fee_protocol {
        Err(HealthError::FeeProtocolMismatch { chain: chain_slot0.fee_protocol, simulated: pool.slot0.fee_protocol })
    } else if chain_fee_growth_0 != pool.fee_growth_global_0_x128 {
        Err(HealthError::FeeGrowth0Mismatch)
    } else if chain_fee_growth_1 != pool.fee_growth_global_1_x128 {
        Err(HealthError::FeeGrowth1Mismatch)
    } else {
        Ok(())
    }
}

/// What applying a block's storage changes does to a pool: the global fee
/// growths and the liquidity take the values of their slots, every other
/// changed slot is written to the storage cache (a cached copy of a field's
/// slot is left as it was), `slot0` is decoded again from its two slots when
/// either changed, and nothing else moves.
pub open spec fn storage_changes_applied(before: PancakeSwapV3Pool, after: PancakeSwapV3Pool, changes: Map<nat, nat>) -> bool {
    &&& forall|w: U256| #[trigger] after.storage.slots().contains_key(w) <==> (before.storage.slots().contains_key(w) || (changes.contains_key(w@) && !is_field_slot(w@)))
    &&& forall|w: U256| changes.contains_key(w@) && !is_field_slot(w@) ==> #[trigger] after.storage.slots()[w]@ == changes[w@]
    &&& forall|w: U256| before.storage.slots().contains_key(w) && (!changes.contains_key(w@) || is_field_slot(w@)) ==> #[trigger] after.storage.slots()[w] == before.storage.slots()[w]
    &&& after.fee_growth_global_0_x128@ == if changes.contains_key(2) { changes[2] } else { before.fee_growth_global_0_x128@ }
    &&& after.fee_growth_global_1_x128@ == if changes.contains_key(3) { changes[3] } else { before.fee_growth_global_1_x128@ }
    &&& after.liquidity == if changes.contains_key(5) { changes[5] } else { before.liquidity as nat }
    &&& after.slot0 == if changes.contains_key(0) || changes.contains_key(1) { Slot0::decoded(values_bytes(seq![after.storage.slots()[word_of(0)], after.storage.slots()[word_of(1)]])) } else { before.slot0 }
    &&& after.address == before.address
    &&& after.token0 == before.token0
    &&& after.token1 == before.token1
    &&& after.fee == before.fee
    &&& after.tick_spacing == before.tick_spacing
    &&& after.ticks == before.ticks
    &&& after.tick_bitmap == before.tick_bitmap
    &&& after.storage.address == before.storage.address
}

/// Applying the same storage changes a second time changes nothing more:
/// the pool's state and its cached slots are those after the first time.
pub proof fn law_storage_changes_apply_once(p0: PancakeSwapV3Pool, p1: PancakeSwapV3Pool, p2: PancakeSwapV3Pool, changes: Map<nat, nat>)
    requires
        storage_changes_applied(p0, p1, changes),
        storage_changes_applied(p1, p2, changes),
    ensures
        p2.storage.slots() == p1.storage.slots(),
        p2.slot0 == p1.slot0,
        p2.fee_growth_global_0_x128 == p1.fee_growth_global_0_x128,
        p2.fee_growth_global_1_x128 == p1.fee_growth_global_1_x128,
        p2.liquidity == p1.liquidity,
{
    assert forall|w: U256| #[trigger] p2.storage.slots().contains_key(w) implies p1.storage.slots().contains_key(w) && p2.storage.slots()[w] == p1.storage.slots()[w] by {
        if changes.contains_key(w@) && !is_field_slot(w@) {
            crate::word::lemma_word_order(p2.storage.slots()[w], p1.storage.slots()[w]);
        }
    }
    assert(p2.storage.slots() =~= p1.storage.slots());
    crate::word::lemma_word_order(p2.fee_growth_global_0_x128, p1.fee_growth_global_0_x128);
    crate::word::lemma_word_order(p2.fee_growth_global_1_x128, p1.fee_growth_global_1_x128);
}

/// A pool whose state was just read from the chain passes the health check
/// against that state, and a pool passes only against its own state.
pub proof fn law_health_check_compares_exactly(pool: PancakeSwapV3Pool, chain_slot0: Slot0, chain_fee_growth_0: U256, chain_fee_growth_1: U256)
    ensures
        state_check(pool, chain_slot0, chain_fee_growth_0, chain_fee_growth_1) is Ok <==> (chain_slot0 == pool.slot0
            && chain_fee_growth_0 == pool.fee_growth_global_0_x128 && chain_fee_growth_1 == pool.fee_growth_global_1_x128),
{
}

/// The cached slots pass the storage check exactly when the chain holds
/// the same values.
pub proof fn law_storage_check_compares_exactly(expected: Seq<(U256, U256)>, chain: Seq<U256>)
    requires
        expected.len() == chain.len(),
    ensures
        (forall|i: int| 0 <= i < expected.len() ==> expected[i].1 == #[trigger] chain[i]) <==> expected.map_values(|e: (U256, U256)| e.1) == chain,
{
    if forall|i: int| 0 <= i < expected.len() ==> expected[i].1 == #[trigger] chain[i] {
        assert(expected.map_values(|e: (U256, U256)| e.1) =~= chain);
    }
    if expected.map_values(|e: (U256, U256)| e.1) == chain {
        assert forall|i: int| 0 <= i < expected.len() implies expected[i].1 == #[trigger] chain[i] by {
            assert(expected.map_values(|e: (U256, U256)| e.1)[i] == expected[i].1);
        }
    }
}

/// The slots the health check does not compare with the chain: the first
/// slot of `slot0`, the two global fee growths and the liquidity.
pub open spec fn health_skipped(s: nat) -> bool {
    s == 0 || s == 2 || s == 3 || s == 5
}

/// Compares cached slot values with the chain's, in order, and reports the
/// first slot that differs.
pub fn check_storage(expected: &Vec<(U256, U256)>, chain: &Vec<U256>) -> (r: Result<(), HealthError>)
    requires
        expected@.len() == chain@.len(),
    ensures
        r is Ok <==> forall|i: int| 0 <= i < expected@.len() ==> expected@[i].1 == #[trigger] chain@[i],
        r matches Err(e) ==> exists|i: int| 0 <= i < expected@.len() && expected@[i].1 != chain@[i]
            && (forall|j: int| 0 <= j < i ==> expected@[j].1 == #[trigger] chain@[j])
            && e == (HealthError::StorageMismatch { slot: expected@[i].0, chain: chain@[i], simulated: expected@[i].1 }),
{
    let mut i: usize = 0;
    while i < expected.len()
        invariant
            i <= expected@.len(),
            expected@.len() == chain@.len(),
            forall|j: int| 0 <= j < i ==> expected@[j].1 == #[trigger] chain@[j],
        decreases expected@.len() - i,
    {
        let (slot, simulated) = expected[i];
        if simulated != chain[i] {
            return Err(HealthError::StorageMismatch { slot, chain: chain[i], simulated });
        }
        i = i + 1;
    }
    Ok(())
}

/// The slots that hold pool fields kept outside the storage cache: the two
/// global fee growths and the liquidity.
pub open spec fn is_field_slot(s: nat) -> bool {
    s == 2 || s == 3 || s == 5
}

/// A PancakeSwap V3 pool: its immutable parameters, the fields of its state
/// the swap reads, and its cached storage with the tick and bitmap mappings.
pub struct PancakeSwapV3Pool {
    pub address: Address,
    pub token0: ERC20,
    pub token1: ERC20,
    pub fee: u32,
    pub tick_spacing: i32,
    pub slot0: Slot0,
    pub fee_growth_global_0_x128: U256,
    pub fee_growth_global_1_x128: U256,
    pub liquidity: u128,
    pub ticks: SolidityMapping<i32, TickInfo, 6, 4>,
    pub tick_bitmap: SolidityMapping<i16, U256, 7, 1>,
    pub storage: SmartContractStorage,
}

impl PancakeSwapV3Pool {
    /// A pool as read from chain at some block: its parameters and state,
    /// its two `slot0` slots cached, and empty tick and bitmap mappings.
    pub fn new(
        address: Address,
        token0: ERC20,
        token1: ERC20,
        fee: u32,
        tick_spacing: i32,
        slot0: Slot0,
        fee_growth_global_0_x128: U256,
        fee_growth_global_1_x128: U256,
        liquidity: u128,
        slot0_slots: (U256, U256),
    ) -> (p: PancakeSwapV3Pool)
        ensures
            p.address == address,
            p.token0 == token0,
            p.token1 == token1,
            p.fee == fee,
            p.tick_spacing == tick_spacing,
            p.slot0 == slot0,
            p.fee_growth_global_0_x128 == fee_growth_global_0_x128,
            p.fee_growth_global_1_x128 == fee_growth_global_1_x128,
            p.liquidity == liquidity,
            p.storage.address == address,
            p.storage.slots() == Map::<U256, U256>::empty().insert(word_of(0), slot0_slots.0).insert(word_of(1), slot0_slots.1),
            p.ticks.values() == Map::<i32, TickInfo>::empty(),
            p.ticks.owners() == Map::<U256, i32>::empty(),
            p.tick_bitmap.values() == Map::<i16, U256>::empty(),
            p.tick_bitmap.owners() == Map::<U256, i16>::empty(),
    {
        let mut storage = SmartContractStorage::new(address);
        let first = U256::from_u64(0);
        let second = U256::from_u64(1);
        proof {
            lemma_word_of(first, 0);
            lemma_word_of(second, 1);
        }
        storage.insert(first, slot0_slots.0);
        storage.insert(second, slot0_slots.1);
        PancakeSwapV3Pool {
            address,
            token0,
            token1,
            fee,
            tick_spacing,
            slot0,
            fee_growth_global_0_x128,
            fee_growth_global_1_x128,
            liquidity,
            ticks: SolidityMapping::new(),
            tick_bitmap: SolidityMapping::new(),
            storage,
        }
    }

    /// Replaces the state with the one read from chain and forgets every
    /// cached storage slot; the tick and bitmap mappings keep their values.
    pub fn update_state(&mut self, slot0: Slot0, fee_growth_global_0_x128: U256, fee_growth_global_1_x128: U256, liquidity: u128)
        ensures
            final(self).slot0 == slot0,
            final(self).fee_growth_global_0_x128 == fee_growth_global_0_x128,
            final(self).fee_growth_global_1_x128 == fee_growth_global_1_x128,
            final(self).liquidity == liquidity,
            final(self).storage.slots() == Map::<U256, U256>::empty(),
            final(self).storage.address == old(self).storage.address,
            final(self).address == old(self).address,
            final(self).token0 == old(self).token0,
            final(self).token1 == old(self).token1,
            final(self).fee == old(self).fee,
            final(self).tick_spacing == old(self).tick_spacing,
            final(self).ticks == old(self).ticks,
            final(self).tick_bitmap == old(self).tick_bitmap,
    {
        self.slot0 = slot0;
        self.fee_growth_global_0_x128 = fee_growth_global_0_x128;
        self.fee_growth_global_1_x128 = fee_growth_global_1_x128;
        self.liquidity = liquidity;
        self.storage.clear();
    }

    pub fn identifier(&self) -> (s: &'static str)
        ensures
            s@ == "pancakeswap_v3"@,
    {
        "pancakeswap_v3"
    }

    pub fn address(&self) -> (a: Address)
        ensures
            a == self.address,
    {
        self.address
    }

    pub fn token0(&self) -> (t: &ERC20)
        ensures
            *t == self.token0,
    {
        &self.token0
    }

    pub fn token1(&self) -> (t: &ERC20)
        ensures
            *t == self.token1,
    {
        &self.token1
    }

    /// Applies the change of one slot: a global fee growth or the liquidity
    /// is set from its slot, every other slot goes to the storage cache.
    /// Returns whether the slot is one of the two `slot0` slots.
    fn apply_change(&mut self, slot: U256, value: U256) -> (is_slot0: bool)
        requires
            slot@ == 5 ==> value@ < 0x1_0000_0000_0000_0000_0000_0000_0000_0000,
        ensures
            is_slot0 == (slot@ == 0 || slot@ == 1),
            final(self).storage.slots() == if is_field_slot(slot@) { old(self).storage.slots() } else { old(self).storage.slots().insert(slot, value) },
            final(self).fee_growth_global_0_x128 == if slot@ == 2 { value } else { old(self).fee_growth_global_0_x128 },
            final(self).fee_growth_global_1_x128 == if slot@ == 3 { value } else { old(self).fee_growth_global_1_x128 },
            final(self).liquidity == if slot@ == 5 { value@ } else { old(self).liquidity as nat },
            final(self).slot0 == old(self).slot0,
            final(self).address == old(self).address,
            final(self).token0 == old(self).token0,
            final(self).token1 == old(self).token1,
            final(self).fee == old(self).fee,
            final(self).tick_spacing == old(self).tick_spacing,
            final(self).ticks == old(self).ticks,
            final(self).tick_bitmap == old(self).tick_bitmap,
            final(self).storage.address == old(self).storage.address,
    {
        if slot.eq_word(&U256::from_u64(0)) || slot.eq_word(&U256::from_u64(1)) {
            self.storage.insert(slot, value);
            true
        } else if slot.eq_word(&U256::from_u64(2)) {
            self.fee_growth_global_0_x128 = value;
            false
        } else if slot.eq_word(&U256::from_u64(3)) {
            self.fee_growth_global_1_x128 = value;
            false
        } else if slot.eq_word(&U256::from_u64(5)) {
            self.liquidity = value.to_u128();
            false
        } else {
            self.storage.insert(slot, value);
            false
        }
    }

    /// Applies a block's storage changes: the global fee growths and the
    /// liquidity are set from their slots, every other slot goes to the
    /// storage cache, and `slot0` is decoded again from its two slots when
    /// either changed. The liquidity slot must hold a 128-bit value, and
    /// both `slot0` slots must be known once either changes.
    #[verifier::rlimit(40)]
    pub fn apply_storage_changes(&mut self, changes: &StorageChanges)
        requires
            changes_contents(*changes).contains_key(5) ==> changes_contents(*changes)[5] < 0x1_0000_0000_0000_0000_0000_0000_0000_0000,
            changes_contents(*changes).contains_key(0) || changes_contents(*changes).contains_key(1) ==> {
                &&& changes_contents(*changes).contains_key(0) || old(self).storage.slots().contains_key(word_of(0))
                &&& changes_contents(*changes).contains_key(1) || old(self).storage.slots().contains_key(word_of(1))
            },
        ensures
            storage_changes_applied(*old(self), *final(self), changes_contents(*changes)),
    {
        let entries = changes.entries();
        let ghost contents = changes_contents(*changes);
        let ghost mut done: Map<nat, nat> = Map::empty();
        let mut slot0_updated = false;
        let mut i: usize = 0;
        while i < entries.len()
            invariant
                i <= entries@.len(),
                contents == changes_contents(*changes),
                forall|j: int| 0 <= j < entries@.len() ==> contents.contains_key(#[trigger] entries@[j].0@) && contents[entries@[j].0@] == entries@[j].1@,
                contents.contains_key(5) ==> contents[5] < 0x1_0000_0000_0000_0000_0000_0000_0000_0000,
                forall|k: nat| #[trigger] done.contains_key(k) ==> contents.contains_key(k) && done[k] == contents[k],
                forall|k: nat| #[trigger] done.contains_key(k) <==> exists|j: int| 0 <= j < i && entries@[j].0@ == k,
                slot0_updated == (done.contains_key(0) || done.contains_key(1)),
                forall|w: U256| #[trigger] self.storage.slots().contains_key(w) <==> (old(self).storage.slots().contains_key(w)
                    || (done.contains_key(w@) && !is_field_slot(w@))),
                forall|w: U256| done.contains_key(w@) && !is_field_slot(w@) ==> #[trigger] self.storage.slots()[w]@ == done[w@],
                forall|w: U256| old(self).storage.slots().contains_key(w) && (!done.contains_key(w@) || is_field_slot(w@)) ==> #[trigger] self.storage.slots()[w] == old(self).storage.slots()[w],
                self.fee_growth_global_0_x128@ == if done.contains_key(2) { done[2] } else { old(self).fee_growth_global_0_x128@ },
                self.fee_growth_global_1_x128@ == if done.contains_key(3) { done[3] } else { old(self).fee_growth_global_1_x128@ },
                self.liquidity == if done.contains_key(5) { done[5] } else { old(self).liquidity as nat },
                self.slot0 == old(self).slot0,
                self.address == old(self).address,
                self.token0 == old(self).token0,
                self.token1 == old(self).token1,
                self.fee == old(self).fee,
                self.tick_spacing == old(self).tick_spacing,
                self.ticks == old(self).ticks,
                self.tick_bitmap == old(self).tick_bitmap,
                self.storage.address == old(self).storage.address,
            decreases entries@.len() - i,
        {
            let (slot, value) = entries[i];
            proof {
                assert(contents.contains_key(entries@[i as int].0@));
                assert forall|w: U256| w@ == slot@ implies w == slot by {
                    crate::word::lemma_word_order(w, slot);
                }
            }
            let is_slot0 = self.apply_change(slot, value);
            if is_slot0 {
                slot0_updated = true;
            }
            proof {
                done = done.insert(slot@, value@);
                assert forall|k: nat| #[trigger] done.contains_key(k) <==> exists|j: int| 0 <= j < i + 1 && entries@[j].0@ == k by {
                    if k == slot@ {
                        assert(entries@[i as int].0@ == k);
                    }
                }
            }
            i = i + 1;
        }
        proof {
            assert forall|k: nat| #[trigger] contents.contains_key(k) implies done.contains_key(k) by {
                let j = choose|j: int| 0 <= j < entries@.len() && #[trigger] entries@[j].0@ == k;
                assert(entries@[j].0@ == k);
            }
            assert(done =~= contents);
        }
        if slot0_updated {
            self.refresh_slot0();
        }
    }

    /// Decodes `slot0` again from its two cached slots.
    fn refresh_slot0(&mut self)
        requires
            old(self).storage.slots().contains_key(word_of(0)),
            old(self).storage.slots().contains_key(word_of(1)),
        ensures
            final(self).slot0 == Slot0::decoded(values_bytes(seq![old(self).storage.slots()[word_of(0)], old(self).storage.slots()[word_of(1)]])),
            final(self).storage == old(self).storage,
            final(self).fee_growth_global_0_x128 == old(self).fee_growth_global_0_x128,
            final(self).fee_growth_global_1_x128 == old(self).fee_growth_global_1_x128,
            final(self).liquidity == old(self).liquidity,
            final(self).address == old(self).address,
            final(self).token0 == old(self).token0,
            final(self).token1 == old(self).token1,
            final(self).fee == old(self).fee,
            final(self).tick_spacing == old(self).tick_spacing,
            final(self).ticks == old(self).ticks,
            final(self).tick_bitmap == old(self).tick_bitmap,
    {
        let zero = U256::from_u64(0);
        proof {
            lemma_word_of(zero, 0);
            lemma_word_of(zero, 1);
            assert(crate::storage::slot_after(0, 0) == word_of(0));
            assert(crate::storage::slot_after(0, 1) == word_of(1));
            assert forall|i: nat| i < 2 implies #[trigger] self.storage.slots().contains_key(crate::storage::slot_after(zero@, i)) by {
                if i == 0 {
                    assert(crate::storage::slot_after(zero@, i) == word_of(0));
                } else {
                    assert(crate::storage::slot_after(zero@, i) == word_of(1));
                }
            }
        }
        match self.storage.get_consecutive_cached(zero, 2) {
            Some(values) => {
                proof {
                    assert(values@[0] == self.storage.slots()[crate::storage::slot_after(0, 0)]);
                    assert(values@[1] == self.storage.slots()[crate::storage::slot_after(0, 1)]);
                    assert(values@ =~= seq![self.storage.slots()[word_of(0)], self.storage.slots()[word_of(1)]]);
                    assert(values@.drop_last() =~= seq![self.storage.slots()[word_of(0)]]);
                    assert(values@.drop_last().drop_last() =~= Seq::<U256>::empty());
                }
                let bytes = words_to_le_bytes(&values);
                self.slot0 = Slot0::decode(bytes);
            },
            None => {},
        }
    }

    /// Compares the pool's `slot0` and global fee growths with the chain's,
    /// in this order: price, tick, protocol fee, the two fee growths.
    pub fn check_state(&self, chain_slot0: Slot0, chain_fee_growth_0: U256, chain_fee_growth_1: U256) -> (r: Result<(), HealthError>)
        ensures
            r == state_check(*self, chain_slot0, chain_fee_growth_0, chain_fee_growth_1),
    {
        if chain_slot0.sqrt_price_x96 != self.slot0.sqrt_price_x96 {
            return Err(HealthError::SqrtPriceMismatch { chain: chain_slot0.sqrt_price_x96, simulated: self.slot0.sqrt_price_x96 });
        }
        if chain_slot0.tick != self.slot0.tick {
            return Err(HealthError::TickMismatch);
        }
        if chain_slot0.fee_protocol != self.slot0.fee_protocol {
            return Err(HealthError::FeeProtocolMismatch { chain: chain_slot0.fee_protocol, simulated: self.slot0.fee_protocol });
        }
        if chain_fee_growth_0 != self.fee_growth_global_0_x128 {
            return Err(HealthError::FeeGrowth0Mismatch);
        }
        if chain_fee_growth_1 != self.fee_growth_global_1_x128 {
            return Err(HealthError::FeeGrowth1Mismatch);
        }
        Ok(())
    }

    /// The cached slots the health check compares with the chain, each once
    /// with its cached value: every cached slot that is not skipped.
    pub fn storage_to_verify(&self) -> (r: Vec<(U256, U256)>)
        ensures
            keys_distinct(r@),
            forall|i: int| 0 <= i < r@.len() ==> self.storage.slots().contains_key(#[trigger] r@[i].0)
                && self.storage.slots()[r@[i].0] == r@[i].1 && !health_skipped(r@[i].0@),
            forall|w: U256| self.storage.slots().contains_key(w) && !health_skipped(w@) ==> exists|i: int| 0 <= i < r@.len() && #[trigger] r@[i].0 == w,
    {
        let entries = self.storage.entries();
        let mut r: Vec<(U256, U256)> = Vec::new();
        let mut i: usize = 0;
        while i < entries.len()
            invariant
                i <= entries@.len(),
                entries_map(entries@) == self.storage.slots(),
                keys_distinct(entries@),
                keys_distinct(r@),
                forall|j: int| 0 <= j < r@.len() ==> exists|m: int| 0 <= m < i && #[trigger] r@[j] == entries@[m],
                forall|j: int| 0 <= j < r@.len() ==> !health_skipped(#[trigger] r@[j].0@),
                forall|m: int| 0 <= m < i && !health_skipped(entries@[m].0@) ==> exists|j: int| 0 <= j < r@.len() && #[trigger] r@[j] == entries@[m],
            decreases entries@.len() - i,
        {
            let (slot, value) = entries[i];
            if !(slot.eq_word(&U256::from_u64(0)) || slot.eq_word(&U256::from_u64(2)) || slot.eq_word(&U256::from_u64(3)) || slot.eq_word(&U256::from_u64(5))) {
                let ghost before = r@;
                r.push((slot, value));
                proof {
                    assert forall|a: int, b: int| 0 <= a < b < r@.len() implies r@[a].0 != r@[b].0 by {
                        if b == r@.len() - 1 {
                            let m = choose|m: int| 0 <= m < i && #[trigger] before[a] == entries@[m];
                            assert(r@[a] == before[a]);
                        }
                    }
                    assert forall|j: int| 0 <= j < r@.len() implies exists|m: int| 0 <= m < i + 1 && #[trigger] r@[j] == entries@[m] by {
                        if j == r@.len() - 1 {
                            assert(r@[j] == entries@[i as int]);
                        } else {
                            assert(r@[j] == before[j]);
                        }
                    }
                    assert forall|m: int| 0 <= m < i + 1 && !health_skipped(entries@[m].0@) implies exists|j: int| 0 <= j < r@.len() && #[trigger] r@[j] == entries@[m] by {
                        if m == i {
                            assert(r@[r@.len() - 1] == entries@[m]);
                        } else {
                            let j = choose|j: int| 0 <= j < before.len() && #[trigger] before[j] == entries@[m];
                            assert(r@[j] == before[j]);
                        }
                    }
                }
            }
            i = i + 1;
        }
        proof {
            assert forall|k: int| 0 <= k < r@.len() implies self.storage.slots().contains_key(#[trigger] r@[k].0)
                && self.storage.slots()[r@[k].0] == r@[k].1 && !health_skipped(r@[k].0@) by {
                let m = choose|m: int| 0 <= m < i && #[trigger] r@[k] == entries@[m];
                lemma_entries_map_value(entries@, m);
            }
            assert forall|w: U256| self.storage.slots().contains_key(w) && !health_skipped(w@) implies exists|k: int| 0 <= k < r@.len() && #[trigger] r@[k].0 == w by {
                lemma_entries_map_keys(entries@, w);
                let m = choose|m: int| 0 <= m < entries@.len() && entries@[m].0 == w;
                let k = choose|k: int| 0 <= k < r@.len() && #[trigger] r@[k] == entries@[m];
                assert(r@[k].0 == w);
            }
        }
        r
    }

    /// Liquidity is present and the price lies strictly inside the range
    /// that a swap to either price limit can move it.
    pub fn is_liquidity_valid(&self) -> (b: bool)
        ensures
            b == (self.liquidity != 0 && crate::v3_math::min_sqrt_ratio() + 1 < self.slot0.sqrt_price_x96@ < crate::v3_math::max_sqrt_ratio() - 1),
    {
        let low = U256::from_u128(4295128739 + 1);
        let high = U256 { l0: 0x5D95_1D52_6398_8D25, l1: 0xEFD1_FC6A_5064_8849, l2: 0xFFFD_8963, l3: 0 };
        proof {
            assert(high@ == crate::v3_math::max_sqrt_ratio() - 1);
        }
        self.liquidity != 0 && low.lt(&self.slot0.sqrt_price_x96) && self.slot0.sqrt_price_x96.lt(&high)
    }
}

} // verus!
