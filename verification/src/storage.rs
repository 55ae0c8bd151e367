//! The engine's copy of a contract's storage: a cache of slots, and the
//! Solidity mappings read through it (a value at `keccak256(key . slot)`).
//! Fetching a slot that the cache lacks is the caller's I/O.

use crate::bytes::{be_bytes, be_value, le_bytes, le_value, lemma_le_bytes_value, read_le, word_from_be_bytes, word_to_be_bytes, word_to_le_bytes};
use crate::cache::{KeyMap, MappingKey};
use crate::token::Address;
use crate::word::{lemma_word_of, word_add, word_modulus, word_of, U256};
use vstd::prelude::*;

verus! {

/// The Keccak-256 digest of a byte string (`alloy_primitives::keccak256`).
pub uninterp spec fn keccak256_digest(data: Seq<u8>) -> Seq<u8>;

/// `alloy_primitives::keccak256`: the named digest of the bytes, 32 bytes
/// long.
#[verifier::external_body]
fn keccak256(data: &[u8]) -> (r: [u8; 32])
    ensures
        r@ == keccak256_digest(data@),
{
    alloy_primitives::keccak256(data).0
}

/// The slot of the `i`-th word after `slot`, wrapping at 2^256.
pub open spec fn slot_after(slot: nat, i: nat) -> U256 {
    word_of((slot + i) % word_modulus())
}

/// The cached slots of a contract, in an `alloy_primitives::map::B256Map`
/// keyed by the slot's 32 big-endian bytes.
#[verifier::external_body]
pub struct SlotValues {
    map: alloy_primitives::map::B256Map<alloy_primitives::U256>,
}

/// What the map holds: each cached slot with its value.
pub uninterp spec fn slot_values(values: SlotValues) -> Map<nat, nat>;

/// `B256Map::default`: an empty map.
#[verifier::external_body]
fn slot_values_new() -> (r: SlotValues)
    ensures
        slot_values(r) =~= Map::empty(),
{
    SlotValues { map: alloy_primitives::map::B256Map::default() }
}

/// `HashMap::insert`: the slot now maps to the value, every other slot is
/// unchanged.
#[verifier::external_body]
fn slot_values_insert(m: &mut SlotValues, slot: U256, value: U256)
    ensures
        slot_values(*final(m)) == slot_values(*old(m)).insert(slot@, value@),
{
    let key = alloy_primitives::B256::from(alloy_primitives::U256::from_limbs([slot.l0, slot.l1, slot.l2, slot.l3]));
    m.map.insert(key, alloy_primitives::U256::from_limbs([value.l0, value.l1, value.l2, value.l3]));
}

/// `HashMap::get`: the value of a slot, if it is cached.
#[verifier::external_body]
fn slot_values_get(m: &SlotValues, slot: U256) -> (r: Option<U256>)
    ensures
        r is Some <==> slot_values(*m).contains_key(slot@),
        r matches Some(v) ==> v@ == slot_values(*m)[slot@],
{
    let key = alloy_primitives::B256::from(alloy_primitives::U256::from_limbs([slot.l0, slot.l1, slot.l2, slot.l3]));
    let l = m.map.get(&key)?.into_limbs();
    Some(U256 { l0: l[0], l1: l[1], l2: l[2], l3: l[3] })
}

/// `HashMap::clear`: no slot is cached.
#[verifier::external_body]
fn slot_values_clear(m: &mut SlotValues)
    ensures
        slot_values(*final(m)) =~= Map::empty(),
{
    m.map.clear();
}

/// `HashMap::iter`, each entry converted to a pair of words: every cached
/// slot once, in the map's own order.
#[verifier::external_body]
fn slot_values_entries(m: &SlotValues) -> (r: Vec<(U256, U256)>)
    ensures
        forall|i: int| 0 <= i < r@.len() ==> slot_values(*m).contains_key(#[trigger] r@[i].0@)
            && slot_values(*m)[r@[i].0@] == r@[i].1@,
        forall|k: nat| slot_values(*m).contains_key(k) ==> exists|i: int| 0 <= i < r@.len() && #[trigger] r@[i].0@ == k,
        forall|i: int, j: int| 0 <= i < j < r@.len() ==> r@[i].0@ != r@[j].0@,
{
    m.map.iter().map(|(k, v)| { let (k, v) = (alloy_primitives::U256::from_be_bytes(k.0).into_limbs(), v.into_limbs()); (U256 { l0: k[0], l1: k[1], l2: k[2], l3: k[3] }, U256 { l0: v[0], l1: v[1], l2: v[2], l3: v[3] }) }).collect()
}

/// The cached copy of one contract's storage.
pub struct SmartContractStorage {
    pub address: Address,
    pub storage: SlotValues,
}

impl SmartContractStorage {
    /// The cached slots and their values.
    pub closed spec fn slots(&self) -> Map<U256, U256> {
        Map::new(|w: U256| slot_values(self.storage).contains_key(w@), |w: U256| word_of(slot_values(self.storage)[w@]))
    }

    pub fn new(address: Address) -> (s: SmartContractStorage)
        ensures
            s.address == address,
            s.slots() == Map::<U256, U256>::empty(),
    {
        let s = SmartContractStorage { address, storage: slot_values_new() };
        assert(s.slots() =~= Map::<U256, U256>::empty());
        s
    }

    /// The cached value of a slot, if any.
    pub fn get_cached(&self, slot: U256) -> (r: Option<U256>)
        ensures
            r is Some <==> self.slots().contains_key(slot),
            r matches Some(v) ==> v == self.slots()[slot],
    {
        let r = slot_values_get(&self.storage, slot);
        proof {
            if let Some(v) = r {
                lemma_word_of(v, 0);
            }
        }
        r
    }

    /// Caches the value of a slot.
    pub fn insert(&mut self, slot: U256, value: U256)
        ensures
            final(self).slots() == old(self).slots().insert(slot, value),
            final(self).address == old(self).address,
    {
        slot_values_insert(&mut self.storage, slot, value);
        proof {
            lemma_word_of(value, 0);
            assert forall|w: U256| w@ == slot@ implies w == slot by {
                crate::word::lemma_word_order(w, slot);
            }
            assert(self.slots() =~= old(self).slots().insert(slot, value));
        }
    }

    /// Forgets every cached slot.
    pub fn clear(&mut self)
        ensures
            final(self).slots() == Map::<U256, U256>::empty(),
            final(self).address == old(self).address,
    {
        slot_values_clear(&mut self.storage);
        assert(self.slots() =~= Map::<U256, U256>::empty());
    }

    /// Every cached slot once, with its value.
    pub fn entries(&self) -> (r: Vec<(U256, U256)>)
        ensures
            crate::cache::entries_map(r@) == self.slots(),
            crate::cache::keys_distinct(r@),
    {
        let r = slot_values_entries(&self.storage);
        proof {
            let m = slot_values(self.storage);
            assert forall|w: U256| #[trigger] crate::cache::entries_map(r@).contains_key(w) <==> self.slots().contains_key(w) by {
                crate::cache::lemma_entries_map_keys(r@, w);
                if m.contains_key(w@) {
                    let i = choose|i: int| 0 <= i < r@.len() && #[trigger] r@[i].0@ == w@;
                    crate::word::lemma_word_order(r@[i].0, w);
                }
            }
            assert forall|i: int, j: int| 0 <= i < j < r@.len() implies r@[i].0 != r@[j].0 by {}
            assert forall|w: U256| #[trigger] crate::cache::entries_map(r@).contains_key(w) implies crate::cache::entries_map(r@)[w] == self.slots()[w] by {
                crate::cache::lemma_entries_map_keys(r@, w);
                let i = choose|i: int| 0 <= i < r@.len() && r@[i].0 == w;
                crate::cache::lemma_entries_map_value(r@, i);
                lemma_word_of(r@[i].1, 0);
            }
            assert(crate::cache::entries_map(r@) =~= self.slots());
        }
        r
    }

    /// Caches fetched values, each at its slot, in order; a later value for
    /// the same slot replaces an earlier one.
    pub fn insert_many(&mut self, slots: &Vec<U256>, values: &Vec<U256>)
        requires
            slots@.len() == values@.len(),
        ensures
            final(self).slots() == old(self).slots().union_prefer_right(crate::cache::entries_map(slots@.zip_with(values@))),
            final(self).address == old(self).address,
    {
        let mut i: usize = 0;
        while i < slots.len()
            invariant
                i <= slots@.len(),
                slots@.len() == values@.len(),
                self.slots() == old(self).slots().union_prefer_right(crate::cache::entries_map(slots@.zip_with(values@).subrange(0, i as int))),
                self.address == old(self).address,
            decreases slots@.len() - i,
        {
            let ghost before = self.slots();
            self.insert(slots[i], values[i]);
            proof {
                let z = slots@.zip_with(values@);
                assert(z.subrange(0, i + 1).drop_last() =~= z.subrange(0, i as int));
                assert(z[i as int] == (slots@[i as int], values@[i as int]));
                assert(self.slots() =~= old(self).slots().union_prefer_right(crate::cache::entries_map(z.subrange(0, i + 1))));
            }
            i = i + 1;
        }
        proof {
            assert(slots@.zip_with(values@).subrange(0, i as int) =~= slots@.zip_with(values@));
        }
    }

    /// The `amount` consecutive slots from `slot`, wrapping at 2^256.
    pub fn consecutive_slots(slot: U256, amount: usize) -> (r: Vec<U256>)
        ensures
            r@.len() == amount,
            forall|i: int| 0 <= i < amount ==> #[trigger] r@[i] == slot_after(slot@, i as nat),
    {
        let mut r: Vec<U256> = Vec::new();
        let mut i: usize = 0;
        while i < amount
            invariant
                i <= amount,
                r@.len() == i,
                forall|j: int| 0 <= j < i ==> #[trigger] r@[j] == slot_after(slot@, j as nat),
            decreases amount - i,
        {
            let key = word_add(slot, U256::from_u64(i as u64));
            proof {
                vstd::arithmetic::div_mod::lemma_mod_pos_bound((slot@ + i) as int, word_modulus() as int);
                lemma_word_of(key, 0);
            }
            r.push(key);
            i = i + 1;
        }
        r
    }

    /// The cached values of `amount` consecutive slots from `slot`, or
    /// `None` if any of them is not cached.
    pub fn get_consecutive_cached(&self, slot: U256, amount: usize) -> (r: Option<Vec<U256>>)
        ensures
            r is Some <==> forall|i: nat| i < amount ==> #[trigger] self.slots().contains_key(slot_after(slot@, i)),
            r matches Some(v) ==> v@.len() == amount && forall|i: int| 0 <= i < amount ==> #[trigger] v@[i] == self.slots()[slot_after(slot@, i as nat)],
    {
        let mut values: Vec<U256> = Vec::new();
        let mut i: usize = 0;
        while i < amount
            invariant
                i <= amount,
                values@.len() == i,
                forall|j: nat| j < i ==> #[trigger] self.slots().contains_key(slot_after(slot@, j)),
                forall|j: int| 0 <= j < i ==> #[trigger] values@[j] == self.slots()[slot_after(slot@, j as nat)],
            decreases amount - i,
        {
            let key = word_add(slot, U256::from_u64(i as u64));
            proof {
                vstd::arithmetic::div_mod::lemma_mod_pos_bound((slot@ + i) as int, word_modulus() as int);
                lemma_word_of(key, 0);
                assert(key == slot_after(slot@, i as nat));
            }
            match self.get_cached(key) {
                Some(v) => values.push(v),
                None => {
                    proof {
                        assert(!self.slots().contains_key(slot_after(slot@, i as nat)));
                    }
                    return None;
                },
            }
            i = i + 1;
        }
        Some(values)
    }
}

/// The value that a storage mapping holds for a key lies at this slot:
/// `keccak256(key . slot)`, both as 32 big-endian bytes.
pub open spec fn mapping_value_slot(key_word: nat, slot: nat) -> nat {
    be_value(keccak256_digest(be_bytes(key_word) + be_bytes(slot)))
}

/// A value that a storage mapping holds, read from the little-endian bytes
/// of its consecutive slots.
pub trait StorageDecodable: Sized + Copy {
    /// The byte strings the value can be read from.
    spec fn decodable(bytes: Seq<u8>) -> bool;

    /// The value read from the bytes.
    spec fn decoded(bytes: Seq<u8>) -> Self;

    fn decode(bytes: Vec<u8>) -> (r: Self)
        requires
            Self::decodable(bytes@),
        ensures
            r == Self::decoded(bytes@);
}

/// The word of two 128-bit halves.
pub fn word_from_halves(lo: u128, hi: u128) -> (w: U256)
    ensures
        w@ == hi * 0x1_0000_0000_0000_0000_0000_0000_0000_0000 + lo,
{
    let a = U256::from_u128(lo);
    let b = U256::from_u128(hi);
    U256 { l0: a.l0, l1: a.l1, l2: b.l0, l3: b.l1 }
}

impl StorageDecodable for U256 {
    open spec fn decodable(bytes: Seq<u8>) -> bool {
        bytes.len() == 32
    }

    open spec fn decoded(bytes: Seq<u8>) -> U256 {
        word_of(le_value(bytes))
    }

    fn decode(bytes: Vec<u8>) -> (r: U256) {
        let lo = read_le(&bytes, 0, 16);
        let hi = read_le(&bytes, 16, 16);
        proof {
            crate::bytes::lemma_le_value_split(bytes@, 16);
            assert(bytes@.subrange(16, 32) =~= bytes@.subrange(16, bytes@.len() as int));
            reveal_with_fuel(crate::bytes::pow256, 17);
            assert(crate::bytes::pow256(16) == 0x1_0000_0000_0000_0000_0000_0000_0000_0000);
            assert(le_value(bytes@) == lo + 0x1_0000_0000_0000_0000_0000_0000_0000_0000 * hi);
        }
        let w = word_from_halves(lo, hi);
        proof {
            lemma_word_of(w, 0);
            assert(w@ == le_value(bytes@));
        }
        w
    }
}

/// The bytes of consecutive slot values, each little-endian, one after
/// another.
pub open spec fn values_bytes(values: Seq<U256>) -> Seq<u8>
    decreases values.len(),
{
    if values.len() == 0 {
        Seq::empty()
    } else {
        values_bytes(values.drop_last()) + le_bytes(values.last()@)
    }
}

/// Lays the values out as bytes, each little-endian.
pub fn words_to_le_bytes(values: &Vec<U256>) -> (r: Vec<u8>)
    ensures
        r@ == values_bytes(values@),
        r@.len() == 32 * values@.len(),
{
    let mut r: Vec<u8> = Vec::new();
    let mut i: usize = 0;
    while i < values.len()
        invariant
            i <= values@.len(),
            r@ == values_bytes(values@.subrange(0, i as int)),
            r@.len() == 32 * i,
        decreases values@.len() - i,
    {
        let b = word_to_le_bytes(values[i]);
        let ghost before = r@;
        let mut j: usize = 0;
        while j < 32
            invariant
                j <= 32,
                r@ == before + b@.subrange(0, j as int),
            decreases 32 - j,
        {
            r.push(b[j]);
            proof {
                assert(b@.subrange(0, j + 1) =~= b@.subrange(0, j as int).push(b@[j as int]));
            }
            j = j + 1;
        }
        proof {
            assert(b@.subrange(0, 32) =~= b@);
            assert(values@.subrange(0, i + 1).drop_last() =~= values@.subrange(0, i as int));
            lemma_le_bytes_value(values@[i as int]);
        }
        i = i + 1;
    }
    proof {
        assert(values@.subrange(0, i as int) =~= values@);
    }
    r
}

/// Records in `slots` that the `count` slots from `slot` hold the value of
/// `key`.
fn record_slots<K: MappingKey>(slots: &mut KeyMap<U256, K>, key: K, slot: U256, count: usize)
    ensures
        forall|s: U256| #[trigger] final(slots).view_map().contains_key(s) <==> (old(slots).view_map().contains_key(s) || exists|i: nat| i < count && s == slot_after(slot@, i)),
        forall|i: nat| i < count ==> #[trigger] final(slots).view_map()[slot_after(slot@, i)] == key,
        forall|s: U256| old(slots).view_map().contains_key(s) && !(exists|i: nat| i < count && s == slot_after(slot@, i)) ==> #[trigger] final(slots).view_map()[s] == old(slots).view_map()[s],
{
    let mut i: usize = 0;
    while i < count
        invariant
            i <= count,
            forall|s: U256| #[trigger] slots.view_map().contains_key(s) <==> (old(slots).view_map().contains_key(s) || exists|j: nat| j < i && s == slot_after(slot@, j)),
            forall|j: nat| j < i ==> #[trigger] slots.view_map()[slot_after(slot@, j)] == key,
            forall|s: U256| old(slots).view_map().contains_key(s) && !(exists|j: nat| j < i && s == slot_after(slot@, j)) ==> #[trigger] slots.view_map()[s] == old(slots).view_map()[s],
        decreases count - i,
    {
        let s = word_add(slot, U256::from_u64(i as u64));
        proof {
            vstd::arithmetic::div_mod::lemma_mod_pos_bound((slot@ + i) as int, word_modulus() as int);
            lemma_word_of(s, 0);
            assert(s == slot_after(slot@, i as nat));
        }
        let ghost prev = slots.view_map();
        proof {
            assert forall|t: U256| #[trigger] prev.contains_key(t) <==> (old(slots).view_map().contains_key(t) || exists|j: nat| j < i && t == slot_after(slot@, j)) by {}
            assert forall|j: nat| j < i implies #[trigger] prev[slot_after(slot@, j)] == key by {}
            assert forall|t: U256| old(slots).view_map().contains_key(t) && !(exists|j: nat| j < i && t == slot_after(slot@, j)) implies #[trigger] prev[t] == old(slots).view_map()[t] by {}
        }
        slots.insert(s, key);
        proof {
            assert(slots.view_map() == prev.insert(s, key));
            assert forall|t: U256| #[trigger] slots.view_map().contains_key(t) <==> (old(slots).view_map().contains_key(t) || exists|j: nat| j < i + 1 && t == slot_after(slot@, j)) by {
                if t == s {
                    assert(t == slot_after(slot@, i as nat));
                }
            }
            assert forall|j: nat| j < i + 1 implies #[trigger] slots.view_map()[slot_after(slot@, j)] == key by {
                if j < i {
                    assert(prev[slot_after(slot@, j)] == key);
                }
            }
            assert forall|t: U256| old(slots).view_map().contains_key(t) && !(exists|j: nat| j < i + 1 && t == slot_after(slot@, j)) implies #[trigger] slots.view_map()[t] == old(slots).view_map()[t] by {
                assert(t != s);
            }
        }
        i = i + 1;
    }
}

/// A Solidity mapping from keys to values of `VALUE_SLOT_SIZE` slots each,
/// declared at storage slot `SLOT`: the values read so far, and for every slot
/// a read value occupies, the key it belongs to.
pub struct SolidityMapping<K: MappingKey, V: StorageDecodable, const SLOT: u128, const VALUE_SLOT_SIZE: usize> {
    mapping: KeyMap<K, V>,
    discovered_slots: KeyMap<U256, K>,
}

impl<K: MappingKey, V: StorageDecodable, const SLOT: u128, const VALUE_SLOT_SIZE: usize> SolidityMapping<K, V, SLOT, VALUE_SLOT_SIZE> {
    /// The values read so far.
    pub closed spec fn values(&self) -> Map<K, V> {
        self.mapping.view_map()
    }

    /// The slots known to hold a read value, with its key.
    pub closed spec fn owners(&self) -> Map<U256, K> {
        self.discovered_slots.view_map()
    }

    /// The slots at which the value of a key lies: `VALUE_SLOT_SIZE` of them
    /// from the hashed slot of the key.
    pub open spec fn holds_value_of(s: U256, k: K) -> bool {
        exists|i: nat| i < VALUE_SLOT_SIZE && s == #[trigger] slot_after(mapping_value_slot(k.key_word(), SLOT as nat), i)
    }

    /// The cache of a mapping is coherent: every recorded slot lies in the
    /// value of the key it is recorded for, and every slot of a read value
    /// is recorded.
    #[verifier::type_invariant]
    pub open spec fn coherent(&self) -> bool {
        &&& forall|s: U256| #[trigger] self.owners().contains_key(s) ==> Self::holds_value_of(s, self.owners()[s])
        &&& forall|k: K, i: nat| self.values().contains_key(k) && i < VALUE_SLOT_SIZE
            ==> #[trigger] self.owners().contains_key(slot_after(mapping_value_slot(k.key_word(), SLOT as nat), i))
    }

    pub fn new() -> (m: Self)
        ensures
            m.values() == Map::<K, V>::empty(),
            m.owners() == Map::<U256, K>::empty(),
    {
        SolidityMapping { mapping: KeyMap::new(), discovered_slots: KeyMap::new() }
    }

    /// The slot at which the value of a key starts.
    pub fn get_value_storage_slot(&self, k: &K) -> (s: U256)
        ensures
            s@ == mapping_value_slot(k.key_word(), SLOT as nat),
    {
        let key = word_to_be_bytes(k.into_u256());
        let slot = word_to_be_bytes(U256::from_u128(SLOT));
        let mut data: Vec<u8> = Vec::new();
        let mut i: usize = 0;
        while i < 32
            invariant
                i <= 32,
                data@ == key@.subrange(0, i as int),
            decreases 32 - i,
        {
            data.push(key[i]);
            proof {
                assert(key@.subrange(0, i + 1) =~= key@.subrange(0, i as int).push(key@[i as int]));
            }
            i = i + 1;
        }
        let mut j: usize = 0;
        while j < 32
            invariant
                j <= 32,
                data@ == key@ + slot@.subrange(0, j as int),
            decreases 32 - j,
        {
            data.push(slot[j]);
            proof {
                assert(slot@.subrange(0, j + 1) =~= slot@.subrange(0, j as int).push(slot@[j as int]));
            }
            j = j + 1;
        }
        proof {
            assert(key@.subrange(0, 32) =~= key@);
            assert(slot@.subrange(0, 32) =~= slot@);
        }
        word_from_be_bytes(keccak256(data.as_slice()))
    }

    /// Records that the `VALUE_SLOT_SIZE` slots from `slot` hold the value
    /// of `key`.
    fn discover_slot(&mut self, key: K, slot: U256)
        requires
            slot@ == mapping_value_slot(key.key_word(), SLOT as nat),
        ensures
            final(self).values() == old(self).values(),
            forall|s: U256| #[trigger] final(self).owners().contains_key(s) <==> (old(self).owners().contains_key(s) || exists|i: nat| i < VALUE_SLOT_SIZE && s == slot_after(slot@, i)),
            forall|i: nat| i < VALUE_SLOT_SIZE ==> #[trigger] final(self).owners()[slot_after(slot@, i)] == key,
            forall|s: U256| old(self).owners().contains_key(s) && !(exists|i: nat| i < VALUE_SLOT_SIZE && s == slot_after(slot@, i)) ==> #[trigger] final(self).owners()[s] == old(self).owners()[s],
    {
        let mut taken = Self::new();
        std::mem::swap(self, &mut taken);
        proof {
            use_type_invariant(&taken);
        }
        let ghost before = taken;
        let SolidityMapping { mapping, discovered_slots } = taken;
        let mut slots = discovered_slots;
        record_slots(&mut slots, key, slot, VALUE_SLOT_SIZE);
        proof {
            assert forall|t: U256| #[trigger] slots.view_map().contains_key(t) implies Self::holds_value_of(t, slots.view_map()[t]) by {
                if exists|i: nat| i < VALUE_SLOT_SIZE && t == slot_after(slot@, i) {
                    let i = choose|i: nat| i < VALUE_SLOT_SIZE && t == slot_after(slot@, i);
                    assert(slots.view_map()[slot_after(slot@, i)] == key);
                    assert(t == slot_after(mapping_value_slot(key.key_word(), SLOT as nat), i));
                } else {
                    assert(before.owners().contains_key(t));
                    assert(Self::holds_value_of(t, before.owners()[t]));
                }
            }
            assert forall|k: K, i: nat| mapping.view_map().contains_key(k) && i < VALUE_SLOT_SIZE
                implies #[trigger] slots.view_map().contains_key(slot_after(mapping_value_slot(k.key_word(), SLOT as nat), i)) by {
                assert(before.values().contains_key(k));
                assert(before.owners().contains_key(slot_after(mapping_value_slot(k.key_word(), SLOT as nat), i)));
            }
        }
        *self = SolidityMapping { mapping, discovered_slots: slots };
    }

    /// Maps a key whose slots are all recorded to a value.
    fn put_value(&mut self, k: K, v: V)
        requires
            forall|i: nat| i < VALUE_SLOT_SIZE ==> #[trigger] old(self).owners().contains_key(slot_after(mapping_value_slot(k.key_word(), SLOT as nat), i)),
        ensures
            final(self).values() == old(self).values().insert(k, v),
            final(self).owners() == old(self).owners(),
    {
        let mut taken = Self::new();
        std::mem::swap(self, &mut taken);
        proof {
            use_type_invariant(&taken);
        }
        let ghost before = taken;
        let SolidityMapping { mapping, discovered_slots } = taken;
        let mut values = mapping;
        values.insert(k, v);
        proof {
            assert forall|t: U256| #[trigger] discovered_slots.view_map().contains_key(t) implies Self::holds_value_of(t, discovered_slots.view_map()[t]) by {
                assert(before.owners().contains_key(t));
            }
            assert forall|k2: K, i: nat| values.view_map().contains_key(k2) && i < VALUE_SLOT_SIZE
                implies #[trigger] discovered_slots.view_map().contains_key(slot_after(mapping_value_slot(k2.key_word(), SLOT as nat), i)) by {
                if k2 != k {
                    assert(before.values().contains_key(k2));
                }
                assert(before.owners().contains_key(slot_after(mapping_value_slot(k2.key_word(), SLOT as nat), i)));
            }
        }
        *self = SolidityMapping { mapping: values, discovered_slots };
    }

    /// Forgets the value of a key.
    fn drop_value(&mut self, k: &K)
        ensures
            final(self).values() == old(self).values().remove(*k),
            final(self).owners() == old(self).owners(),
    {
        let mut taken = Self::new();
        std::mem::swap(self, &mut taken);
        proof {
            use_type_invariant(&taken);
        }
        let ghost before = taken;
        let SolidityMapping { mapping, discovered_slots } = taken;
        let mut values = mapping;
        values.remove(k);
        proof {
            assert forall|t: U256| #[trigger] discovered_slots.view_map().contains_key(t) implies Self::holds_value_of(t, discovered_slots.view_map()[t]) by {
                assert(before.owners().contains_key(t));
            }
            assert forall|k2: K, i: nat| values.view_map().contains_key(k2) && i < VALUE_SLOT_SIZE
                implies #[trigger] discovered_slots.view_map().contains_key(slot_after(mapping_value_slot(k2.key_word(), SLOT as nat), i)) by {
                assert(before.values().contains_key(k2));
                assert(before.owners().contains_key(slot_after(mapping_value_slot(k2.key_word(), SLOT as nat), i)));
            }
        }
        *self = SolidityMapping { mapping: values, discovered_slots };
    }

    /// The slots at which the values of the keys start, in order; each
    /// value's slots are recorded as holding it.
    pub fn fetch_plan(&mut self, keys: &Vec<K>) -> (r: Vec<U256>)
        ensures
            r@.len() == keys@.len(),
            forall|k: int| 0 <= k < keys@.len() ==> #[trigger] r@[k]@ == mapping_value_slot(keys@[k].key_word(), SLOT as nat),
            final(self).values() == old(self).values(),
            forall|s: U256| old(self).owners().contains_key(s) ==> #[trigger] final(self).owners().contains_key(s),
            forall|k: int, i: nat| 0 <= k < keys@.len() && i < VALUE_SLOT_SIZE ==> #[trigger] final(self).owners().contains_key(slot_after(r@[k]@, i)),
    {
        let mut r: Vec<U256> = Vec::new();
        let mut k: usize = 0;
        while k < keys.len()
            invariant
                k <= keys@.len(),
                r@.len() == k,
                forall|j: int| 0 <= j < k ==> #[trigger] r@[j]@ == mapping_value_slot(keys@[j].key_word(), SLOT as nat),
                self.values() == old(self).values(),
                forall|s: U256| old(self).owners().contains_key(s) ==> #[trigger] self.owners().contains_key(s),
                forall|j: int, i: nat| 0 <= j < k && i < VALUE_SLOT_SIZE ==> #[trigger] self.owners().contains_key(slot_after(r@[j]@, i)),
            decreases keys@.len() - k,
        {
            let slot = self.get_value_storage_slot(&keys[k]);
            self.discover_slot(keys[k], slot);
            r.push(slot);
            k = k + 1;
        }
        r
    }

    /// The value of a key, if it was read before.
    pub fn get_cached(&self, k: &K) -> (r: Option<V>)
        ensures
            r is Some <==> self.values().contains_key(*k),
            r matches Some(v) ==> v == self.values()[*k],
    {
        self.mapping.get(k)
    }

    /// Stores the value of a key, and records which slots hold it.
    pub fn insert(&mut self, k: K, v: V)
        ensures
            final(self).values() == old(self).values().insert(k, v),
            forall|s: U256| #[trigger] final(self).owners().contains_key(s) <==> (old(self).owners().contains_key(s)
                || exists|i: nat| i < VALUE_SLOT_SIZE && s == #[trigger] slot_after(mapping_value_slot(k.key_word(), SLOT as nat), i)),
            forall|i: nat| i < VALUE_SLOT_SIZE ==> #[trigger] final(self).owners()[slot_after(mapping_value_slot(k.key_word(), SLOT as nat), i)] == k,
            forall|s: U256| old(self).owners().contains_key(s) && !(exists|i: nat| i < VALUE_SLOT_SIZE && s == #[trigger] slot_after(mapping_value_slot(k.key_word(), SLOT as nat), i))
                ==> #[trigger] final(self).owners()[s] == old(self).owners()[s],
    {
        let slot = self.get_value_storage_slot(&k);
        self.discover_slot(k, slot);
        let ghost owners = self.owners();
        self.put_value(k, v);
        proof {
            assert(self.owners() == owners);
            assert forall|i: nat| i < VALUE_SLOT_SIZE implies #[trigger] self.owners()[slot_after(mapping_value_slot(k.key_word(), SLOT as nat), i)] == k by {
                assert(owners[slot_after(slot@, i)] == k);
            }
        }
    }

    /// The value of a key as the mapping and the storage give it: the value
    /// read before, else the value decoded from the key's cached slots, else
    /// none (some of those slots are not cached).
    pub open spec fn lookup(&self, storage: &SmartContractStorage, k: K) -> Option<V> {
        let slot = mapping_value_slot(k.key_word(), SLOT as nat);
        if self.values().contains_key(k) {
            Some(self.values()[k])
        } else if forall|i: nat| i < VALUE_SLOT_SIZE ==> #[trigger] storage.slots().contains_key(slot_after(slot, i)) {
            Some(V::decoded(values_bytes(Seq::new(VALUE_SLOT_SIZE as nat, |i: int| storage.slots()[slot_after(slot, i as nat)]))))
        } else {
            None
        }
    }

    /// The value of a key: from the values read before, else decoded from
    /// the cached storage slots, which it then keeps. `None` when some of
    /// its slots are not cached: the caller fetches them into the storage
    /// and asks again.
    pub fn get(&mut self, storage: &SmartContractStorage, k: &K) -> (r: Option<V>)
        requires
            forall|b: Seq<u8>| b.len() == 32 * VALUE_SLOT_SIZE ==> #[trigger] V::decodable(b),
        ensures
            r == old(self).lookup(storage, *k),
            r matches Some(v) ==> final(self).values() == old(self).values().insert(*k, v),
            r is None ==> final(self).values() == old(self).values(),
            old(self).values().contains_key(*k) ==> final(self).owners() == old(self).owners(),
            !old(self).values().contains_key(*k) ==> {
                let slot = mapping_value_slot(k.key_word(), SLOT as nat);
                &&& forall|s: U256| #[trigger] final(self).owners().contains_key(s) <==> (old(self).owners().contains_key(s)
                    || exists|i: nat| i < VALUE_SLOT_SIZE && s == slot_after(slot, i))
                &&& forall|i: nat| i < VALUE_SLOT_SIZE ==> #[trigger] final(self).owners()[slot_after(slot, i)] == *k
                &&& forall|s: U256| old(self).owners().contains_key(s) && !(exists|i: nat| i < VALUE_SLOT_SIZE && s == slot_after(slot, i))
                    ==> #[trigger] final(self).owners()[s] == old(self).owners()[s]
            },
    {
        if let Some(v) = self.mapping.get(k) {
            proof {
                assert(self.values().insert(*k, v) =~= self.values());
            }
            return Some(v);
        }
        let slot = self.get_value_storage_slot(k);
        self.discover_slot(*k, slot);
        let ghost owners = self.owners();
        proof {
            let target = mapping_value_slot(k.key_word(), SLOT as nat);
            assert forall|s: U256| #[trigger] owners.contains_key(s) <==> (old(self).owners().contains_key(s)
                || exists|i: nat| i < VALUE_SLOT_SIZE && s == slot_after(target, i)) by {
                if exists|i: nat| i < VALUE_SLOT_SIZE && s == slot_after(slot@, i) {
                    let i = choose|i: nat| i < VALUE_SLOT_SIZE && s == slot_after(slot@, i);
                    assert(s == slot_after(target, i));
                }
                if exists|i: nat| i < VALUE_SLOT_SIZE && s == slot_after(target, i) {
                    let i = choose|i: nat| i < VALUE_SLOT_SIZE && s == slot_after(target, i);
                    assert(s == slot_after(slot@, i));
                }
            }
            assert forall|s: U256| old(self).owners().contains_key(s) && !(exists|i: nat| i < VALUE_SLOT_SIZE && s == slot_after(target, i))
                implies #[trigger] owners[s] == old(self).owners()[s] by {
                if exists|i: nat| i < VALUE_SLOT_SIZE && s == slot_after(slot@, i) {
                    let i = choose|i: nat| i < VALUE_SLOT_SIZE && s == slot_after(slot@, i);
                    assert(s == slot_after(target, i));
                }
            }
        }
        match storage.get_consecutive_cached(slot, VALUE_SLOT_SIZE) {
            Some(values) => {
                let bytes = words_to_le_bytes(&values);
                proof {
                    assert(values@ =~= Seq::new(VALUE_SLOT_SIZE as nat, |i: int| storage.slots()[slot_after(slot@, i as nat)]));
                }
                let v = V::decode(bytes);
                self.put_value(*k, v);
                Some(v)
            },
            None => None,
        }
    }

    /// Forgets the value that occupies a slot, if a read value does.
    pub fn invalidate(&mut self, slot: U256)
        ensures
            old(self).owners().contains_key(slot) ==> final(self).values() == old(self).values().remove(old(self).owners()[slot]),
            !old(self).owners().contains_key(slot) ==> final(self).values() == old(self).values(),
            final(self).owners() == old(self).owners(),
    {
        if let Some(key) = self.discovered_slots.get(&slot) {
            self.drop_value(&key);
        }
    }

    /// Forgets the values that occupy any of the slots.
    pub fn invalidate_many(&mut self, slots: &Vec<U256>)
        ensures
            final(self).owners() == old(self).owners(),
            forall|k: K| #[trigger] final(self).values().contains_key(k) <==> old(self).values().contains_key(k)
                && !exists|i: int| 0 <= i < slots@.len() && old(self).owners().contains_key(slots@[i]) && old(self).owners()[slots@[i]] == k,
            forall|k: K| #[trigger] final(self).values().contains_key(k) ==> final(self).values()[k] == old(self).values()[k],
    {
        let mut i: usize = 0;
        while i < slots.len()
            invariant
                i <= slots@.len(),
                self.owners() == old(self).owners(),
                forall|k: K| #[trigger] self.values().contains_key(k) <==> old(self).values().contains_key(k)
                    && !exists|j: int| 0 <= j < i && old(self).owners().contains_key(slots@[j]) && old(self).owners()[slots@[j]] == k,
                forall|k: K| #[trigger] self.values().contains_key(k) ==> self.values()[k] == old(self).values()[k],
            decreases slots@.len() - i,
        {
            self.invalidate(slots[i]);
            i = i + 1;
        }
    }
}


/// Reading a key through a mapping changes what no later read gives: the
/// value read is the one the mapping and storage gave for it, and every key
/// gives what it gave before.
pub proof fn law_read_keeps_lookups<K: MappingKey, V: StorageDecodable, const SLOT: u128, const VALUE_SLOT_SIZE: usize>(
    before: SolidityMapping<K, V, SLOT, VALUE_SLOT_SIZE>,
    after: SolidityMapping<K, V, SLOT, VALUE_SLOT_SIZE>,
    storage: SmartContractStorage,
    k: K,
    v: V,
    other: K,
)
    requires
        before.lookup(&storage, k) == Some(v),
        after.values() == before.values().insert(k, v),
    ensures
        after.lookup(&storage, other) == before.lookup(&storage, other),
{
    if other != k {
        assert(after.values().contains_key(other) == before.values().contains_key(other));
    }
}

/// A value written into a mapping is what the mapping then gives for its
/// key, whatever the storage holds: no slot is read for it.
pub proof fn law_written_value_is_read_back<K: MappingKey, V: StorageDecodable, const SLOT: u128, const VALUE_SLOT_SIZE: usize>(
    before: SolidityMapping<K, V, SLOT, VALUE_SLOT_SIZE>,
    after: SolidityMapping<K, V, SLOT, VALUE_SLOT_SIZE>,
    storage: SmartContractStorage,
    k: K,
    v: V,
)
    requires
        after.values() == before.values().insert(k, v),
    ensures
        after.lookup(&storage, k) == Some(v),
{
}

/// Invalidating any slot of a read value forgets that value, and only it,
/// where the values of distinct keys occupy distinct slots: the next read
/// of the key decodes it from storage again, and every other key keeps what
/// it had.
pub proof fn law_invalidate_forgets_the_value_there<K: MappingKey, V: StorageDecodable, const SLOT: u128, const VALUE_SLOT_SIZE: usize>(
    before: SolidityMapping<K, V, SLOT, VALUE_SLOT_SIZE>,
    after: SolidityMapping<K, V, SLOT, VALUE_SLOT_SIZE>,
    slot: U256,
    k: K,
)
    requires
        before.coherent(),
        before.owners().contains_key(slot) ==> after.values() == before.values().remove(before.owners()[slot]),
        !before.owners().contains_key(slot) ==> after.values() == before.values(),
        before.values().contains_key(k),
        SolidityMapping::<K, V, SLOT, VALUE_SLOT_SIZE>::holds_value_of(slot, k),
        forall|other: K| #[trigger] SolidityMapping::<K, V, SLOT, VALUE_SLOT_SIZE>::holds_value_of(slot, other) ==> other == k,
    ensures
        !after.values().contains_key(k),
        after.values() == before.values().remove(k),
{
    let i = choose|i: nat| i < VALUE_SLOT_SIZE && slot == #[trigger] slot_after(mapping_value_slot(k.key_word(), SLOT as nat), i);
    assert(before.owners().contains_key(slot_after(mapping_value_slot(k.key_word(), SLOT as nat), i)));
    assert(SolidityMapping::<K, V, SLOT, VALUE_SLOT_SIZE>::holds_value_of(slot, before.owners()[slot]));
}

} // verus!
