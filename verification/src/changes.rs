//! The storage changes of one contract in one block, as the state monitor
//! gathers them: a `hashbrown` map from slot to new value.

use crate::cache::entries_map;
use crate::word::U256;
use vstd::prelude::*;

verus! {

/// The changed slots of one contract, keyed by slot.
#[verifier::external_body]
pub struct StorageChanges {
    map: hashbrown::HashMap<alloy_primitives::U256, alloy_primitives::U256>,
}

/// What the map holds: each changed slot with its new value.
pub uninterp spec fn changes_contents(changes: StorageChanges) -> Map<nat, nat>;

/// `hashbrown::HashMap::new`: an empty map.
#[verifier::external_body]
fn changes_new() -> (r: StorageChanges)
    ensures
        changes_contents(r) =~= Map::empty(),
{
    StorageChanges { map: hashbrown::HashMap::new() }
}

/// `hashbrown::HashMap::insert`: the slot now maps to the value, every other
/// slot is unchanged.
#[verifier::external_body]
fn changes_insert(c: &mut StorageChanges, slot: U256, value: U256)
    ensures
        changes_contents(*final(c)) == changes_contents(*old(c)).insert(slot@, value@),
{
    c.map.insert(alloy_primitives::U256::from_limbs([slot.l0, slot.l1, slot.l2, slot.l3]), alloy_primitives::U256::from_limbs([value.l0, value.l1, value.l2, value.l3]));
}

/// `hashbrown::HashMap::get`: the value of a slot, if it changed.
#[verifier::external_body]
fn changes_get(c: &StorageChanges, slot: U256) -> (r: Option<U256>)
    ensures
        r is Some <==> changes_contents(*c).contains_key(slot@),
        r matches Some(v) ==> v@ == changes_contents(*c)[slot@],
{
    let l = c.map.get(&alloy_primitives::U256::from_limbs([slot.l0, slot.l1, slot.l2, slot.l3]))?.into_limbs();
    Some(U256 { l0: l[0], l1: l[1], l2: l[2], l3: l[3] })
}

/// `hashbrown::HashMap::iter`, each entry converted to a pair of words: every
/// slot of the map once, in the map's own order.
#[verifier::external_body]
fn changes_entries(c: &StorageChanges) -> (r: Vec<(U256, U256)>)
    ensures
        forall|i: int| 0 <= i < r@.len() ==> changes_contents(*c).contains_key(#[trigger] r@[i].0@)
            && changes_contents(*c)[r@[i].0@] == r@[i].1@,
        forall|k: nat| changes_contents(*c).contains_key(k) ==> exists|i: int| 0 <= i < r@.len() && #[trigger] r@[i].0@ == k,
        forall|i: int, j: int| 0 <= i < j < r@.len() ==> r@[i].0@ != r@[j].0@,
{
    c.map.iter().map(|(k, v)| { let (k, v) = (k.into_limbs(), v.into_limbs()); (U256 { l0: k[0], l1: k[1], l2: k[2], l3: k[3] }, U256 { l0: v[0], l1: v[1], l2: v[2], l3: v[3] }) }).collect()
}

impl StorageChanges {
    /// The changes holding the given slots and values; a later entry for the
    /// same slot replaces an earlier one.
    pub fn from_entries(entries: &Vec<(U256, U256)>) -> (c: StorageChanges)
        ensures
            changes_contents(c) == entries_map(entries@.map_values(|e: (U256, U256)| (e.0@, e.1@))),
    {
        let ghost view = |e: (U256, U256)| (e.0@, e.1@);
        let mut c = changes_new();
        let mut i: usize = 0;
        while i < entries.len()
            invariant
                i <= entries@.len(),
                view == (|e: (U256, U256)| (e.0@, e.1@)),
                changes_contents(c) == entries_map(entries@.subrange(0, i as int).map_values(view)),
            decreases entries@.len() - i,
        {
            let (slot, value) = entries[i];
            changes_insert(&mut c, slot, value);
            proof {
                assert(entries@.subrange(0, i + 1).map_values(view).drop_last() =~= entries@.subrange(0, i as int).map_values(view));
                assert(entries@.subrange(0, i + 1).map_values(view).last() == (slot@, value@));
            }
            i = i + 1;
        }
        proof {
            assert(entries@.subrange(0, i as int) =~= entries@);
        }
        c
    }

    /// The new value of a slot, if it changed.
    pub fn get(&self, slot: U256) -> (r: Option<U256>)
        ensures
            r is Some <==> changes_contents(*self).contains_key(slot@),
            r matches Some(v) ==> v@ == changes_contents(*self)[slot@],
    {
        changes_get(self, slot)
    }

    /// Every changed slot once, with its new value.
    pub fn entries(&self) -> (r: Vec<(U256, U256)>)
        ensures
            forall|i: int| 0 <= i < r@.len() ==> changes_contents(*self).contains_key(#[trigger] r@[i].0@)
                && changes_contents(*self)[r@[i].0@] == r@[i].1@,
            forall|k: nat| changes_contents(*self).contains_key(k) ==> exists|i: int| 0 <= i < r@.len() && #[trigger] r@[i].0@ == k,
            forall|i: int, j: int| 0 <= i < j < r@.len() ==> r@[i].0@ != r@[j].0@,
    {
        changes_entries(self)
    }
}

} // verus!
