//! Small association maps behind the engine's caches: keys compared by value,
//! a later entry for a key standing in place of an earlier one.

use crate::word::{word_modulus, U256};
use vstd::prelude::*;

verus! {

/// A key of a cache: it can be compared, and it has the 256-bit word that
/// Solidity hashes when the key indexes a storage mapping.
pub trait MappingKey: Copy + Sized {
    /// The key as a 256-bit word (two's complement for a negative key).
    spec fn key_word(&self) -> nat;

    fn key_eq(&self, other: &Self) -> (b: bool)
        ensures
            b == (*self == *other);

    fn into_u256(&self) -> (w: U256)
        ensures
            w@ == self.key_word();
}

impl MappingKey for U256 {
    open spec fn key_word(&self) -> nat {
        self@
    }

    fn key_eq(&self, other: &Self) -> (b: bool) {
        *self == *other
    }

    fn into_u256(&self) -> (w: U256) {
        *self
    }
}

/// A negative integer of at most 64 bits, sign-extended to 256 bits.
fn sign_extend(x: i64) -> (w: U256)
    requires
        x < 0,
        x > i64::MIN,
    ensures
        w@ == word_modulus() + x,
{
    let neg = (-x) as u64;
    let w = U256 {
        l0: 0xFFFF_FFFF_FFFF_FFFF - (neg - 1),
        l1: 0xFFFF_FFFF_FFFF_FFFF,
        l2: 0xFFFF_FFFF_FFFF_FFFF,
        l3: 0xFFFF_FFFF_FFFF_FFFF,
    };
    w
}

impl MappingKey for i16 {
    open spec fn key_word(&self) -> nat {
        if *self < 0 {
            (word_modulus() + *self) as nat
        } else {
            *self as nat
        }
    }

    fn key_eq(&self, other: &Self) -> (b: bool) {
        *self == *other
    }

    fn into_u256(&self) -> (w: U256) {
        if *self < 0 {
            sign_extend(*self as i64)
        } else {
            U256::from_u64(*self as u64)
        }
    }
}

impl MappingKey for i32 {
    open spec fn key_word(&self) -> nat {
        if *self < 0 {
            (word_modulus() + *self) as nat
        } else {
            *self as nat
        }
    }

    fn key_eq(&self, other: &Self) -> (b: bool) {
        *self == *other
    }

    fn into_u256(&self) -> (w: U256) {
        if *self < 0 {
            sign_extend(*self as i64)
        } else {
            U256::from_u64(*self as u64)
        }
    }
}

/// The map an entry list stands for: each entry in turn, a later one for a
/// key replacing an earlier one.
pub open spec fn entries_map<K, V>(s: Seq<(K, V)>) -> Map<K, V>
    decreases s.len(),
{
    if s.len() == 0 {
        Map::empty()
    } else {
        entries_map(s.drop_last()).insert(s.last().0, s.last().1)
    }
}

/// Entries after index `i` do not hold the key, so the prefix decides it.
proof fn lemma_entries_map_prefix<K, V>(s: Seq<(K, V)>, i: int, k: K)
    requires
        0 <= i <= s.len(),
        forall|j: int| i <= j < s.len() ==> s[j].0 != k,
    ensures
        entries_map(s).contains_key(k) == entries_map(s.subrange(0, i)).contains_key(k),
        entries_map(s).contains_key(k) ==> entries_map(s)[k] == entries_map(s.subrange(0, i))[k],
    decreases s.len() - i,
{
    if i < s.len() {
        let t = s.drop_last();
        lemma_entries_map_prefix(t, i, k);
        assert(t.subrange(0, i) =~= s.subrange(0, i));
    } else {
        assert(s.subrange(0, i) =~= s);
    }
}

/// The entries hold each key at most once.
pub open spec fn keys_distinct<K, V>(s: Seq<(K, V)>) -> bool {
    forall|i: int, j: int| 0 <= i < j < s.len() ==> s[i].0 != s[j].0
}

/// A key is in the map of the entries exactly when some entry holds it.
pub proof fn lemma_entries_map_keys<K, V>(s: Seq<(K, V)>, k: K)
    ensures
        entries_map(s).contains_key(k) <==> exists|j: int| 0 <= j < s.len() && s[j].0 == k,
    decreases s.len(),
{
    if s.len() > 0 {
        lemma_entries_map_keys(s.drop_last(), k);
        if entries_map(s.drop_last()).contains_key(k) {
            let j = choose|j: int| 0 <= j < s.drop_last().len() && s.drop_last()[j].0 == k;
            assert(s[j].0 == k);
        }
        if exists|j: int| 0 <= j < s.len() && s[j].0 == k {
            let j = choose|j: int| 0 <= j < s.len() && s[j].0 == k;
            if j < s.len() - 1 {
                assert(s.drop_last()[j].0 == k);
            }
        }
    }
}

/// With distinct keys, the map of the entries gives each entry's value.
pub proof fn lemma_entries_map_value<K, V>(s: Seq<(K, V)>, j: int)
    requires
        keys_distinct(s),
        0 <= j < s.len(),
    ensures
        entries_map(s).contains_key(s[j].0),
        entries_map(s)[s[j].0] == s[j].1,
{
    lemma_entries_map_prefix(s, j + 1, s[j].0);
    let t = s.subrange(0, j + 1);
    assert(t.drop_last() =~= s.subrange(0, j));
}

/// A map kept as a list of entries, each key once.
pub struct KeyMap<K, V> {
    entries: Vec<(K, V)>,
}

impl<K, V> KeyMap<K, V> {
    #[verifier::type_invariant]
    spec fn wf(self) -> bool {
        keys_distinct(self.entries@)
    }
}

impl<K: MappingKey, V: Copy> KeyMap<K, V> {
    pub closed spec fn view_map(&self) -> Map<K, V> {
        entries_map(self.entries@)
    }

    pub fn new() -> (m: KeyMap<K, V>)
        ensures
            m.view_map() == Map::<K, V>::empty(),
    {
        KeyMap { entries: Vec::new() }
    }

    /// The value of a key, if the map holds it.
    pub fn get(&self, k: &K) -> (r: Option<V>)
        ensures
            r is Some <==> self.view_map().contains_key(*k),
            r matches Some(v) ==> v == self.view_map()[*k],
    {
        let mut i = self.entries.len();
        while i > 0
            invariant
                i <= self.entries@.len(),
                forall|j: int| i <= j < self.entries@.len() ==> self.entries@[j].0 != *k,
            decreases i,
        {
            let e = self.entries[i - 1];
            if e.0.key_eq(k) {
                proof {
                    let s = self.entries@;
                    lemma_entries_map_prefix(s, i as int, *k);
                    assert(s.subrange(0, i as int).drop_last() =~= s.subrange(0, i - 1));
                }
                return Some(e.1);
            }
            i = i - 1;
        }
        proof {
            lemma_entries_map_prefix(self.entries@, 0, *k);
        }
        None
    }

    /// Maps the key to the value; every other key keeps its value.
    pub fn insert(&mut self, k: K, v: V)
        ensures
            final(self).view_map() == old(self).view_map().insert(k, v),
    {
        let kept = self.without(&k);
        let ghost removed = kept@;
        let mut entries = kept;
        entries.push((k, v));
        proof {
            assert(entries@.drop_last() =~= removed);
            assert(entries_map(removed).insert(k, v) =~= old(self).view_map().insert(k, v));
            lemma_entries_map_keys(removed, k);
            assert forall|i: int, j: int| 0 <= i < j < entries@.len() implies entries@[i].0 != entries@[j].0 by {
                if j == entries@.len() - 1 {
                    assert(removed[i].0 == entries@[i].0);
                }
            }
        }
        self.entries = entries;
    }

    /// The entries without the key, each other key once.
    fn without(&self, k: &K) -> (kept: Vec<(K, V)>)
        ensures
            entries_map(kept@) == self.view_map().remove(*k),
            keys_distinct(kept@),
    {
        proof {
            use_type_invariant(self);
        }
        let mut kept: Vec<(K, V)> = Vec::new();
        let mut i: usize = 0;
        while i < self.entries.len()
            invariant
                i <= self.entries@.len(),
                keys_distinct(self.entries@),
                keys_distinct(kept@),
                forall|j: int| 0 <= j < kept@.len() ==> exists|m: int| 0 <= m < i && #[trigger] kept@[j].0 == self.entries@[m].0,
                entries_map(kept@) =~= entries_map(self.entries@.subrange(0, i as int)).remove(*k),
            decreases self.entries@.len() - i,
        {
            let e = self.entries[i];
            proof {
                assert(self.entries@.subrange(0, i + 1).drop_last() =~= self.entries@.subrange(0, i as int));
            }
            if !e.0.key_eq(k) {
                let ghost before = kept@;
                kept.push(e);
                proof {
                    assert(kept@.drop_last() =~= before);
                    assert forall|a: int, b: int| 0 <= a < b < kept@.len() implies kept@[a].0 != kept@[b].0 by {
                        if b == kept@.len() - 1 {
                            let m = choose|m: int| 0 <= m < i && #[trigger] before[a].0 == self.entries@[m].0;
                            assert(kept@[a].0 == before[a].0);
                        }
                    }
                    assert forall|j: int| 0 <= j < kept@.len() implies exists|m: int| 0 <= m < i + 1 && #[trigger] kept@[j].0 == self.entries@[m].0 by {
                        if j == kept@.len() - 1 {
                            assert(kept@[j].0 == self.entries@[i as int].0);
                        } else {
                            assert(kept@[j] == before[j]);
                        }
                    }
                }
            }
            i = i + 1;
        }
        proof {
            assert(self.entries@.subrange(0, i as int) =~= self.entries@);
        }
        kept
    }

    /// Removes the key; every other key keeps its value.
    pub fn remove(&mut self, k: &K)
        ensures
            final(self).view_map() == old(self).view_map().remove(*k),
    {
        let kept = self.without(k);
        self.entries = kept;
    }

    /// Removes every key.
    pub fn clear(&mut self)
        ensures
            final(self).view_map() == Map::<K, V>::empty(),
    {
        self.entries = Vec::new();
    }

    /// Every entry, each key once.
    pub fn to_vec(&self) -> (r: Vec<(K, V)>)
        ensures
            entries_map(r@) == self.view_map(),
            keys_distinct(r@),
    {
        proof {
            use_type_invariant(self);
        }
        let mut r: Vec<(K, V)> = Vec::new();
        let mut i: usize = 0;
        while i < self.entries.len()
            invariant
                i <= self.entries@.len(),
                r@ =~= self.entries@.subrange(0, i as int),
            decreases self.entries@.len() - i,
        {
            r.push(self.entries[i]);
            i = i + 1;
        }
        proof {
            assert(r@ =~= self.entries@);
        }
        r
    }
}


/// Distinct tick keys hash as distinct words: the 256-bit two's complement
/// word of a tick determines the tick.
pub proof fn law_tick_key_word_injective(a: i32, b: i32)
    ensures
        a.key_word() == b.key_word() ==> a == b,
{
}

/// Distinct bitmap word positions hash as distinct words.
pub proof fn law_word_position_key_word_injective(a: i16, b: i16)
    ensures
        a.key_word() == b.key_word() ==> a == b,
{
}

} // verus!
