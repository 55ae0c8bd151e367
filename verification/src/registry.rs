//! The decisions of the protocol registry: which protocols to scan for new
//! pools and from which block, how stored pool records group by protocol,
//! and which of several quotes is the value of a token.

use crate::cache::keys_distinct;
use crate::protocols::ProtocolKind;
use crate::token::Address;
use crate::word::U256;
use vstd::prelude::*;

verus! {

/// The kinds of protocol a stored pool record names.
#[derive(Clone, Copy, PartialEq, Eq, Structural, Debug)]
pub enum ProtocolType {
    UniswapV2,
    UniswapV3,
}

impl ProtocolType {
    /// The protocol type stored as an integer: 0 for Uniswap V2, 1 for
    /// Uniswap V3; no other value names a protocol.
    pub fn from(value: i32) -> (t: ProtocolType)
        requires
            value == 0 || value == 1,
        ensures
            value == 0 ==> t == ProtocolType::UniswapV2,
            value == 1 ==> t == ProtocolType::UniswapV3,
    {
        if value == 0 {
            ProtocolType::UniswapV2
        } else {
            ProtocolType::UniswapV3
        }
    }
}

/// A stored pool: its address and its protocol type.
#[derive(Clone, Copy, PartialEq, Eq, Structural, Debug)]
pub struct PoolRecord {
    pub address: Address,
    pub protocol: ProtocolType,
}

/// A stored pool: its address and the identifier of its protocol.
#[derive(Clone, Debug)]
pub struct IdentifiedLiquidityPool {
    pub address: Address,
    pub protocol: String,
}

/// The block a protocol's scan for new pools starts from: the last block
/// scanned, or the first block if it never was.
pub open spec fn scan_start(last: Option<u64>) -> u64 {
    match last {
        Some(b) => b,
        None => 0,
    }
}

/// The protocols to scan for new pools up to block `to`, each with the block
/// to scan from: every protocol whose start is not past `to`, in order.
pub open spec fn scan_plan(last_blocks: Seq<(String, Option<u64>)>, to: u64) -> Seq<(String, u64)>
    decreases last_blocks.len(),
{
    if last_blocks.len() == 0 {
        Seq::empty()
    } else {
        let rest = scan_plan(last_blocks.drop_last(), to);
        let (id, last) = last_blocks.last();
        if scan_start(last) > to {
            rest
        } else {
            rest.push((id, scan_start(last)))
        }
    }
}

/// The scans for new pools up to block `to`, from each protocol's last
/// scanned block.
pub fn discovery_plan(last_blocks: &Vec<(String, Option<u64>)>, to: u64) -> (r: Vec<(String, u64)>)
    ensures
        r@ == scan_plan(last_blocks@, to),
{
    let mut r: Vec<(String, u64)> = Vec::new();
    let mut i: usize = 0;
    while i < last_blocks.len()
        invariant
            i <= last_blocks@.len(),
            r@ == scan_plan(last_blocks@.subrange(0, i as int), to),
        decreases last_blocks@.len() - i,
    {
        let start = match last_blocks[i].1 {
            Some(b) => b,
            None => 0,
        };
        proof {
            assert(last_blocks@.subrange(0, i + 1).drop_last() =~= last_blocks@.subrange(0, i as int));
        }
        if start <= to {
            let id = last_blocks[i].0.clone();
            r.push((id, start));
        }
        i = i + 1;
    }
    proof {
        assert(last_blocks@.subrange(0, i as int) =~= last_blocks@);
    }
    r
}

/// The value of a token: the best of its quotes, or zero without one.
pub open spec fn best_of(values: Seq<U256>) -> nat
    decreases values.len(),
{
    if values.len() == 0 {
        0
    } else {
        let rest = best_of(values.drop_last());
        if values.last()@ > rest {
            values.last()@
        } else {
            rest
        }
    }
}

/// The value of a token is one of its quotes, and no quote exceeds it.
pub proof fn law_best_of_is_a_largest_quote(values: Seq<U256>)
    ensures
        forall|i: int| 0 <= i < values.len() ==> #[trigger] values[i]@ <= best_of(values),
        values.len() > 0 ==> exists|i: int| 0 <= i < values.len() && #[trigger] values[i]@ == best_of(values),
    decreases values.len(),
{
    if values.len() > 0 {
        let rest = values.drop_last();
        law_best_of_is_a_largest_quote(rest);
        assert forall|i: int| 0 <= i < values.len() implies #[trigger] values[i]@ <= best_of(values) by {
            if i < values.len() - 1 {
                assert(rest[i] == values[i]);
            }
        }
        if values.last()@ <= best_of(rest) && rest.len() > 0 {
            let j = choose|j: int| 0 <= j < rest.len() && #[trigger] rest[j]@ == best_of(rest);
            assert(values[j] == rest[j]);
        }
        if values.last()@ > best_of(rest) || rest.len() == 0 {
            assert(values[values.len() - 1]@ == values.last()@);
        }
    }
}

/// The best of several quotes of a token's value; zero without a quote.
pub fn best_value(values: &Vec<U256>) -> (r: U256)
    ensures
        r@ == best_of(values@),
{
    let mut best = U256::from_u64(0);
    let mut i: usize = 0;
    while i < values.len()
        invariant
            i <= values@.len(),
            best@ == best_of(values@.subrange(0, i as int)),
        decreases values@.len() - i,
    {
        proof {
            assert(values@.subrange(0, i + 1).drop_last() =~= values@.subrange(0, i as int));
        }
        if best.lt(&values[i]) {
            best = values[i];
        }
        i = i + 1;
    }
    proof {
        assert(values@.subrange(0, i as int) =~= values@);
    }
    best
}

/// The addresses of the records of one protocol, in order.
pub open spec fn protocol_addresses(records: Seq<IdentifiedLiquidityPool>, protocol: Seq<char>) -> Seq<Address>
    decreases records.len(),
{
    if records.len() == 0 {
        Seq::empty()
    } else {
        let rest = protocol_addresses(records.drop_last(), protocol);
        if records.last().protocol@ == protocol {
            rest.push(records.last().address)
        } else {
            rest
        }
    }
}

/// The addresses of the records of one protocol.
fn addresses_of(records: &Vec<IdentifiedLiquidityPool>, protocol: &String) -> (r: Vec<Address>)
    ensures
        r@ == protocol_addresses(records@, protocol@),
{
    let mut r: Vec<Address> = Vec::new();
    let mut i: usize = 0;
    while i < records.len()
        invariant
            i <= records@.len(),
            r@ == protocol_addresses(records@.subrange(0, i as int), protocol@),
        decreases records@.len() - i,
    {
        proof {
            assert(records@.subrange(0, i + 1).drop_last() =~= records@.subrange(0, i as int));
        }
        if records[i].protocol == *protocol {
            r.push(records[i].address);
        }
        i = i + 1;
    }
    proof {
        assert(records@.subrange(0, i as int) =~= records@);
    }
    r
}

/// Some name in the list is the protocol.
#[verifier::opaque]
pub open spec fn names_protocol(names: Seq<String>, protocol: Seq<char>) -> bool {
    exists|a: int| 0 <= a < names.len() && names[a]@ == protocol
}

/// Some record among the first `n` names the protocol.
#[verifier::opaque]
pub open spec fn has_record(records: Seq<IdentifiedLiquidityPool>, n: int, protocol: Seq<char>) -> bool {
    exists|k: int| 0 <= k < n && records[k].protocol@ == protocol
}

/// Whether some name in the list is the protocol.
fn contains_protocol(names: &Vec<String>, protocol: &String) -> (b: bool)
    ensures
        b == names_protocol(names@, protocol@),
{
    reveal(names_protocol);
    let mut j: usize = 0;
    while j < names.len()
        invariant
            j <= names@.len(),
            forall|a: int| 0 <= a < j ==> names@[a]@ != protocol@,
        decreases names@.len() - j,
    {
        if names[j] == *protocol {
            proof {
                reveal(names_protocol);
                assert(names@[j as int]@ == protocol@);
            }
            return true;
        }
        j = j + 1;
    }
    false
}

/// The protocols the records name, each once, in the order they first
/// appear.
fn protocols_of(records: &Vec<IdentifiedLiquidityPool>) -> (r: Vec<String>)
    ensures
        forall|a: int, b: int| 0 <= a < b < r@.len() ==> r@[a]@ != r@[b]@,
        forall|a: int| 0 <= a < r@.len() ==> has_record(records@, records@.len() as int, #[trigger] r@[a]@),
        forall|k: int| 0 <= k < records@.len() ==> names_protocol(r@, #[trigger] records@[k].protocol@),
{
    let mut r: Vec<String> = Vec::new();
    let mut i: usize = 0;
    while i < records.len()
        invariant
            i <= records@.len(),
            forall|a: int, b: int| 0 <= a < b < r@.len() ==> r@[a]@ != r@[b]@,
            forall|a: int| 0 <= a < r@.len() ==> has_record(records@, i as int, #[trigger] r@[a]@),
            forall|k: int| 0 <= k < i ==> names_protocol(r@, #[trigger] records@[k].protocol@),
        decreases records@.len() - i,
    {
        let found = contains_protocol(&r, &records[i].protocol);
        let ghost before = r@;
        if !found {
            r.push(records[i].protocol.clone());
        }
        proof {
            reveal(names_protocol);
            reveal(has_record);
            assert forall|a: int, b: int| 0 <= a < b < r@.len() implies r@[a]@ != r@[b]@ by {
                if b == r@.len() - 1 && !found {
                    assert(before[a] == r@[a]);
                }
            }
            assert forall|a: int| 0 <= a < r@.len() implies has_record(records@, i + 1, #[trigger] r@[a]@) by {
                if a < before.len() {
                    assert(has_record(records@, i as int, before[a]@));
                    let k = choose|k: int| 0 <= k < i && records@[k].protocol@ == before[a]@;
                    assert(records@[k].protocol@ == r@[a]@);
                } else {
                    assert(records@[i as int].protocol@ == r@[a]@);
                }
            }
            assert forall|k: int| 0 <= k < i + 1 implies names_protocol(r@, #[trigger] records@[k].protocol@) by {
                if k < i {
                    assert(names_protocol(before, records@[k].protocol@));
                    let a = choose|a: int| 0 <= a < before.len() && before[a]@ == records@[k].protocol@;
                    assert(r@[a] == before[a]);
                } else if found {
                    let a = choose|a: int| 0 <= a < before.len() && before[a]@ == records@[k].protocol@;
                    assert(r@[a] == before[a]);
                } else {
                    assert(r@[r@.len() - 1]@ == records@[k].protocol@);
                }
            }
        }
        i = i + 1;
    }
    r
}

/// The stored records grouped by protocol: each protocol a record names,
/// once, with the addresses of its records in order.
pub fn group_by_protocol(records: &Vec<IdentifiedLiquidityPool>) -> (groups: Vec<(String, Vec<Address>)>)
    ensures
        forall|a: int, b: int| 0 <= a < b < groups@.len() ==> groups@[a].0@ != groups@[b].0@,
        forall|a: int| 0 <= a < groups@.len() ==> #[trigger] groups@[a].1@ == protocol_addresses(records@, groups@[a].0@),
        forall|a: int| 0 <= a < groups@.len() ==> has_record(records@, records@.len() as int, #[trigger] groups@[a].0@),
        forall|k: int| 0 <= k < records@.len() ==> names_protocol(groups@.map_values(|g: (String, Vec<Address>)| g.0), #[trigger] records@[k].protocol@),
{
    let protocols = protocols_of(records);
    let mut groups: Vec<(String, Vec<Address>)> = Vec::new();
    let mut i: usize = 0;
    while i < protocols.len()
        invariant
            i <= protocols@.len(),
            groups@.len() == i,
            forall|a: int| 0 <= a < i ==> #[trigger] groups@[a].0 == protocols@[a],
            forall|a: int| 0 <= a < i ==> #[trigger] groups@[a].1@ == protocol_addresses(records@, protocols@[a]@),
        decreases protocols@.len() - i,
    {
        let addresses = addresses_of(records, &protocols[i]);
        groups.push((protocols[i].clone(), addresses));
        i = i + 1;
    }
    proof {
        assert(groups@.map_values(|g: (String, Vec<Address>)| g.0) =~= protocols@);
        assert forall|a: int| 0 <= a < groups@.len() implies has_record(records@, records@.len() as int, #[trigger] groups@[a].0@) by {
            assert(groups@[a].0 == protocols@[a]);
        }
    }
    groups
}

/// Registers a protocol with its factory: an entry of the same protocol is
/// replaced in place, else the protocol is added at the end. A registry that
/// holds each protocol once still does.
pub fn register_protocol(protocols: &mut Vec<(ProtocolKind, Address)>, kind: ProtocolKind, factory: Address)
    ensures
        (exists|i: int| 0 <= i < old(protocols)@.len() && #[trigger] old(protocols)@[i].0 == kind) ==> {
            &&& final(protocols)@.len() == old(protocols)@.len()
            &&& forall|i: int| 0 <= i < old(protocols)@.len() ==> #[trigger] final(protocols)@[i] == if old(protocols)@[i].0 == kind { (kind, factory) } else { old(protocols)@[i] }
        },
        !(exists|i: int| 0 <= i < old(protocols)@.len() && #[trigger] old(protocols)@[i].0 == kind) ==> final(protocols)@ == old(protocols)@.push((kind, factory)),
        keys_distinct(old(protocols)@) ==> keys_distinct(final(protocols)@),
{
    let mut found = false;
    let mut i: usize = 0;
    while i < protocols.len()
        invariant
            i <= protocols@.len(),
            protocols@.len() == old(protocols)@.len(),
            found == exists|j: int| 0 <= j < i && #[trigger] old(protocols)@[j].0 == kind,
            forall|j: int| 0 <= j < i ==> #[trigger] protocols@[j] == if old(protocols)@[j].0 == kind { (kind, factory) } else { old(protocols)@[j] },
            forall|j: int| i <= j < protocols@.len() ==> #[trigger] protocols@[j] == old(protocols)@[j],
        decreases protocols@.len() - i,
    {
        if protocols[i].0 == kind {
            protocols.set(i, (kind, factory));
            found = true;
        }
        i = i + 1;
    }
    if !found {
        protocols.push((kind, factory));
        proof {
            assert(protocols@ =~= old(protocols)@.push((kind, factory)));
        }
    }
    proof {
        if keys_distinct(old(protocols)@) {
            assert forall|a: int, b: int| 0 <= a < b < protocols@.len() implies protocols@[a].0 != protocols@[b].0 by {
                if b == old(protocols)@.len() {
                    assert(old(protocols)@[a].0 != kind);
                }
            }
        }
    }
}

} // verus!
