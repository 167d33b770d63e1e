//! The outside collections this library is built on, with the contracts that
//! the verified code relies on.
use crate::model::{Fees, SlotPriorityFees};
use vstd::prelude::*;

verus! {

/// The fast, non-cryptographic hasher used by every concurrent map and set.
pub type RapidState = rapidhash::fast::RandomState;

/// An account: its 32-byte public key.
pub type Account = [u8; 32];

/// The fees of each account seen in a slot.
pub type AccountFeeMap = dashmap::DashMap<Account, Fees, RapidState>;

/// The concurrent map holding the record of each live slot.
pub type SlotFeeMap = dashmap::DashMap<u64, SlotPriorityFees, RapidState>;

#[verifier::external_type_specification]
#[verifier::external_body]
pub struct ExRapidState<
    const AVALANCHE: bool,
    const SPONGE: bool,
    const COMPACT: bool,
    const PROTECTED: bool,
>(rapidhash::inner::RandomState<AVALANCHE, SPONGE, COMPACT, PROTECTED>);

#[verifier::external_type_specification]
#[verifier::external_body]
#[verifier::reject_recursive_types(T)]
pub struct ExCircularBuffer<T: Clone>(queues::CircularBuffer<T>);

#[verifier::external_type_specification]
#[verifier::external_body]
#[verifier::reject_recursive_types(K)]
#[verifier::reject_recursive_types(S)]
pub struct ExDashSet<K, S>(dashmap::DashSet<K, S>);

#[verifier::external_type_specification]
#[verifier::external_body]
#[verifier::reject_recursive_types(K)]
#[verifier::reject_recursive_types(V)]
#[verifier::reject_recursive_types(S)]
pub struct ExDashMap<K, V, S>(dashmap::DashMap<K, V, S>);

/// The slots a circular buffer holds, oldest first.
pub uninterp spec fn queue_contents(q: queues::CircularBuffer<u64>) -> Seq<u64>;

/// The capacity a circular buffer was created with.
pub uninterp spec fn queue_capacity(q: queues::CircularBuffer<u64>) -> nat;

/// The slots a concurrent set holds.
pub uninterp spec fn slot_set_contents(s: dashmap::DashSet<u64, RapidState>) -> Set<u64>;

/// Relies on `queues::CircularBuffer::new`: an empty buffer of the given capacity.
#[verifier::external_body]
pub(crate) fn queue_new(capacity: usize) -> (r: queues::CircularBuffer<u64>)
    ensures
        queue_contents(r) == Seq::<u64>::empty(),
        queue_capacity(r) == capacity as nat,
{
    queues::CircularBuffer::new(capacity)
}

/// Relies on `queues::IsQueue::add` for `CircularBuffer`: the value is appended;
/// when the buffer was already full, its oldest value is removed and returned.
/// It never fails.
#[verifier::external_body]
pub(crate) fn queue_add(q: &mut queues::CircularBuffer<u64>, v: u64) -> (r: Result<
    Option<u64>,
    (),
>)
    ensures
        queue_capacity(*final(q)) == queue_capacity(*old(q)),
        queue_contents(*old(q)).len() < queue_capacity(*old(q)) ==> {
            &&& r == Ok::<Option<u64>, ()>(None)
            &&& queue_contents(*final(q)) == queue_contents(*old(q)).push(v)
        },
        queue_contents(*old(q)).len() >= queue_capacity(*old(q)) ==> {
            &&& r == Ok::<Option<u64>, ()>(Some(queue_contents(*old(q)).push(v)[0]))
            &&& queue_contents(*final(q)) == queue_contents(*old(q)).push(v).drop_first()
        },
{
    queues::IsQueue::add(q, v).map_err(|_| ())
}

/// Relies on `dashmap::DashSet::default`: an empty set.
#[verifier::external_body]
pub(crate) fn slot_set_new() -> (r: dashmap::DashSet<u64, RapidState>)
    ensures
        slot_set_contents(r) == Set::<u64>::empty(),
{
    dashmap::DashSet::default()
}

/// Relies on `dashmap::DashSet::contains`: membership.
#[verifier::external_body]
pub(crate) fn slot_set_contains(s: &dashmap::DashSet<u64, RapidState>, k: u64) -> (r: bool)
    ensures
        r == slot_set_contents(*s).contains(k),
{
    s.contains(&k)
}

/// Relies on `dashmap::DashSet::insert`: the key is added.
#[verifier::external_body]
pub(crate) fn slot_set_insert(s: &mut dashmap::DashSet<u64, RapidState>, k: u64)
    ensures
        slot_set_contents(*final(s)) == slot_set_contents(*old(s)).insert(k),
{
    s.insert(k);
}

/// Relies on `dashmap::DashSet::remove`: the key is taken out.
#[verifier::external_body]
pub(crate) fn slot_set_remove(s: &mut dashmap::DashSet<u64, RapidState>, k: u64)
    ensures
        slot_set_contents(*final(s)) == slot_set_contents(*old(s)).remove(k),
{
    s.remove(&k);
}

/// Relies on `dashmap::DashSet::len`: the number of keys held.
#[verifier::external_body]
pub(crate) fn slot_set_len(s: &dashmap::DashSet<u64, RapidState>) -> (r: usize)
    ensures
        r as nat == slot_set_contents(*s).len(),
{
    s.len()
}

/// Relies on `dashmap::DashSet::iter`: every key is visited once, in no
/// particular order.
#[verifier::external_body]
pub(crate) fn slot_set_keys(s: &dashmap::DashSet<u64, RapidState>) -> (r: Vec<u64>)
    ensures
        r@.no_duplicates(),
        r@.to_set() == slot_set_contents(*s),
{
    s.iter().map(|k| *k).collect()
}

/// The fees recorded for each account of a slot.
pub uninterp spec fn account_map_contents(m: AccountFeeMap) -> Map<Account, Fees>;

/// The record kept for each live slot.
pub uninterp spec fn slot_map_contents(
    m: SlotFeeMap,
) -> Map<u64, SlotPriorityFees>;

/// Relies on `dashmap::DashMap::default`: an empty map.
#[verifier::external_body]
pub(crate) fn account_map_new() -> (r: AccountFeeMap)
    ensures
        account_map_contents(r).dom() == Set::<Account>::empty(),
{
    dashmap::DashMap::default()
}

/// Relies on `dashmap::DashMap::get`: a copy of the fees held for `k`.
#[verifier::external_body]
pub(crate) fn account_map_get(m: &AccountFeeMap, k: &Account) -> (r:
    Option<Fees>)
    ensures
        r is Some <==> account_map_contents(*m).contains_key(*k),
        r is Some ==> r.unwrap()@ == account_map_contents(*m)[*k]@,
{
    m.get(k).map(|f| f.value().clone())
}

/// Relies on `dashmap::DashMap::insert`: `k` now maps to `v`.
#[verifier::external_body]
pub(crate) fn account_map_insert(m: &mut AccountFeeMap, k: Account, v: Fees)
    ensures
        account_map_contents(*final(m)) == account_map_contents(*old(m)).insert(k, v),
{
    m.insert(k, v);
}

/// Relies on `dashmap::DashMap::default`: an empty map.
#[verifier::external_body]
pub(crate) fn slot_map_new() -> (r: SlotFeeMap)
    ensures
        slot_map_contents(r).dom() == Set::<u64>::empty(),
{
    dashmap::DashMap::default()
}

/// Relies on `dashmap::DashMap::get`: a copy of the record held for `k`
/// (a clone holds the same fees, and a clone of a `DashMap` the same entries).
#[verifier::external_body]
pub(crate) fn slot_map_get(m: &SlotFeeMap, k: u64) -> (r:
    Option<SlotPriorityFees>)
    ensures
        r is Some <==> slot_map_contents(*m).contains_key(k),
        r is Some ==> r.unwrap()@ == slot_map_contents(*m)[k]@,
{
    m.get(&k).map(
        |v|
            SlotPriorityFees {
                slot: v.slot,
                fees: v.fees.clone(),
                account_fees: v.account_fees.clone(),
            },
    )
}

/// Relies on `dashmap::DashMap::insert`: `k` now maps to `v`.
#[verifier::external_body]
pub(crate) fn slot_map_insert(m: &mut SlotFeeMap, k: u64, v: SlotPriorityFees)
    ensures
        slot_map_contents(*final(m)) == slot_map_contents(*old(m)).insert(k, v),
{
    m.insert(k, v);
}

/// Relies on `dashmap::DashMap::remove`: the entry of `k` is taken out and
/// its value returned.
#[verifier::external_body]
pub(crate) fn slot_map_remove(m: &mut SlotFeeMap, k: u64) -> (r:
    Option<SlotPriorityFees>)
    ensures
        slot_map_contents(*final(m)) == slot_map_contents(*old(m)).remove(k),
        r is Some <==> slot_map_contents(*old(m)).contains_key(k),
        r is Some ==> r.unwrap() == slot_map_contents(*old(m))[k],
{
    m.remove(&k).map(|(_, v)| v)
}

/// Relies on `dashmap::DashMap::iter`: every key is visited once, in no
/// particular order.
#[verifier::external_body]
pub(crate) fn slot_map_keys(m: &SlotFeeMap) -> (r: Vec<u64>)
    ensures
        r@.no_duplicates(),
        r@.to_set() == slot_map_contents(*m).dom(),
{
    m.iter().map(|e| *e.key()).collect()
}

/// The canonical (base-58) string form of a 32-byte public key.
pub uninterp spec fn account_string(key: Seq<u8>) -> Seq<char>;

/// Relies on `solana_sdk::pubkey::Pubkey`'s `to_string`: the canonical string
/// form of the key, which depends on its bytes alone.
#[verifier::external_body]
pub(crate) fn pubkey_to_string(key: &Account) -> (r: String)
    ensures
        r@ == account_string(key@),
{
    solana_sdk::pubkey::Pubkey::new_from_array(*key).to_string()
}

/// `s` without leading and trailing whitespace.
pub uninterp spec fn trim_of(s: Seq<char>) -> Seq<char>;

/// `s` in upper case.
pub uninterp spec fn upper_of(s: Seq<char>) -> Seq<char>;

/// Relies on `str::trim`: the string without leading and trailing whitespace,
/// which depends on its characters alone.
#[verifier::external_body]
pub(crate) fn trim_str(s: &str) -> (r: &str)
    ensures
        r@ == trim_of(s@),
{
    s.trim()
}

/// Relies on `str::to_uppercase`: the upper-case form of the string, which
/// depends on its characters alone.
#[verifier::external_body]
pub(crate) fn uppercase_str(s: &str) -> (r: String)
    ensures
        r@ == upper_of(s@),
{
    s.to_uppercase()
}

} // verus!
