//! The sharded hash map as a slot table, for string keys and byte values.

use crate::slot::{Slot, SlotMeta};
use crate::table::{expired_keys, lists_costs, SlotTable};
use ahash::RandomState;
use dashmap::DashMap;
use vstd::prelude::*;

verus! {

#[verifier::external_type_specification]
#[verifier::external_body]
#[verifier::reject_recursive_types(K)]
#[verifier::reject_recursive_types(V)]
#[verifier::reject_recursive_types(S)]
pub struct ExDashMap<K, V, S>(dashmap::DashMap<K, V, S>);

#[verifier::external_type_specification]
#[verifier::external_body]
pub struct ExRandomState(ahash::RandomState);

/// What a `DashMap` holds, its keys given by their characters.
pub uninterp spec fn dash_slots(
    map: DashMap<String, Slot<Vec<u8>>, RandomState>,
) -> Map<Seq<char>, Slot<Vec<u8>>>;

/// `ahash::RandomState::new`: a randomly keyed hasher. Nothing is claimed of
/// it.
#[verifier::external_body]
fn random_state() -> RandomState {
    RandomState::new()
}

/// `DashMap::with_hasher`: a map that holds nothing.
#[verifier::external_body]
fn dash_new(hasher: RandomState) -> (table: DashMap<String, Slot<Vec<u8>>, RandomState>)
    ensures
        (dash_slots(table) == Map::<Seq<char>, Slot<Vec<u8>>>::empty()),
{
    DashMap::with_hasher(hasher)
}

/// `DashMap::get`: the slot under `key` if there is one, of which the
/// accounting fields are copied out.
#[verifier::external_body]
fn dash_meta(
    map: &DashMap<String, Slot<Vec<u8>>, RandomState>,
    key: &String,
) -> (meta: Option<SlotMeta>)
    ensures
        meta == (if dash_slots(*map).contains_key(key@) {
            Some(dash_slots(*map)[key@].accounting())
        } else {
            None
        }),
{
    map.get(key).map(|slot| slot.meta())
}

/// `DashMap::view`: `f` is run over the value under `key` if there is one, and
/// its result handed on.
#[verifier::external_body]
fn dash_read<R, F: FnOnce(&Vec<u8>) -> R>(
    map: &DashMap<String, Slot<Vec<u8>>, RandomState>,
    key: &String,
    f: F,
) -> (result: Option<R>)
    requires
        dash_slots(*map).contains_key(key@) ==> call_requires(f, (&dash_slots(*map)[key@].value,)),
    ensures
        match result {
            Some(r) => {
                &&& dash_slots(*map).contains_key(key@)
                &&& call_ensures(f, (&dash_slots(*map)[key@].value,), r)
            },
            None => !dash_slots(*map).contains_key(key@),
        },
{
    map.view(key, |_, slot| f(&slot.value))
}

/// `DashMap::insert`: `slot` is put under `key`, in place of what was there.
#[verifier::external_body]
fn dash_insert(
    map: &mut DashMap<String, Slot<Vec<u8>>, RandomState>,
    key: String,
    slot: Slot<Vec<u8>>,
)
    ensures
        dash_slots(*final(map)) == dash_slots(*old(map)).insert(key@, slot),
{
    map.insert(key, slot);
}

/// `DashMap::remove`: the slot under `key` is taken out and handed over, if
/// there is one.
#[verifier::external_body]
fn dash_remove(
    map: &mut DashMap<String, Slot<Vec<u8>>, RandomState>,
    key: &String,
) -> (slot: Option<Slot<Vec<u8>>>)
    ensures
        dash_slots(*final(map)) == dash_slots(*old(map)).remove(key@),
        slot == (if dash_slots(*old(map)).contains_key(key@) {
            Some(dash_slots(*old(map))[key@])
        } else {
            None
        }),
{
    map.remove(key).map(|pair| pair.1)
}

/// `DashMap::remove_if`: the slot under `key` is taken out and handed over, if
/// there is one and it is of the given generation.
#[verifier::external_body]
fn dash_remove_generation(
    map: &mut DashMap<String, Slot<Vec<u8>>, RandomState>,
    key: &String,
    generation: u64,
) -> (slot: Option<Slot<Vec<u8>>>)
    ensures
        if dash_slots(*old(map)).contains_key(key@) && dash_slots(*old(map))[key@].generation
            == generation {
            &&& slot == Some(dash_slots(*old(map))[key@])
            &&& dash_slots(*final(map)) == dash_slots(*old(map)).remove(key@)
        } else {
            &&& slot is None
            &&& dash_slots(*final(map)) == dash_slots(*old(map))
        },
{
    map.remove_if(key, |_, slot| slot.is_generation(generation)).map(|pair| pair.1)
}

/// `DashMap::get_mut`: the slot under `key`, if there is one, is changed in
/// place to the permanent one; the others stay.
#[verifier::external_body]
fn dash_cancel_ttl(map: &mut DashMap<String, Slot<Vec<u8>>, RandomState>, key: &String)
    ensures
        dash_slots(*final(map)) == (if dash_slots(*old(map)).contains_key(key@) {
            dash_slots(*old(map)).insert(key@, dash_slots(*old(map))[key@].pinned())
        } else {
            dash_slots(*old(map))
        }),
{
    map.get_mut(key).map(|mut slot| slot.cancel_ttl());
}

/// `DashMap::retain`: each slot is shown to the predicate once, in an order
/// left open, and dropped where the predicate is false; here those expired at
/// the given count, whose costs the predicate notes.
#[verifier::external_body]
fn dash_drop_expired(
    map: &mut DashMap<String, Slot<Vec<u8>>, RandomState>,
    now_micros: u128,
) -> (freed: Vec<usize>)
    ensures
        dash_slots(*final(map)) == dash_slots(*old(map)).remove_keys(
            expired_keys(dash_slots(*old(map)), now_micros as int),
        ),
        lists_costs(
            freed@,
            dash_slots(*old(map)),
            expired_keys(dash_slots(*old(map)), now_micros as int),
        ),
{
    let mut freed: Vec<usize> = Vec::new();
    map.retain(|_, slot| slot.survives(now_micros, &mut freed));
    freed
}

/// `DashMap::len`: the number of entries.
#[verifier::external_body]
fn dash_len(map: &DashMap<String, Slot<Vec<u8>>, RandomState>) -> (n: usize)
    ensures
        n == dash_slots(*map).len(),
{
    map.len()
}

/// `DashMap::is_empty`: whether there are no entries.
#[verifier::external_body]
fn dash_is_empty(map: &DashMap<String, Slot<Vec<u8>>, RandomState>) -> (empty: bool)
    ensures
        (empty == (dash_slots(*map) == Map::<Seq<char>, Slot<Vec<u8>>>::empty())),
{
    map.is_empty()
}

/// `DashMap::clear`: every entry is dropped.
#[verifier::external_body]
fn dash_clear(map: &mut DashMap<String, Slot<Vec<u8>>, RandomState>)
    ensures
        (dash_slots(*final(map)) == Map::<Seq<char>, Slot<Vec<u8>>>::empty()),
{
    map.clear();
}

/// A slot table kept in a `DashMap` hashed by `ahash`.
#[verifier::reject_recursive_types(K)]
#[verifier::reject_recursive_types(V)]
pub struct DashTable<K, V> {
    map: DashMap<K, Slot<V>, RandomState>,
}

impl SlotTable<String, Vec<u8>> for DashTable<String, Vec<u8>> {
    closed spec fn slots(&self) -> Map<Seq<char>, Slot<Vec<u8>>> {
        dash_slots(self.map)
    }

    fn empty() -> (table: Self) {
        DashTable { map: dash_new(random_state()) }
    }

    fn copy_key(key: &String) -> (copy: String) {
        key.clone()
    }

    fn meta(&self, key: &String) -> (meta: Option<SlotMeta>) {
        dash_meta(&self.map, key)
    }

    fn read<R, F: FnOnce(&Vec<u8>) -> R>(&self, key: &String, f: F) -> (result: Option<R>) {
        dash_read(&self.map, key, f)
    }

    fn insert(&mut self, key: String, slot: Slot<Vec<u8>>) {
        dash_insert(&mut self.map, key, slot)
    }

    fn remove(&mut self, key: &String) -> (slot: Option<Slot<Vec<u8>>>) {
        dash_remove(&mut self.map, key)
    }

    fn remove_generation(&mut self, key: &String, generation: u64) -> (slot: Option<
        Slot<Vec<u8>>,
    >) {
        dash_remove_generation(&mut self.map, key, generation)
    }

    fn cancel_ttl(&mut self, key: &String) {
        dash_cancel_ttl(&mut self.map, key)
    }

    fn drop_expired(&mut self, now_micros: u128) -> (freed: Vec<usize>) {
        dash_drop_expired(&mut self.map, now_micros)
    }

    fn len(&self) -> (n: usize) {
        dash_len(&self.map)
    }

    fn is_empty(&self) -> (empty: bool) {
        dash_is_empty(&self.map)
    }

    fn clear(&mut self) {
        dash_clear(&mut self.map)
    }
}

} // verus!
