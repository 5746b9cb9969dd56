//! The table a store keeps its slots in.

use crate::slot::{Slot, SlotMeta};
use vstd::prelude::*;

verus! {

/// The keys whose entries have expired at the given count.
pub open spec fn expired_keys<KV, V>(slots: Map<KV, Slot<V>>, now_micros: int) -> Set<KV> {
    Set::new(|k: KV| slots.contains_key(k) && slots[k].expired_at(now_micros))
}

/// Whether `costs` lists, in some order, the cost of each of `keys` once.
pub open spec fn lists_costs<KV, V>(
    costs: Seq<usize>,
    slots: Map<KV, Slot<V>>,
    keys: Set<KV>,
) -> bool {
    exists|order: Seq<KV>| #[trigger] lists_costs_of(costs, slots, order) && order.to_set() == keys
}

/// Whether `costs` holds the costs of the distinct keys `order`, one for one.
pub open spec fn lists_costs_of<KV, V>(
    costs: Seq<usize>,
    slots: Map<KV, Slot<V>>,
    order: Seq<KV>,
) -> bool {
    &&& order.no_duplicates()
    &&& costs.len() == order.len()
    &&& forall|i: int| 0 <= i < order.len() ==> #[trigger] costs[i] == slots[order[i]].cost
}

/// A map from keys to slots. Keys are told apart by their views.
pub trait SlotTable<K: View, V>: Sized {
    /// What the table holds.
    spec fn slots(&self) -> Map<K::V, Slot<V>>;

    /// A table that holds nothing.
    fn empty() -> (table: Self)
        ensures
            table.slots() == Map::<K::V, Slot<V>>::empty(),
    ;

    /// A second copy of a key.
    fn copy_key(key: &K) -> (copy: K)
        ensures
            copy@ == key@,
    ;

    /// The accounting fields of the slot under `key`.
    fn meta(&self, key: &K) -> (meta: Option<SlotMeta>)
        ensures
            meta == (if self.slots().contains_key(key@) {
                Some(self.slots()[key@].accounting())
            } else {
                None
            }),
    ;

    /// Runs `f` over the value under `key`.
    fn read<R, F: FnOnce(&V) -> R>(&self, key: &K, f: F) -> (result: Option<R>)
        requires
            self.slots().contains_key(key@) ==> call_requires(f, (&self.slots()[key@].value,)),
        ensures
            match result {
                Some(r) => {
                    &&& self.slots().contains_key(key@)
                    &&& call_ensures(f, (&self.slots()[key@].value,), r)
                },
                None => !self.slots().contains_key(key@),
            },
    ;

    /// Puts `slot` under `key`, in place of what was there.
    fn insert(&mut self, key: K, slot: Slot<V>)
        ensures
            final(self).slots() == old(self).slots().insert(key@, slot),
    ;

    /// Takes out the slot under `key`.
    fn remove(&mut self, key: &K) -> (slot: Option<Slot<V>>)
        ensures
            final(self).slots() == old(self).slots().remove(key@),
            slot == (if old(self).slots().contains_key(key@) {
                Some(old(self).slots()[key@])
            } else {
                None
            }),
    ;

    /// Takes out the slot under `key` if it is of the given generation.
    fn remove_generation(&mut self, key: &K, generation: u64) -> (slot: Option<Slot<V>>)
        ensures
            if old(self).slots().contains_key(key@) && old(self).slots()[key@].generation
                == generation {
                &&& slot == Some(old(self).slots()[key@])
                &&& final(self).slots() == old(self).slots().remove(key@)
            } else {
                &&& slot is None
                &&& final(self).slots() == old(self).slots()
            },
    ;

    /// Makes the slot under `key` permanent.
    fn cancel_ttl(&mut self, key: &K)
        ensures
            final(self).slots() == (if old(self).slots().contains_key(key@) {
                old(self).slots().insert(key@, old(self).slots()[key@].pinned())
            } else {
                old(self).slots()
            }),
    ;

    /// Drops every slot that has expired at the given count and lists their
    /// costs.
    fn drop_expired(&mut self, now_micros: u128) -> (freed: Vec<usize>)
        ensures
            final(self).slots() == old(self).slots().remove_keys(
                expired_keys(old(self).slots(), now_micros as int),
            ),
            lists_costs(
                freed@,
                old(self).slots(),
                expired_keys(old(self).slots(), now_micros as int),
            ),
    ;

    /// Number of slots.
    fn len(&self) -> (n: usize)
        ensures
            n == self.slots().len(),
    ;

    /// Whether there are no slots.
    fn is_empty(&self) -> (empty: bool)
        ensures
            empty == (self.slots() == Map::<K::V, Slot<V>>::empty()),
    ;

    /// Drops every slot.
    fn clear(&mut self)
        ensures
            final(self).slots() == Map::<K::V, Slot<V>>::empty(),
    ;
}

} // verus!
