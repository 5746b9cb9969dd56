//! Lemmas about the sums and counts that validity speaks of.

use crate::model::{total_cost, ttl_keys};
use crate::slot::Slot;
use crate::table::lists_costs_of;
use vstd::prelude::*;

verus! {

/// Sum of a list of costs.
pub open spec fn sum(costs: Seq<usize>) -> int
    decreases costs.len(),
{
    if costs.len() == 0 {
        0
    } else {
        sum(costs.drop_last()) + costs.last()
    }
}

/// The total does not depend on the entry taken out first.
pub proof fn lemma_total_remove<KV, V>(slots: Map<KV, Slot<V>>, key: KV)
    requires
        slots.dom().finite(),
        slots.contains_key(key),
    ensures
        total_cost(slots) == slots[key].cost + total_cost(slots.remove(key)),
    decreases slots.dom().len(),
{
    let first = slots.dom().choose();
    if first != key {
        assert(slots.remove(first).remove(key) =~= slots.remove(key).remove(first));
        assert(slots.remove(first).contains_key(key));
        assert(slots.remove(key).contains_key(first));
        lemma_total_remove(slots.remove(first), key);
        lemma_total_remove(slots.remove(key), first);
    }
}

/// The total over a map with one entry put in.
pub proof fn lemma_total_insert<KV, V>(slots: Map<KV, Slot<V>>, key: KV, slot: Slot<V>)
    requires
        slots.dom().finite(),
    ensures
        total_cost(slots.insert(key, slot)) == total_cost(slots) + slot.cost - (
        if slots.contains_key(key) {
            slots[key].cost as int
        } else {
            0
        }),
{
    let grown = slots.insert(key, slot);
    lemma_total_remove(grown, key);
    if slots.contains_key(key) {
        lemma_total_remove(slots, key);
        assert(grown.remove(key) =~= slots.remove(key));
    } else {
        assert(grown.remove(key) =~= slots);
    }
}

/// The total is never negative.
pub proof fn lemma_total_nonneg<KV, V>(slots: Map<KV, Slot<V>>)
    requires
        slots.dom().finite(),
    ensures
        total_cost(slots) >= 0,
    decreases slots.dom().len(),
{
    if slots.dom().len() != 0 {
        lemma_total_nonneg(slots.remove(slots.dom().choose()));
    }
}

/// No entry costs more than the total.
pub proof fn lemma_total_covers<KV, V>(slots: Map<KV, Slot<V>>, key: KV)
    requires
        slots.dom().finite(),
        slots.contains_key(key),
    ensures
        slots[key].cost <= total_cost(slots),
{
    lemma_total_remove(slots, key);
    lemma_total_nonneg(slots.remove(key));
}

/// The total splits over any set of keys.
pub proof fn lemma_total_splits<KV, V>(slots: Map<KV, Slot<V>>, keys: Set<KV>)
    requires
        slots.dom().finite(),
    ensures
        total_cost(slots) == total_cost(slots.remove_keys(keys)) + total_cost(slots.restrict(keys)),
    decreases slots.dom().len(),
{
    let out = slots.remove_keys(keys);
    let in_ = slots.restrict(keys);
    assert(out.dom().subset_of(slots.dom()));
    assert(in_.dom().subset_of(slots.dom()));
    vstd::set_lib::lemma_set_subset_finite(slots.dom(), out.dom());
    vstd::set_lib::lemma_set_subset_finite(slots.dom(), in_.dom());
    if slots.dom().len() == 0 {
        assert(out =~= slots);
        assert(in_ =~= slots);
    } else {
        let k = slots.dom().choose();
        assert(slots.contains_key(k));
        let rest = slots.remove(k);
        lemma_total_splits(rest, keys);
        if keys.contains(k) {
            assert(rest.remove_keys(keys) =~= out);
            assert(rest.restrict(keys) =~= in_.remove(k));
            lemma_total_remove(in_, k);
        } else {
            assert(rest.remove_keys(keys) =~= out.remove(k));
            assert(rest.restrict(keys) =~= in_);
            lemma_total_remove(out, k);
        }
    }
}

/// Taking entries out takes nothing but their costs off the total.
pub proof fn lemma_total_remove_keys<KV, V>(
    slots: Map<KV, Slot<V>>,
    costs: Seq<usize>,
    order: Seq<KV>,
)
    requires
        slots.dom().finite(),
        lists_costs_of(costs, slots, order),
        order.to_set().subset_of(slots.dom()),
    ensures
        total_cost(slots) == sum(costs) + total_cost(slots.remove_keys(order.to_set())),
        sum(costs) >= 0,
        slots.remove_keys(order.to_set()).dom().finite(),
    decreases order.len(),
{
    if order.len() == 0 {
        assert(slots.remove_keys(order.to_set()) =~= slots);
    } else {
        let key = order.last();
        let rest = order.drop_last();
        assert(order.contains(key));
        assert(forall|k: KV| rest.contains(k) ==> order.contains(k) && k != key);
        assert forall|i: int| 0 <= i < rest.len() implies #[trigger] costs.drop_last()[i]
            == slots[rest[i]].cost by {
            assert(costs[i] == slots[order[i]].cost);
        }
        assert(costs[order.len() - 1] == slots[order[order.len() - 1]].cost);
        assert(rest.to_set().subset_of(slots.dom())) by {
            assert forall|k: KV| rest.to_set().contains(k) implies slots.dom().contains(k) by {
                assert(order.contains(k));
                assert(order.to_set().contains(k));
            }
        }
        lemma_total_remove_keys(slots, costs.drop_last(), rest);
        let left = slots.remove_keys(rest.to_set());
        assert(order.to_set().contains(key));
        assert(!rest.to_set().contains(key));
        assert(left.contains_key(key));
        assert(left.remove(key) =~= slots.remove_keys(order.to_set())) by {
            assert forall|k: KV| order.contains(k) implies k == key || rest.contains(k) by {
                let i = choose|i: int| 0 <= i < order.len() && order[i] == k;
                if i < order.len() - 1 {
                    assert(rest[i] == k);
                }
            }
        }
        lemma_total_remove(left, key);
    }
}

/// Partial sums grow.
pub proof fn lemma_sum_take(costs: Seq<usize>, n: int)
    requires
        0 <= n <= costs.len(),
    ensures
        0 <= sum(costs.take(n)) <= sum(costs),
    decreases costs.len(),
{
    if n == costs.len() {
        assert(costs.take(n) =~= costs);
        if n > 0 {
            lemma_sum_take(costs.drop_last(), n - 1);
        }
    } else {
        lemma_sum_take(costs.drop_last(), n);
        assert(costs.drop_last().take(n) =~= costs.take(n));
    }
}

/// The expiry keys of a finite map are finite in number, and no more than its
/// keys.
pub proof fn lemma_ttl_finite<KV, V>(slots: Map<KV, Slot<V>>)
    requires
        slots.dom().finite(),
    ensures
        ttl_keys(slots).finite(),
        ttl_keys(slots).len() <= slots.len(),
{
    assert(ttl_keys(slots).subset_of(slots.dom()));
    vstd::set_lib::lemma_set_subset_finite(slots.dom(), ttl_keys(slots));
    vstd::set_lib::lemma_len_subset(ttl_keys(slots), slots.dom());
}

/// The expiry keys of a map with one entry put in.
pub proof fn lemma_ttl_insert<KV, V>(slots: Map<KV, Slot<V>>, key: KV, slot: Slot<V>)
    requires
        slots.dom().finite(),
    ensures
        ttl_keys(slots.insert(key, slot)).len() == ttl_keys(slots).len() + (if slot.has_ttl() {
            1int
        } else {
            0int
        }) - (if slots.contains_key(key) && slots[key].has_ttl() {
            1int
        } else {
            0int
        }),
{
    lemma_ttl_finite(slots);
    let grown = slots.insert(key, slot);
    if slot.has_ttl() {
        assert(ttl_keys(grown) =~= ttl_keys(slots).insert(key));
    } else {
        assert(ttl_keys(grown) =~= ttl_keys(slots).remove(key));
    }
}

/// The expiry keys of a map with one entry taken out.
pub proof fn lemma_ttl_remove<KV, V>(slots: Map<KV, Slot<V>>, key: KV)
    requires
        slots.dom().finite(),
    ensures
        ttl_keys(slots.remove(key)).len() == ttl_keys(slots).len() - (if slots.contains_key(key)
            && slots[key].has_ttl() {
            1int
        } else {
            0int
        }),
{
    lemma_ttl_finite(slots);
    assert(ttl_keys(slots.remove(key)) =~= ttl_keys(slots).remove(key));
}

} // verus!
