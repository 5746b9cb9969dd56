//! Every operation takes a valid store to a valid store.

use crate::clock::{Duration, Instant};
use crate::model::{
    age_cut, fifo_cut, is_aged, is_live, keys_before, live_nodes, stale_head, tidied, total_cost,
    ttl_keys, StoreModel, TRIM_LIMIT,
};
use crate::slot::{QueueNode, Slot};
use crate::sums::{
    lemma_total_insert, lemma_total_nonneg, lemma_total_remove, lemma_total_remove_keys,
    lemma_total_splits, lemma_ttl_finite, lemma_ttl_insert, lemma_ttl_remove, sum,
};
use crate::table::{expired_keys, lists_costs, lists_costs_of};
use vstd::prelude::*;

verus! {

/// Trimming drops stale nodes only.
pub proof fn lemma_stale_head<KV, V>(
    queue: Seq<QueueNode<KV>>,
    slots: Map<KV, Slot<V>>,
    limit: nat,
)
    ensures
        stale_head(queue, slots, limit) <= queue.len(),
        stale_head(queue, slots, limit) <= limit,
        forall|i: int|
            0 <= i < stale_head(queue, slots, limit) ==> !is_live(slots, #[trigger] queue[i]),
        stale_head(queue, slots, limit) < limit && stale_head(queue, slots, limit) < queue.len()
            ==> is_live(slots, queue[stale_head(queue, slots, limit) as int]),
    decreases limit,
{
    if limit != 0 && queue.len() != 0 && !is_live(slots, queue[0]) {
        let rest = queue.drop_first();
        lemma_stale_head(rest, slots, (limit - 1) as nat);
        assert forall|i: int| 0 <= i < stale_head(queue, slots, limit) implies !is_live(
            slots,
            #[trigger] queue[i],
        ) by {
            if i > 0 {
                assert(queue[i] == rest[i - 1]);
            }
        }
    }
}

/// The live nodes of a queue are those of its nodes that are live.
pub proof fn lemma_live_members<KV, V>(queue: Seq<QueueNode<KV>>, slots: Map<KV, Slot<V>>)
    ensures
        forall|node: QueueNode<KV>|
            #[trigger] live_nodes(queue, slots).contains(node) <==> queue.contains(node)
                && is_live(slots, node),
{
    let keep = |node: QueueNode<KV>| is_live(slots, node);
    let live = live_nodes(queue, slots);
    assert forall|node: QueueNode<KV>| #[trigger]
        live.contains(node) <==> queue.contains(node) && is_live(slots, node) by {
        if live.contains(node) {
            let i = choose|i: int| 0 <= i < live.len() && live[i] == node;
            queue.lemma_filter_pred(keep, i);
            queue.lemma_filter_contains_rev(keep, node);
        }
        if queue.contains(node) && is_live(slots, node) {
            let j = choose|j: int| 0 <= j < queue.len() && queue[j] == node;
            queue.lemma_filter_contains(keep, j);
        }
    }
}

/// The live nodes of an ordered queue are those of its nodes that are live, in
/// their order.
pub proof fn lemma_live_nodes<KV, V>(queue: Seq<QueueNode<KV>>, slots: Map<KV, Slot<V>>)
    requires
        forall|i: int, j: int|
            0 <= i < j < queue.len() ==> (#[trigger] queue[i]).generation < (
            #[trigger] queue[j]).generation,
    ensures
        forall|node: QueueNode<KV>|
            #[trigger] live_nodes(queue, slots).contains(node) <==> queue.contains(node)
                && is_live(slots, node),
        forall|i: int, j: int|
            0 <= i < j < live_nodes(queue, slots).len() ==> (#[trigger] live_nodes(
                queue,
                slots,
            )[i]).generation < (#[trigger] live_nodes(queue, slots)[j]).generation,
        live_nodes(queue, slots).len() <= queue.len(),
    decreases queue.len(),
{
    reveal(Seq::filter);
    lemma_live_members(queue, slots);
    let live = live_nodes(queue, slots);
    if queue.len() > 0 {
        let rest = queue.drop_last();
        lemma_live_nodes(rest, slots);
        let front = live_nodes(rest, slots);
        assert(live == if is_live(slots, queue.last()) {
            front.push(queue.last())
        } else {
            front
        });
        assert forall|i: int, j: int| 0 <= i < j < live.len() implies (
        #[trigger] live[i]).generation < (#[trigger] live[j]).generation by {
            if j < front.len() {
                assert(front[i].generation < front[j].generation);
            } else {
                assert(front.contains(front[i]));
                let a = choose|a: int| 0 <= a < rest.len() && rest[a] == front[i];
                assert(queue[a] == live[i]);
                assert(queue[queue.len() - 1] == live[j]);
            }
        }
    }
}

/// Upkeep keeps the queue ordered and loses no live node.
pub proof fn lemma_tidied<KV, V>(queue: Seq<QueueNode<KV>>, slots: Map<KV, Slot<V>>)
    requires
        forall|i: int, j: int|
            0 <= i < j < queue.len() ==> (#[trigger] queue[i]).generation < (
            #[trigger] queue[j]).generation,
    ensures
        forall|i: int, j: int|
            0 <= i < j < tidied(queue, slots).len() ==> (#[trigger] tidied(
                queue,
                slots,
            )[i]).generation < (#[trigger] tidied(queue, slots)[j]).generation,
        forall|node: QueueNode<KV>| #[trigger]
            tidied(queue, slots).contains(node) ==> queue.contains(node),
        forall|node: QueueNode<KV>|
            queue.contains(node) && is_live(slots, node) ==> #[trigger] tidied(
                queue,
                slots,
            ).contains(node),
{
    let cut = stale_head(queue, slots, TRIM_LIMIT as nat) as int;
    lemma_stale_head(queue, slots, TRIM_LIMIT as nat);
    let trimmed = queue.skip(cut);
    assert forall|node: QueueNode<KV>| trimmed.contains(node) implies queue.contains(node) by {
        let i = choose|i: int| 0 <= i < trimmed.len() && trimmed[i] == node;
        assert(queue[i + cut] == node);
    }
    assert forall|node: QueueNode<KV>|
        queue.contains(node) && is_live(slots, node) implies trimmed.contains(node) by {
        let i = choose|i: int| 0 <= i < queue.len() && queue[i] == node;
        assert(trimmed[i - cut] == node);
    }
    lemma_live_nodes(trimmed, slots);
}

/// The cut of a FIFO reclaim lies within the queue.
pub proof fn lemma_fifo_cut_bound<KV, V>(
    queue: Seq<QueueNode<KV>>,
    slots: Map<KV, Slot<V>>,
    n: nat,
)
    ensures
        fifo_cut(queue, slots, n) <= queue.len(),
    decreases queue.len(),
{
    if n != 0 && queue.len() != 0 {
        if is_live(slots, queue[0]) {
            lemma_fifo_cut_bound(queue.drop_first(), slots, (n - 1) as nat);
        } else {
            lemma_fifo_cut_bound(queue.drop_first(), slots, n);
        }
    }
}

/// The cut of a reclaim by age lies within the queue: every node before it is
/// aged, and the one at the cut is not.
pub proof fn lemma_age_cut<KV>(queue: Seq<QueueNode<KV>>, window: Duration, now: Instant)
    ensures
        age_cut(queue, window, now) <= queue.len(),
        forall|i: int|
            0 <= i < age_cut(queue, window, now) ==> is_aged(#[trigger] queue[i], window, now),
        age_cut(queue, window, now) < queue.len() ==> !is_aged(
            queue[age_cut(queue, window, now) as int],
            window,
            now,
        ),
    decreases queue.len(),
{
    if queue.len() != 0 && is_aged(queue[0], window, now) {
        let rest = queue.drop_first();
        lemma_age_cut(rest, window, now);
        assert forall|i: int| 0 <= i < age_cut(queue, window, now) implies is_aged(
            #[trigger] queue[i],
            window,
            now,
        ) by {
            if i > 0 {
                assert(queue[i] == rest[i - 1]);
            }
        }
    }
}

impl<KV, V> StoreModel<KV, V> {
    /// An entry that keeps its generation keeps its node while the queue stays.
    proof fn lemma_still_queued(self, post: Self, key: KV)
        requires
            self.is_queued(key),
            post.queue == self.queue,
            post.slots[key].generation == self.slots[key].generation,
        ensures
            post.is_queued(key),
    {
        let i = choose|i: int|
            0 <= i < self.queue.len() && (#[trigger] self.queue[i]).key == key
                && self.queue[i].generation == self.slots[key].generation;
        assert(post.queue[i].key == key);
    }

    /// An empty store is valid.
    pub proof fn lemma_empty_wf(capacity: int, origin: Instant)
        requires
            0 <= capacity <= usize::MAX,
        ensures
            Self::empty(capacity, origin).wf(),
    {
        let slots = Map::<KV, Slot<V>>::empty();
        assert(ttl_keys(slots) =~= Set::empty());
    }

    /// A denial keeps a store valid.
    pub proof fn lemma_deny_wf(self)
        requires
            self.wf(),
        ensures
            self.deny().wf(),
    {
        assert forall|k: KV| #[trigger] self.slots.contains_key(k) implies self.deny().is_queued(
            k,
        ) by {
            self.lemma_still_queued(self.deny(), k);
        }
    }

    /// A replacement keeps a store valid.
    pub proof fn lemma_replace_wf(self, key: KV, value: V, need: usize, expires: u128)
        requires
            self.wf(),
            self.slots.contains_key(key),
            self.admits(key, need as int),
            self.total_inserts < u64::MAX,
        ensures
            self.replace(key, value, need, expires).wf(),
    {
        let post = self.replace(key, value, need, expires);
        let slot = post.slots[key];
        lemma_total_insert(self.slots, key, slot);
        lemma_ttl_insert(self.slots, key, slot);
        lemma_total_nonneg(post.slots);
        assert forall|k: KV| #[trigger] post.slots.contains_key(k) implies post.is_queued(k) by {
            assert(self.slots.contains_key(k));
            self.lemma_still_queued(post, k);
        }
    }

    /// A fresh admission keeps a store valid.
    pub proof fn lemma_store_fresh_wf(
        self,
        key: KV,
        value: V,
        need: usize,
        expires: u128,
        now: Instant,
    )
        requires
            self.wf(),
            !self.slots.contains_key(key),
            self.admits(key, need as int),
            self.total_inserts < u64::MAX,
        ensures
            self.store_fresh(key, value, need, expires, now).wf(),
    {
        let post = self.store_fresh(key, value, need, expires, now);
        let slot = post.slots[key];
        let node = QueueNode { key, stamp: now, generation: slot.generation };
        let queue = self.queue.push(node);
        lemma_total_insert(self.slots, key, slot);
        lemma_ttl_insert(self.slots, key, slot);
        lemma_tidied(queue, post.slots);
        assert forall|i: int| 0 <= i < post.queue.len() implies (
        #[trigger] post.queue[i]).generation <= post.last_generation by {
            assert(post.queue.contains(post.queue[i]));
            let j = choose|j: int| 0 <= j < queue.len() && queue[j] == post.queue[i];
            assert(queue[j].generation <= post.last_generation);
        }
        assert forall|k: KV| #[trigger] post.slots.contains_key(k) implies post.is_queued(k) by {
            let at = if k == key {
                self.queue.len() as int
            } else {
                assert(self.is_queued(k));
                choose|i: int|
                    0 <= i < self.queue.len() && (#[trigger] self.queue[i]).key == k
                        && self.queue[i].generation == self.slots[k].generation
            };
            assert(queue[at].key == k && queue[at].generation == post.slots[k].generation);
            assert(queue.contains(queue[at]));
            assert(is_live(post.slots, queue[at]));
            assert(post.queue.contains(queue[at]));
            let i = choose|i: int| 0 <= i < post.queue.len() && post.queue[i] == queue[at];
            assert(post.queue[i].key == k);
        }
    }

    /// An insert keeps a store valid.
    pub proof fn lemma_put_wf(
        self,
        key: KV,
        value: V,
        need: usize,
        ttl: Option<Duration>,
        now: Instant,
    )
        requires
            self.wf(),
            self.total_inserts < u64::MAX,
        ensures
            self.put(key, value, need, ttl, now).wf(),
    {
        let expires = crate::clock::deadline(self.origin, now, ttl) as u128;
        if !self.admits(key, need as int) {
            self.lemma_deny_wf();
        } else if self.slots.contains_key(key) {
            self.lemma_replace_wf(key, value, need, expires);
        } else {
            self.lemma_store_fresh_wf(key, value, need, expires, now);
        }
    }

    /// Taking entries out keeps a store valid.
    pub proof fn lemma_without_wf(self, keys: Set<KV>)
        requires
            self.wf(),
        ensures
            self.without(keys).wf(),
            self.without(keys).reserved <= self.reserved,
            self.without(keys).ttl_count <= self.ttl_count,
    {
        let post = self.without(keys);
        assert(post.slots.dom().subset_of(self.slots.dom()));
        vstd::set_lib::lemma_set_subset_finite(self.slots.dom(), post.slots.dom());
        lemma_total_nonneg(post.slots);
        let gone = self.slots.restrict(keys);
        assert(gone.dom().subset_of(self.slots.dom()));
        vstd::set_lib::lemma_set_subset_finite(self.slots.dom(), gone.dom());
        lemma_total_nonneg(gone);
        lemma_total_splits(self.slots, keys);
        lemma_ttl_finite(self.slots);
        assert(ttl_keys(post.slots).subset_of(ttl_keys(self.slots)));
        vstd::set_lib::lemma_len_subset(ttl_keys(post.slots), ttl_keys(self.slots));
        assert forall|k: KV| #[trigger] post.slots.contains_key(k) implies post.is_queued(k) by {
            assert(self.slots.contains_key(k));
            self.lemma_still_queued(post, k);
        }
    }

    /// A removal keeps a store valid.
    pub proof fn lemma_remove_wf(self, key: KV)
        requires
            self.wf(),
        ensures
            self.remove(key).wf(),
    {
        let post = self.remove(key);
        if self.slots.contains_key(key) {
            lemma_total_remove(self.slots, key);
            lemma_total_nonneg(post.slots);
            lemma_ttl_remove(self.slots, key);
        }
        assert forall|k: KV| #[trigger] post.slots.contains_key(k) implies post.is_queued(k) by {
            assert(self.slots.contains_key(k));
            self.lemma_still_queued(post, k);
        }
    }

    /// Pinning keeps a store valid.
    pub proof fn lemma_pin_wf(self, key: KV, now: Instant)
        requires
            self.wf(),
        ensures
            self.pin(key, now).wf(),
    {
        let post = self.pin(key, now);
        if self.pinnable(key, now) {
            lemma_total_insert(self.slots, key, self.slots[key].pinned());
            lemma_ttl_insert(self.slots, key, self.slots[key].pinned());
        }
        assert forall|k: KV| #[trigger] post.slots.contains_key(k) implies post.is_queued(k) by {
            assert(self.slots.contains_key(k));
            self.lemma_still_queued(post, k);
        }
    }

    /// Popping queue nodes keeps a store valid.
    pub proof fn lemma_pop_wf(self, cut: int)
        requires
            self.wf(),
            0 <= cut <= self.queue.len(),
        ensures
            self.pop(cut).wf(),
            self.pop(cut).reserved <= self.reserved,
    {
        let post = self.pop(cut);
        let gone = keys_before(self.queue, self.slots, cut);
        self.lemma_without_wf(gone);
        assert forall|k: KV| #[trigger] post.slots.contains_key(k) implies post.is_queued(k) by {
            assert(self.slots.contains_key(k));
            assert(self.is_queued(k));
            let i = choose|i: int|
                0 <= i < self.queue.len() && (#[trigger] self.queue[i]).key == k
                    && self.queue[i].generation == self.slots[k].generation;
            if i < cut {
                assert(is_live(self.slots, self.queue[i]));
                assert(gone.contains(k));
            }
            assert(post.queue[i - cut] == self.queue[i]);
        }
    }

    /// A sweep of expired entries keeps a store valid.
    pub proof fn lemma_evict_expired_wf(self, now: Instant)
        requires
            self.wf(),
        ensures
            self.evict_expired(now).wf(),
            self.evict_expired(now).reserved <= self.reserved,
    {
        self.lemma_without_wf(expired_keys(self.slots, self.micros(now)));
    }

    /// Without expiring entries a sweep changes nothing.
    pub proof fn lemma_nothing_expires(self, now: Instant)
        requires
            self.wf(),
            self.ttl_count == 0,
        ensures
            self.evict_expired(now) == self,
    {
        lemma_ttl_finite(self.slots);
        assert(ttl_keys(self.slots) =~= Set::empty());
        let gone = expired_keys(self.slots, self.micros(now));
        assert forall|k: KV| !gone.contains(k) by {
            assert(!ttl_keys(self.slots).contains(k));
        }
        assert(self.slots.remove_keys(gone) =~= self.slots);
    }

    /// What a sweep takes out: each expired entry once, all of them counted
    /// among those that expire.
    pub proof fn lemma_sweep_counts(self, now: Instant, costs: Seq<usize>)
        requires
            self.wf(),
            lists_costs(costs, self.slots, expired_keys(self.slots, self.micros(now))),
        ensures
            self.reserved == sum(costs) + self.evict_expired(now).reserved,
            self.ttl_count == costs.len() + self.evict_expired(now).ttl_count,
            self.slots.len() == costs.len() + self.evict_expired(now).slots.len(),
    {
        let gone = expired_keys(self.slots, self.micros(now));
        let post = self.evict_expired(now);
        let order = choose|order: Seq<KV>| #[trigger]
            lists_costs_of(costs, self.slots, order) && order.to_set() == gone;
        assert(gone.subset_of(self.slots.dom()));
        lemma_total_remove_keys(self.slots, costs, order);
        order.unique_seq_to_set();
        assert(gone.finite());
        self.slots.lemma_remove_keys_len(gone);
        lemma_ttl_finite(self.slots);
        assert(gone.subset_of(ttl_keys(self.slots)));
        assert(ttl_keys(post.slots) =~= ttl_keys(self.slots).difference(gone));
        vstd::set_lib::lemma_set_difference_len(ttl_keys(self.slots), gone);
        assert(gone.difference(ttl_keys(self.slots)) =~= Set::empty());
        assert(ttl_keys(self.slots).intersect(gone) =~= gone);
    }

    /// Popping one node more takes its entry out if the node is live, and
    /// nothing otherwise.
    pub proof fn lemma_pop_step(self, i: int)
        requires
            self.wf(),
            0 <= i < self.queue.len(),
        ensures
            is_live(self.pop(i).slots, self.queue[i]) == is_live(self.slots, self.queue[i]),
            self.pop(i + 1).slots == (if is_live(self.slots, self.queue[i]) {
                self.pop(i).slots.remove(self.queue[i].key)
            } else {
                self.pop(i).slots
            }),
    {
        let node = self.queue[i];
        let gone = keys_before(self.queue, self.slots, i);
        let next = keys_before(self.queue, self.slots, i + 1);
        assert forall|k: KV| next.contains(k) implies gone.contains(k) || (is_live(
            self.slots,
            node,
        ) && k == node.key) by {
            let j = choose|j: int|
                0 <= j < i + 1 && is_live(self.slots, #[trigger] self.queue[j]) && self.queue[j].key
                    == k;
            if j < i {
                assert(gone.contains(k));
            }
        }
        assert forall|k: KV| gone.contains(k) implies next.contains(k) by {
            let j = choose|j: int|
                0 <= j < i && is_live(self.slots, #[trigger] self.queue[j]) && self.queue[j].key
                    == k;
            assert(is_live(self.slots, self.queue[j]));
        }
        if is_live(self.slots, node) {
            assert(next.contains(node.key));
            if gone.contains(node.key) {
                let j = choose|j: int|
                    0 <= j < i && is_live(self.slots, #[trigger] self.queue[j]) && self.queue[j].key
                        == node.key;
                assert(self.queue[j].generation < self.queue[i].generation);
            }
            assert(self.pop(i + 1).slots =~= self.pop(i).slots.remove(node.key));
        } else {
            assert(next =~= gone);
        }
    }

    /// Popping no node changes nothing.
    pub proof fn lemma_pop_none(self)
        requires
            self.wf(),
        ensures
            self.pop(0) == self,
    {
        assert(keys_before(self.queue, self.slots, 0) =~= Set::empty());
        assert(self.slots.remove_keys(Set::empty()) =~= self.slots);
        assert(self.queue.skip(0) =~= self.queue);
    }

    /// A FIFO reclaim keeps a store valid.
    pub proof fn lemma_evict_wf(self, n: nat)
        requires
            self.wf(),
        ensures
            self.evict(n).wf(),
            self.evict(n).reserved <= self.reserved,
    {
        lemma_fifo_cut_bound(self.queue, self.slots, n);
        self.lemma_pop_wf(fifo_cut(self.queue, self.slots, n) as int);
    }

    /// A reclaim by age keeps a store valid.
    pub proof fn lemma_evict_older_than_wf(self, window: Duration, now: Instant)
        requires
            self.wf(),
        ensures
            self.evict_older_than(window, now).wf(),
            self.evict_older_than(window, now).reserved <= self.reserved,
    {
        lemma_age_cut(self.queue, window, now);
        self.lemma_pop_wf(age_cut(self.queue, window, now) as int);
    }

    /// Clearing keeps a store valid.
    pub proof fn lemma_clear_wf(self)
        requires
            self.wf(),
        ensures
            self.clear().wf(),
    {
        assert(ttl_keys(self.clear().slots) =~= Set::empty());
    }

    /// Changing the cap keeps a store valid.
    pub proof fn lemma_set_capacity_wf(self, capacity: usize)
        requires
            self.wf(),
        ensures
            self.set_capacity(capacity).wf(),
    {
        let post = self.set_capacity(capacity);
        assert forall|k: KV| #[trigger] post.slots.contains_key(k) implies post.is_queued(k) by {
            self.lemma_still_queued(post, k);
        }
    }

    /// A valid store holds no more entries than its queue holds nodes.
    pub proof fn lemma_no_more_slots_than_nodes(self)
        requires
            self.wf(),
        ensures
            self.slots.len() <= self.queue.len(),
    {
        let keys = self.queue.map_values(|node: QueueNode<KV>| node.key);
        keys.lemma_cardinality_of_set();
        assert(self.slots.dom().subset_of(keys.to_set())) by {
            assert forall|k: KV| self.slots.dom().contains(k) implies keys.to_set().contains(k) by {
                assert(self.is_queued(k));
                let i = choose|i: int|
                    0 <= i < self.queue.len() && (#[trigger] self.queue[i]).key == k
                        && self.queue[i].generation == self.slots[k].generation;
                assert(keys[i] == k);
                assert(keys.contains(k));
            }
        }
        vstd::set_lib::lemma_len_subset(self.slots.dom(), keys.to_set());
    }
}

} // verus!
