//! The store as a mathematical object: what it holds, what a valid store is,
//! and what each operation makes of it.

use crate::clock::{deadline, micros_from, Duration, Instant};
use crate::outcome::InsertOutcome;
use crate::slot::{QueueNode, Slot};
use crate::table::expired_keys;
use vstd::prelude::*;

verus! {

/// Stale nodes dropped from the head of the queue after an admission, at most.
pub const TRIM_LIMIT: usize = 8;

/// Queues up to this length are never compacted.
pub const COMPACT_FLOOR: usize = 1024;

/// Sum of the costs of all entries.
pub open spec fn total_cost<KV, V>(slots: Map<KV, Slot<V>>) -> int
    decreases slots.dom().len(),
    when slots.dom().finite()
{
    if slots.dom().len() == 0 {
        0
    } else {
        let k = slots.dom().choose();
        slots[k].cost + total_cost(slots.remove(k))
    }
}

/// The keys whose entries carry an expiry.
pub open spec fn ttl_keys<KV, V>(slots: Map<KV, Slot<V>>) -> Set<KV> {
    Set::new(|k: KV| slots.contains_key(k) && slots[k].has_ttl())
}

/// Whether a queue node belongs to an entry that is still held; the others are
/// stale.
pub open spec fn is_live<KV, V>(slots: Map<KV, Slot<V>>, node: QueueNode<KV>) -> bool {
    slots.contains_key(node.key) && slots[node.key].generation == node.generation
}

/// The live nodes of a queue, in order.
pub open spec fn live_nodes<KV, V>(
    queue: Seq<QueueNode<KV>>,
    slots: Map<KV, Slot<V>>,
) -> Seq<QueueNode<KV>> {
    queue.filter(|node: QueueNode<KV>| is_live(slots, node))
}

/// How many nodes trimming drops: the stale ones before the first live node,
/// but no more than `limit`.
pub open spec fn stale_head<KV, V>(
    queue: Seq<QueueNode<KV>>,
    slots: Map<KV, Slot<V>>,
    limit: nat,
) -> nat
    decreases limit,
{
    if limit == 0 || queue.len() == 0 || is_live(slots, queue[0]) {
        0
    } else {
        1 + stale_head(queue.drop_first(), slots, (limit - 1) as nat)
    }
}

/// The queue after the upkeep that follows an admission: trimmed at its head,
/// then reduced to its live nodes if it is still long and more than twice as
/// long as the table.
pub open spec fn tidied<KV, V>(
    queue: Seq<QueueNode<KV>>,
    slots: Map<KV, Slot<V>>,
) -> Seq<QueueNode<KV>> {
    let trimmed = queue.skip(stale_head(queue, slots, TRIM_LIMIT as nat) as int);
    if trimmed.len() > COMPACT_FLOOR && trimmed.len() > 2 * slots.len() {
        live_nodes(trimmed, slots)
    } else {
        trimmed
    }
}

/// How many nodes leave the queue when `n` live entries are to be reclaimed:
/// up to and including the `n`-th live node, or all where there are fewer.
pub open spec fn fifo_cut<KV, V>(
    queue: Seq<QueueNode<KV>>,
    slots: Map<KV, Slot<V>>,
    n: nat,
) -> nat
    decreases queue.len(),
{
    if n == 0 || queue.len() == 0 {
        0
    } else if is_live(slots, queue[0]) {
        1 + fifo_cut(queue.drop_first(), slots, (n - 1) as nat)
    } else {
        1 + fifo_cut(queue.drop_first(), slots, n)
    }
}

/// Whether a node is older than `window` at `now`.
pub open spec fn is_aged<KV>(node: QueueNode<KV>, window: Duration, now: Instant) -> bool {
    node.stamp.nanos + window.nanos() < now.nanos
}

/// How many nodes leave the queue when those older than `window` are reclaimed:
/// all before the first that is not.
pub open spec fn age_cut<KV>(queue: Seq<QueueNode<KV>>, window: Duration, now: Instant) -> nat
    decreases queue.len(),
{
    if queue.len() == 0 || !is_aged(queue[0], window, now) {
        0
    } else {
        1 + age_cut(queue.drop_first(), window, now)
    }
}

/// The keys of the live nodes among the first `cut` of a queue.
pub open spec fn keys_before<KV, V>(
    queue: Seq<QueueNode<KV>>,
    slots: Map<KV, Slot<V>>,
    cut: int,
) -> Set<KV> {
    Set::new(
        |k: KV|
            exists|i: int|
                0 <= i < cut && is_live(slots, #[trigger] queue[i]) && queue[i].key == k,
    )
}

/// What a store holds.
#[verifier::ext_equal]
#[verifier::reject_recursive_types(KV)]
pub struct StoreModel<KV, V> {
    /// The point from which expiry is counted.
    pub origin: Instant,
    /// The byte cap.
    pub capacity: int,
    /// Bytes reserved.
    pub reserved: int,
    /// Denials so far.
    pub denials: int,
    /// Entries that carry an expiry.
    pub ttl_count: int,
    /// Admissions so far.
    pub total_inserts: int,
    /// The generation given out last.
    pub last_generation: int,
    /// The entries.
    pub slots: Map<KV, Slot<V>>,
    /// The reclaim queue, oldest admission first.
    pub queue: Seq<QueueNode<KV>>,
}

impl<KV, V> StoreModel<KV, V> {
    /// A store that holds nothing.
    pub open spec fn empty(capacity: int, origin: Instant) -> Self {
        StoreModel {
            origin,
            capacity,
            reserved: 0,
            denials: 0,
            ttl_count: 0,
            total_inserts: 0,
            last_generation: 0,
            slots: Map::empty(),
            queue: Seq::empty(),
        }
    }

    /// The counters stay within their machine types.
    pub open spec fn in_range(self) -> bool {
        &&& 0 <= self.capacity <= usize::MAX
        &&& 0 <= self.reserved <= usize::MAX
        &&& 0 <= self.denials <= usize::MAX
        &&& 0 <= self.total_inserts <= u64::MAX
        &&& 0 <= self.last_generation <= self.total_inserts
    }

    /// The queue is ordered by generation, and none is newer than the last.
    pub open spec fn queue_ordered(self) -> bool {
        &&& forall|i: int, j: int|
            0 <= i < j < self.queue.len() ==> (#[trigger] self.queue[i]).generation < (
            #[trigger] self.queue[j]).generation
        &&& forall|i: int|
            0 <= i < self.queue.len() ==> (#[trigger] self.queue[i]).generation
                <= self.last_generation
    }

    /// Some node of the queue belongs to the entry under `key`.
    pub open spec fn is_queued(self, key: KV) -> bool {
        exists|i: int|
            0 <= i < self.queue.len() && (#[trigger] self.queue[i]).key == key
                && self.queue[i].generation == self.slots[key].generation
    }

    /// Validity: the reserved bytes are the sum of the costs of the entries
    /// held, the expiry counter is the number of entries that carry one, and
    /// every entry has its node in an ordered queue.
    pub open spec fn wf(self) -> bool {
        &&& self.in_range()
        &&& self.slots.dom().finite()
        &&& self.reserved == total_cost(self.slots)
        &&& self.ttl_count == ttl_keys(self.slots).len()
        &&& self.queue_ordered()
        &&& forall|k: KV| #[trigger] self.slots.contains_key(k) ==> self.is_queued(k)
    }

    /// The microsecond count of a point in time.
    pub open spec fn micros(self, t: Instant) -> int {
        micros_from(self.origin, t.nanos as int)
    }

    /// Whether a reader finds `key` at the given time.
    pub open spec fn visible(self, key: KV, now: Instant) -> bool {
        self.slots.contains_key(key) && !self.slots[key].expired_at(self.micros(now))
    }

    /// Unreserved bytes under the cap.
    pub open spec fn available(self) -> int {
        if self.reserved <= self.capacity {
            self.capacity - self.reserved
        } else {
            0
        }
    }

    /// Whether the budget lets an entry of the given cost in under `key`: a fresh
    /// entry needs room for all of it, a replacement for what it adds.
    pub open spec fn admits(self, key: KV, need: int) -> bool {
        if self.slots.contains_key(key) {
            need <= self.slots[key].cost || self.reserved + (need - self.slots[key].cost)
                <= self.capacity
        } else {
            self.reserved + need <= self.capacity
        }
    }

    /// The store after a denial.
    pub open spec fn deny(self) -> Self {
        StoreModel {
            denials: if self.denials < usize::MAX {
                self.denials + 1
            } else {
                0
            },
            ..self
        }
    }

    /// The store after the entry under `key` was replaced. The entry keeps its
    /// generation, and so its place in the queue.
    pub open spec fn replace(self, key: KV, value: V, need: usize, expires: u128) -> Self {
        let before = self.slots[key];
        let after = Slot {
            value,
            cost: need,
            expires_at_micros: expires,
            generation: before.generation,
        };
        StoreModel {
            reserved: self.reserved - before.cost + need,
            ttl_count: self.ttl_count + (if after.has_ttl() {
                1int
            } else {
                0int
            }) - (if before.has_ttl() {
                1int
            } else {
                0int
            }),
            total_inserts: self.total_inserts + 1,
            slots: self.slots.insert(key, after),
            ..self
        }
    }

    /// The store after a fresh entry was admitted under `key` at `now`.
    pub open spec fn store_fresh(
        self,
        key: KV,
        value: V,
        need: usize,
        expires: u128,
        now: Instant,
    ) -> Self {
        let generation = (self.last_generation + 1) as u64;
        let slots = self.slots.insert(
            key,
            Slot { value, cost: need, expires_at_micros: expires, generation },
        );
        StoreModel {
            reserved: self.reserved + need,
            ttl_count: self.ttl_count + (if expires != 0 {
                1int
            } else {
                0int
            }),
            total_inserts: self.total_inserts + 1,
            last_generation: self.last_generation + 1,
            slots,
            queue: tidied(self.queue.push(QueueNode { key, stamp: now, generation }), slots),
            ..self
        }
    }

    /// The store after an insert of the given cost at `now`.
    pub open spec fn put(
        self,
        key: KV,
        value: V,
        need: usize,
        ttl: Option<Duration>,
        now: Instant,
    ) -> Self {
        let expires = deadline(self.origin, now, ttl) as u128;
        if !self.admits(key, need as int) {
            self.deny()
        } else if self.slots.contains_key(key) {
            self.replace(key, value, need, expires)
        } else {
            self.store_fresh(key, value, need, expires, now)
        }
    }

    /// What an insert that the budget lets in reports.
    pub open spec fn put_outcome(self, key: KV, need: usize) -> InsertOutcome {
        if self.slots.contains_key(key) {
            InsertOutcome::Replaced { freed: self.slots[key].cost, charged: need }
        } else {
            InsertOutcome::Stored { charged: need }
        }
    }

    /// The store with the given entries taken out and their bytes refunded.
    pub open spec fn without(self, keys: Set<KV>) -> Self {
        let slots = self.slots.remove_keys(keys);
        StoreModel {
            reserved: total_cost(slots),
            ttl_count: ttl_keys(slots).len() as int,
            slots,
            ..self
        }
    }

    /// The store after `key` was removed.
    pub open spec fn remove(self, key: KV) -> Self {
        if self.slots.contains_key(key) {
            StoreModel {
                reserved: self.reserved - self.slots[key].cost,
                ttl_count: self.ttl_count - (if self.slots[key].has_ttl() {
                    1int
                } else {
                    0int
                }),
                slots: self.slots.remove(key),
                ..self
            }
        } else {
            self
        }
    }

    /// Whether `key` holds an expiry that is still ahead at `now`.
    pub open spec fn pinnable(self, key: KV, now: Instant) -> bool {
        self.visible(key, now) && self.slots[key].has_ttl()
    }

    /// The store after `key` was pinned at `now`.
    pub open spec fn pin(self, key: KV, now: Instant) -> Self {
        if self.pinnable(key, now) {
            StoreModel {
                ttl_count: self.ttl_count - 1,
                slots: self.slots.insert(key, self.slots[key].pinned()),
                ..self
            }
        } else {
            self
        }
    }

    /// The store after its expired entries were reclaimed at `now`.
    pub open spec fn evict_expired(self, now: Instant) -> Self {
        self.without(expired_keys(self.slots, self.micros(now)))
    }

    /// The store after the first `cut` queue nodes were popped and the entries
    /// of the live ones reclaimed.
    pub open spec fn pop(self, cut: int) -> Self {
        StoreModel {
            queue: self.queue.skip(cut),
            ..self.without(keys_before(self.queue, self.slots, cut))
        }
    }

    /// The store after up to `n` entries were reclaimed in admission order.
    pub open spec fn evict(self, n: nat) -> Self {
        self.pop(fifo_cut(self.queue, self.slots, n) as int)
    }

    /// The store after the entries older than `window` were reclaimed.
    pub open spec fn evict_older_than(self, window: Duration, now: Instant) -> Self {
        self.pop(age_cut(self.queue, window, now) as int)
    }

    /// The store after everything was dropped.
    pub open spec fn clear(self) -> Self {
        StoreModel {
            reserved: 0,
            ttl_count: 0,
            slots: Map::empty(),
            queue: Seq::empty(),
            ..self
        }
    }

    /// The store under another cap.
    pub open spec fn set_capacity(self, capacity: usize) -> Self {
        StoreModel { capacity: capacity as int, ..self }
    }
}

} // verus!
