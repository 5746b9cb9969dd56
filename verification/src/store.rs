//! The budgeted store.

use crate::clock::{deadline_micros, instant_to_micros, Clock, Duration, Instant, SystemClock};
use crate::cost::{Cost, InlineCost};
use crate::dash::DashTable;
use crate::laws::law_visible_until_its_expiry;
use crate::model::{
    age_cut, fifo_cut, is_aged, is_live, live_nodes, stale_head, tidied, total_cost, ttl_keys,
    StoreModel, COMPACT_FLOOR, TRIM_LIMIT,
};
use crate::outcome::{Denied, InsertOutcome, Pressure, Stats};
use crate::printed;
use crate::slot::{QueueEntry, QueueNode, Slot};
use crate::sums::{
    lemma_sum_take, lemma_total_covers, lemma_total_nonneg, lemma_total_remove, lemma_ttl_finite,
    lemma_ttl_insert, lemma_ttl_remove, sum,
};
use crate::table::SlotTable;
use std::collections::VecDeque;
use std::marker::PhantomData;
use vstd::prelude::*;

verus! {

/// A byte-accounted store with a hard memory cap and FIFO eviction by
/// generation.
pub struct BudgetStore<K, V, C = InlineCost, W = SystemClock, M = DashTable<K, V>> {
    capacity: usize,
    reserved: usize,
    denials: usize,
    ttl_count: usize,
    total_inserts: u64,
    last_generation: u64,
    epoch_origin: Instant,
    map: M,
    queue: VecDeque<QueueEntry<K>>,
    clock: W,
    _marker: PhantomData<(V, C)>,
}

/// What a reclaim has taken out so far.
struct Tally {
    count: usize,
    bytes: usize,
    ttl: usize,
}

/// What a queue stands for.
pub open spec fn nodes<K: View>(queue: Seq<QueueEntry<K>>) -> Seq<QueueNode<K::V>> {
    Seq::new(queue.len(), |i: int| queue[i]@)
}

/// What an insert of cost `need` into the store `before` answers: the outcome
/// if the budget lets it in, otherwise the pair with the reason.
pub open spec fn answers_put<K: View, V>(
    before: StoreModel<K::V, V>,
    key: K,
    value: V,
    need: usize,
    result: Result<InsertOutcome, Denied<K, V>>,
) -> bool {
    match result {
        Ok(outcome) => {
            &&& before.admits(key@, need as int)
            &&& outcome == before.put_outcome(key@, need)
        },
        Err(denied) => {
            &&& !before.admits(key@, need as int)
            &&& denied@.key == key
            &&& denied@.value == value
            &&& denied@.required == need
            &&& denied@.available == before.available()
        },
    }
}

/// A queue stands for its nodes, one for one.
pub proof fn law_queue_stands_for_its_nodes<K: View>(queue: Seq<QueueEntry<K>>)
    ensures
        nodes(queue).len() == queue.len(),
        forall|i: int| 0 <= i < queue.len() ==> #[trigger] nodes(queue)[i] == queue[i]@,
{
}

/// What an insert answers, by the counters and the entry held before: it is let
/// in if and only if what it adds to the bytes reserved stays under the cap, or
/// it adds nothing to what it replaces; then it reports what was charged and
/// freed. Otherwise the pair comes back with the cost and what was left under
/// the cap.
pub proof fn law_insert_answers_by_the_counters<K: View, V>(
    before: StoreModel<K::V, V>,
    key: K,
    value: V,
    need: usize,
    result: Result<InsertOutcome, Denied<K, V>>,
)
    requires
        answers_put(before, key, value, need, result),
    ensures
        result is Ok <==> (if before.slots.contains_key(key@) {
            need <= before.slots[key@].cost || before.reserved + (need - before.slots[key@].cost)
                <= before.capacity
        } else {
            before.reserved + need <= before.capacity
        }),
        result matches Ok(outcome) ==> outcome == (if before.slots.contains_key(key@) {
            InsertOutcome::Replaced { freed: before.slots[key@].cost, charged: need }
        } else {
            InsertOutcome::Stored { charged: need }
        }),
        result matches Err(denied) ==> {
            &&& denied@.key == key
            &&& denied@.value == value
            &&& denied@.required == need
            &&& denied@.available == (if before.reserved <= before.capacity {
                before.capacity - before.reserved
            } else {
                0
            })
        },
{
}

impl<K: View, V, C, W, M: SlotTable<K, V>> View for BudgetStore<K, V, C, W, M> {
    type V = StoreModel<K::V, V>;

    closed spec fn view(&self) -> StoreModel<K::V, V> {
        StoreModel {
            origin: self.epoch_origin,
            capacity: self.capacity as int,
            reserved: self.reserved as int,
            denials: self.denials as int,
            ttl_count: self.ttl_count as int,
            total_inserts: self.total_inserts as int,
            last_generation: self.last_generation as int,
            slots: self.map.slots(),
            queue: nodes(self.queue@),
        }
    }
}

impl<K, V, C, W, M> BudgetStore<K, V, C, W, M> {
    /// The clock that the store reads.
    pub closed spec fn clock(&self) -> W {
        self.clock
    }
}

impl<K: View, V, C: Cost<K, V>, M: SlotTable<K, V>> BudgetStore<K, V, C, SystemClock, M> {
    /// Creates an empty store with a byte capacity limit using the system
    /// clock.
    pub fn new(capacity: usize) -> (store: Self)
        ensures
            store.wf(),
            store.clock().zero_was_read(),
            store.may_read(store@.origin),
            store@ == StoreModel::<K::V, V>::empty(capacity as int, store@.origin),
    {
        Self::with_clock(capacity, SystemClock::start())
    }
}

impl<K: View, V, C: Cost<K, V>, W: Clock, M: SlotTable<K, V>> BudgetStore<K, V, C, W, M> {
    /// Validity of the store.
    pub open spec fn wf(&self) -> bool {
        self@.wf()
    }

    /// Whether the store's clock may read `now`.
    pub open spec fn may_read(&self, now: Instant) -> bool {
        call_ensures(W::now, (&self.clock(),), now)
    }

    /// Whether a reader may be told that `key` is present, or absent: an entry
    /// that expires is present by some reading of the clock, any other by being
    /// held.
    pub open spec fn may_find(&self, key: K::V, present: bool) -> bool {
        if self@.slots.contains_key(key) && self@.slots[key].has_ttl() {
            exists|now: Instant|
                self.may_read(now) && present == #[trigger] self@.visible(key, now)
        } else {
            present == self@.slots.contains_key(key)
        }
    }

    /// What the store may read is what its clock may hand out.
    pub proof fn law_store_reads_its_own_clock(&self, now: Instant)
        ensures
            self.may_read(now) <==> call_ensures(W::now, (&self.clock(),), now),
    {
    }

    /// A reader is told that an absent key is absent and a permanent one is
    /// present; and of one that expires, that it is present if and only if a
    /// reading of the clock lies before the microsecond of its expiry.
    pub proof fn law_reader_is_told_by_the_clock(&self, key: K::V, present: bool)
        ensures
            !self@.slots.contains_key(key) ==> (self.may_find(key, present) <==> !present),
            self@.slots.contains_key(key) && self@.slots[key].expires_at_micros == 0 ==> (
            self.may_find(key, present) <==> present),
            self@.slots.contains_key(key) && self@.slots[key].expires_at_micros > 0 ==> (
            self.may_find(key, present) <==> exists|now: Instant| #[trigger]
                call_ensures(W::now, (&self.clock(),), now) && present == (
                self@.slots[key].expires_at_micros > 1 && now.nanos < self@.origin.nanos + (
                self@.slots[key].expires_at_micros - 1) * 1_000)),
    {
        if self@.slots.contains_key(key) && self@.slots[key].expires_at_micros > 0 {
            assert forall|now: Instant| #[trigger] self@.visible(key, now) == (
            self@.slots[key].expires_at_micros > 1 && now.nanos < self@.origin.nanos + (
            self@.slots[key].expires_at_micros - 1) * 1_000) by {
                law_visible_until_its_expiry(self@, key, now);
            }
            if self.may_find(key, present) {
                let now = choose|now: Instant|
                    self.may_read(now) && present == #[trigger] self@.visible(key, now);
                assert(call_ensures(W::now, (&self.clock(),), now));
            }
            if exists|now: Instant| #[trigger]
                call_ensures(W::now, (&self.clock(),), now) && present == (
                self@.slots[key].expires_at_micros > 1 && now.nanos < self@.origin.nanos + (
                self@.slots[key].expires_at_micros - 1) * 1_000) {
                let now = choose|now: Instant| #[trigger]
                    call_ensures(W::now, (&self.clock(),), now) && present == (
                    self@.slots[key].expires_at_micros > 1 && now.nanos < self@.origin.nanos + (
                    self@.slots[key].expires_at_micros - 1) * 1_000);
                assert(self.may_read(now) && present == self@.visible(key, now));
            }
        }
    }

    /// Creates an empty store with a byte capacity limit and an injected
    /// clock, whose present reading becomes the store's origin.
    pub fn with_clock(capacity: usize, clock: W) -> (store: Self)
        ensures
            store.wf(),
            store.clock() == clock,
            store.may_read(store@.origin),
            store@ == StoreModel::<K::V, V>::empty(capacity as int, store@.origin),
    {
        let origin = clock.now();
        let store = BudgetStore {
            capacity,
            reserved: 0,
            denials: 0,
            ttl_count: 0,
            total_inserts: 0,
            last_generation: 0,
            epoch_origin: origin,
            map: M::empty(),
            queue: VecDeque::new(),
            clock,
            _marker: PhantomData,
        };
        proof {
            assert(store@.queue =~= Seq::empty());
            StoreModel::<K::V, V>::lemma_empty_wf(capacity as int, origin);
        }
        store
    }

    /// Reserves `need` bytes if they fit under the cap.
    fn reserve(&mut self, need: usize) -> (result: Result<(), ()>)
        ensures
            final(self).clock() == old(self).clock(),
            result is Ok <==> old(self)@.reserved + need <= old(self)@.capacity,
            final(self)@ == (if result is Ok {
                StoreModel { reserved: old(self)@.reserved + need, ..old(self)@ }
            } else {
                old(self)@
            }),
    {
        match self.reserved.checked_add(need) {
            None => Err(()),
            Some(next) => {
                if next > self.capacity {
                    Err(())
                } else {
                    self.reserved = next;
                    Ok(())
                }
            },
        }
    }

    /// Counts a denial and hands the pair back.
    fn denial(&mut self, key: K, value: V, required: usize) -> (denied: Denied<K, V>)
        ensures
            final(self).clock() == old(self).clock(),
            final(self)@ == old(self)@.deny(),
            denied@.key == key,
            denied@.value == value,
            denied@.required == required,
            denied@.available == old(self)@.available(),
    {
        self.denials = self.denials.wrapping_add(1);
        Denied::new(key, value, required, self.available())
    }

    /// Moves the expiry counter from an entry that had a TTL, or had none, to
    /// one that has, or has none.
    fn ttl_delta(&mut self, old_had_ttl: bool, new_has_ttl: bool)
        requires
            new_has_ttl && !old_had_ttl ==> old(self)@.ttl_count < usize::MAX,
            old_had_ttl && !new_has_ttl ==> old(self)@.ttl_count > 0,
        ensures
            final(self).clock() == old(self).clock(),
            final(self)@ == (StoreModel {
                ttl_count: old(self)@.ttl_count + (if new_has_ttl {
                    1int
                } else {
                    0int
                }) - (if old_had_ttl {
                    1int
                } else {
                    0int
                }),
                ..old(self)@
            }),
    {
        match (old_had_ttl, new_has_ttl) {
            (false, true) => {
                self.ttl_count = self.ttl_count + 1;
            },
            (true, false) => {
                self.ttl_count = self.ttl_count - 1;
            },
            _ => {},
        }
    }

    /// Unreserved headroom under the cap.
    pub fn available(&self) -> (bytes: usize)
        ensures
            bytes == self@.available(),
            self@.reserved <= self@.capacity ==> bytes == self@.capacity - self@.reserved,
            self@.reserved > self@.capacity ==> bytes == 0,
    {
        self.capacity.saturating_sub(self.reserved)
    }

    /// Whether a queue node belongs to an entry that is still held.
    fn is_live_entry(map: &M, entry: &QueueEntry<K>) -> (live: bool)
        ensures
            live == is_live(map.slots(), entry@),
    {
        match map.meta(entry.key()) {
            Some(meta) => meta.generation == entry.generation(),
            None => false,
        }
    }

    /// Drops stale nodes from the head of the queue, up to the trim limit.
    pub fn trim_stale_head(map: &M, q: &mut VecDeque<QueueEntry<K>>)
        ensures
            nodes(final(q)@) == nodes(old(q)@).skip(
                stale_head(nodes(old(q)@), map.slots(), TRIM_LIMIT as nat) as int,
            ),
    {
        let ghost start = nodes(q@);
        let mut trimmed: usize = 0;
        proof {
            assert(start.skip(0) =~= start);
        }
        while trimmed < TRIM_LIMIT && q.len() > 0
            invariant
                start == nodes(old(q)@),
                trimmed <= TRIM_LIMIT,
                trimmed <= start.len(),
                nodes(q@) == start.skip(trimmed as int),
                stale_head(start, map.slots(), TRIM_LIMIT as nat) == trimmed + stale_head(
                    start.skip(trimmed as int),
                    map.slots(),
                    (TRIM_LIMIT - trimmed) as nat,
                ),
            decreases TRIM_LIMIT - trimmed,
        {
            assert(nodes(q@)[0] == q@[0]@);
            if Self::is_live_entry(map, &q[0]) {
                return;
            }
            assert(start.skip(trimmed as int).drop_first() =~= start.skip(trimmed + 1));
            let ghost before = q@;
            q.pop_front();
            assert(nodes(q@) =~= nodes(before).drop_first());
            trimmed = trimmed + 1;
        }
    }

    /// Reduces the queue to its live nodes, in their order.
    pub fn compact_queue_locked(map: &M, q: &mut VecDeque<QueueEntry<K>>)
        ensures
            nodes(final(q)@) == live_nodes(nodes(old(q)@), map.slots()),
    {
        let ghost start = nodes(q@);
        let ghost keep = |node: QueueNode<K::V>| is_live(map.slots(), node);
        let count: usize = q.len();
        let mut seen: usize = 0;
        proof {
            reveal(Seq::filter);
            assert(nodes(q@) =~= start.skip(0) + start.take(0).filter(keep));
        }
        while seen < count
            invariant
                start == nodes(old(q)@),
                count == start.len(),
                seen <= count,
                keep == (|node: QueueNode<K::V>| is_live(map.slots(), node)),
                nodes(q@) == start.skip(seen as int) + start.take(seen as int).filter(keep),
            decreases count - seen,
        {
            let ghost before = q@;
            assert(nodes(before)[0] == start[seen as int]);
            let head = q.pop_front();
            assert(nodes(q@) =~= nodes(before).drop_first());
            proof {
                reveal(Seq::filter);
                assert(start.take(seen + 1).drop_last() =~= start.take(seen as int));
                assert(start.take(seen + 1).last() == start[seen as int]);
            }
            if let Some(entry) = head {
                assert(entry@ == start[seen as int]);
                if Self::is_live_entry(map, &entry) {
                    let ghost shorter = q@;
                    q.push_back(entry);
                    assert(nodes(q@) =~= nodes(shorter).push(entry@));
                    assert(nodes(q@) =~= start.skip(seen + 1) + start.take(seen + 1).filter(keep));
                } else {
                    assert(nodes(q@) =~= start.skip(seen + 1) + start.take(seen + 1).filter(keep));
                }
            }
            seen = seen + 1;
        }
        assert(start.take(count as int) =~= start);
        assert(nodes(q@) =~= live_nodes(start, map.slots()));
    }

    /// The upkeep of the queue that follows an admission.
    fn tidy_queue(&mut self)
        ensures
            final(self).clock() == old(self).clock(),
            final(self)@ == (StoreModel {
                queue: tidied(old(self)@.queue, old(self)@.slots),
                ..old(self)@
            }),
    {
        Self::trim_stale_head(&self.map, &mut self.queue);
        let queued: usize = self.queue.len();
        if queued > COMPACT_FLOOR {
            let held: usize = self.map.len();
            if held < queued && queued - held > held {
                Self::compact_queue_locked(&self.map, &mut self.queue);
            }
        }
    }

    /// Inserts or replaces an entry of the given cost at the given time.
    pub fn put_at(
        &mut self,
        key: K,
        value: V,
        need: usize,
        ttl: Option<Duration>,
        now: Instant,
    ) -> (result: Result<InsertOutcome, Denied<K, V>>)
        requires
            old(self).wf(),
            old(self)@.total_inserts < u64::MAX,
        ensures
            final(self).wf(),
            final(self).clock() == old(self).clock(),
            final(self)@ == old(self)@.put(key@, value, need, ttl, now),
            answers_put(old(self)@, key, value, need, result),
            result is Ok <==> (if old(self)@.slots.contains_key(key@) {
                need <= old(self)@.slots[key@].cost || old(self)@.reserved + need
                    - old(self)@.slots[key@].cost <= old(self)@.capacity
            } else {
                old(self)@.reserved + need <= old(self)@.capacity
            }),
            result is Ok ==> final(self)@.slots[key@].value == value,
            result is Ok ==> final(self)@.slots[key@].cost == need,
    {
        let ghost start = self@;
        proof {
            start.lemma_put_wf(key@, value, need, ttl, now);
        }
        let expires_at_micros: u128 = deadline_micros(self.epoch_origin, now, ttl);
        let new_has_ttl = expires_at_micros != 0;
        match self.map.meta(&key) {
            Some(before) => {
                proof {
                    lemma_total_covers(start.slots, key@);
                    lemma_ttl_finite(start.slots);
                    if start.slots[key@].has_ttl() {
                        assert(ttl_keys(start.slots).contains(key@));
                        assert(ttl_keys(start.slots).len() > 0);
                    } else {
                        lemma_ttl_insert(
                            start.slots,
                            key@,
                            start.replace(key@, value, need, expires_at_micros).slots[key@],
                        );
                        lemma_ttl_finite(
                            start.replace(key@, value, need, expires_at_micros).slots,
                        );
                        start.lemma_no_more_slots_than_nodes();
                        assert(start.replace(key@, value, need, expires_at_micros).slots.dom()
                            =~= start.slots.dom());
                        assert(self.queue.len() == start.queue.len());
                    }
                }
                if need > before.cost {
                    if self.reserve(need - before.cost).is_err() {
                        return Err(self.denial(key, value, need));
                    }
                } else if need < before.cost {
                    self.reserved = self.reserved - (before.cost - need);
                }
                self.map.insert(
                    key,
                    Slot {
                        value,
                        cost: need,
                        expires_at_micros,
                        generation: before.generation,
                    },
                );
                self.ttl_delta(before.expires_at_micros != 0, new_has_ttl);
                self.total_inserts = self.total_inserts + 1;
                assert(self@ == start.replace(key@, value, need, expires_at_micros));
                Ok(InsertOutcome::Replaced { freed: before.cost, charged: need })
            },
            None => {
                if self.reserve(need).is_err() {
                    return Err(self.denial(key, value, need));
                }
                let generation: u64 = self.last_generation + 1;
                self.last_generation = generation;
                let queue_key = M::copy_key(&key);
                self.map.insert(
                    key,
                    Slot { value, cost: need, expires_at_micros, generation },
                );
                let ghost queued = self.queue@;
                self.queue.push_back(QueueEntry::new(queue_key, now, generation));
                proof {
                    assert(nodes(self.queue@) =~= nodes(queued).push(
                        QueueNode { key: key@, stamp: now, generation },
                    ));
                    lemma_ttl_finite(start.slots);
                    start.lemma_no_more_slots_than_nodes();
                    assert(self.queue.len() == start.queue.len() + 1);
                }
                self.ttl_delta(false, new_has_ttl);
                self.total_inserts = self.total_inserts + 1;
                self.tidy_queue();
                assert(self@ == start.store_fresh(key@, value, need, expires_at_micros, now));
                Ok(InsertOutcome::Stored { charged: need })
            },
        }
    }

    /// Inserts or replaces an entry with an optional TTL.
    pub fn put_with_ttl(
        &mut self,
        key: K,
        value: V,
        ttl: Option<Duration>,
    ) -> (result: Result<InsertOutcome, Denied<K, V>>)
        requires
            old(self).wf(),
            old(self)@.total_inserts < u64::MAX,
        ensures
            final(self).wf(),
            final(self).clock() == old(self).clock(),
            exists|need: usize, now: Instant|
                {
                    &&& call_ensures(C::entry_cost, (&key, &value), need)
                    &&& old(self).may_read(now)
                    &&& final(self)@ == #[trigger] old(self)@.put(key@, value, need, ttl, now)
                    &&& answers_put(old(self)@, key, value, need, result)
                },
    {
        let need: usize = C::entry_cost(&key, &value);
        let now = self.clock.now();
        let ghost before = self@;
        let result = self.put_at(key, value, need, ttl, now);
        assert(self@ == before.put(key@, value, need, ttl, now));
        result
    }

    /// Inserts or replaces a key-value pair without an expiry.
    pub fn put(&mut self, key: K, value: V) -> (result: Result<InsertOutcome, Denied<K, V>>)
        requires
            old(self).wf(),
            old(self)@.total_inserts < u64::MAX,
        ensures
            final(self).wf(),
            final(self).clock() == old(self).clock(),
            exists|need: usize, now: Instant|
                {
                    &&& call_ensures(C::entry_cost, (&key, &value), need)
                    &&& old(self).may_read(now)
                    &&& final(self)@ == #[trigger] old(self)@.put(key@, value, need, None, now)
                    &&& answers_put(old(self)@, key, value, need, result)
                },
    {
        self.put_with_ttl(key, value, None)
    }

    /// Scoped read at the given time: runs `f` over the value if `key` is
    /// present and unexpired.
    pub fn get_with_at<R>(&self, key: &K, now: Instant, f: impl FnOnce(&V) -> R) -> (result: Option<
        R,
    >)
        requires
            self@.visible(key@, now) ==> call_requires(f, (&self@.slots[key@].value,)),
        ensures
            match result {
                Some(r) => {
                    &&& self@.visible(key@, now)
                    &&& call_ensures(f, (&self@.slots[key@].value,), r)
                },
                None => !self@.visible(key@, now),
            },
    {
        if self.contains_key_at(key, now) {
            self.map.read(key, f)
        } else {
            None
        }
    }

    /// Scoped read: runs `f` over the value if `key` is present and unexpired.
    /// The clock is read only for an entry that carries an expiry.
    pub fn get_with<R>(&self, key: &K, f: impl FnOnce(&V) -> R) -> (result: Option<R>)
        requires
            self.may_find(key@, true) ==> call_requires(f, (&self@.slots[key@].value,)),
        ensures
            self.may_find(key@, result is Some),
            result matches Some(r) ==> call_ensures(f, (&self@.slots[key@].value,), r),
    {
        if self.contains_key(key) {
            self.map.read(key, f)
        } else {
            None
        }
    }

    /// Clones the value under `key` if it is present and unexpired.
    pub fn get(&self, key: &K) -> (result: Option<V>) where V: Clone
        ensures
            self.may_find(key@, result is Some),
            result matches Some(value) ==> cloned(self@.slots[key@].value, value),
    {
        let copy_out = |value: &V| -> (copy: V)
            ensures
                cloned(*value, copy),
        {
            value.clone()
        };
        self.get_with(key, copy_out)
    }

    /// Whether `key` is present and unexpired at the given time.
    pub fn contains_key_at(&self, key: &K, now: Instant) -> (present: bool)
        ensures
            present == self@.visible(key@, now),
    {
        match self.map.meta(key) {
            Some(meta) => !meta.is_expired(instant_to_micros(self.epoch_origin, now)),
            None => false,
        }
    }

    /// Whether `key` is present and unexpired. The clock is read only for an
    /// entry that carries an expiry.
    pub fn contains_key(&self, key: &K) -> (present: bool)
        ensures
            self.may_find(key@, present),
    {
        match self.map.meta(key) {
            Some(meta) => {
                if meta.expires_at_micros != 0 {
                    let now = self.clock.now();
                    let now_micros: u128 = instant_to_micros(self.epoch_origin, now);
                    let present = !meta.is_expired(now_micros);
                    assert(present == self@.visible(key@, now));
                    present
                } else {
                    true
                }
            },
            None => false,
        }
    }

    /// Removes an entry and refunds its reservation.
    pub fn remove(&mut self, key: &K) -> (result: Option<V>)
        requires
            old(self).wf(),
        ensures
            final(self).wf(),
            final(self).clock() == old(self).clock(),
            final(self)@ == old(self)@.remove(key@),
            result == (if old(self)@.slots.contains_key(key@) {
                Some(old(self)@.slots[key@].value)
            } else {
                None
            }),
    {
        let ghost start = self@;
        proof {
            start.lemma_remove_wf(key@);
        }
        match self.map.remove(key) {
            Some(slot) => {
                proof {
                    lemma_total_covers(start.slots, key@);
                }
                self.reserved = self.reserved - slot.cost;
                self.ttl_delta(slot.expires_at_micros != 0, false);
                assert(self@ == start.remove(key@));
                Some(slot.value)
            },
            None => {
                assert(self@.slots =~= start.slots);
                assert(self@ == start);
                None
            },
        }
    }

    /// Makes an entry that expires permanent, if it has not expired by the
    /// given time.
    pub fn pin_at(&mut self, key: &K, now: Instant) -> (pinned: bool)
        requires
            old(self).wf(),
        ensures
            final(self).wf(),
            final(self).clock() == old(self).clock(),
            final(self)@ == old(self)@.pin(key@, now),
            pinned == old(self)@.pinnable(key@, now),
    {
        let ghost start = self@;
        proof {
            start.lemma_pin_wf(key@, now);
        }
        match self.map.meta(key) {
            Some(meta) => {
                let now_micros: u128 = instant_to_micros(self.epoch_origin, now);
                if meta.expires_at_micros != 0 && !meta.is_expired(now_micros) {
                    self.map.cancel_ttl(key);
                    proof {
                        lemma_ttl_finite(start.slots);
                        assert(ttl_keys(start.slots).contains(key@));
                    }
                    self.ttl_delta(true, false);
                    assert(self@ == start.pin(key@, now));
                    true
                } else {
                    false
                }
            },
            None => false,
        }
    }

    /// Makes an entry that expires permanent. Refuses to revive one that has
    /// already expired.
    pub fn pin(&mut self, key: &K) -> (pinned: bool)
        requires
            old(self).wf(),
        ensures
            final(self).wf(),
            final(self).clock() == old(self).clock(),
            exists|now: Instant|
                {
                    &&& old(self).may_read(now)
                    &&& final(self)@ == #[trigger] old(self)@.pin(key@, now)
                    &&& pinned == old(self)@.pinnable(key@, now)
                },
    {
        let now = self.clock.now();
        self.pin_at(key, now)
    }

    /// Whether a queue node is older than `window` at `now`.
    fn is_aged_entry(entry: &QueueEntry<K>, window: Duration, now: Instant) -> (aged: bool)
        ensures
            aged == is_aged(entry@, window, now),
    {
        let stamp = entry.stamp();
        stamp.nanos < now.nanos && window.as_nanos() < now.nanos - stamp.nanos
    }

    /// Whether the first `cut` nodes have been popped from the store `start`,
    /// with the entries of the live ones in the tally and not yet refunded.
    spec fn has_popped(&self, start: StoreModel<K::V, V>, cut: int, tally: Tally) -> bool {
        &&& start.wf()
        &&& start.slots.len() <= usize::MAX
        &&& 0 <= cut <= start.queue.len()
        &&& self@ == (StoreModel {
            queue: start.queue.skip(cut),
            slots: start.pop(cut).slots,
            ..start
        })
        &&& tally.count + self@.slots.len() == start.slots.len()
        &&& tally.bytes + total_cost(self@.slots) == start.reserved
        &&& tally.ttl + ttl_keys(self@.slots).len() == start.ttl_count
    }

    /// The tally of a reclaim that has popped nothing yet.
    fn empty_tally(&self) -> (tally: Tally)
        requires
            self.wf(),
        ensures
            self.has_popped(self@, 0, tally),
            tally.count == 0,
    {
        proof {
            self@.lemma_pop_none();
            self@.lemma_no_more_slots_than_nodes();
            assert(self.queue.len() == self@.queue.len());
            assert(self@.queue.skip(0) =~= self@.queue);
        }
        Tally { count: 0, bytes: 0, ttl: 0 }
    }

    /// Pops the oldest queue node; if it is live, takes its entry out and adds
    /// it to the tally.
    fn reclaim_head(
        &mut self,
        tally: &mut Tally,
        Ghost(start): Ghost<StoreModel<K::V, V>>,
        Ghost(cut): Ghost<int>,
    )
        requires
            old(self).has_popped(start, cut, *old(tally)),
            cut < start.queue.len(),
        ensures
            final(self).clock() == old(self).clock(),
            final(self).has_popped(start, cut + 1, *final(tally)),
            final(tally).count == old(tally).count + (if is_live(start.slots, start.queue[cut]) {
                1int
            } else {
                0int
            }),
    {
        let ghost before = self@;
        let ghost queued = self.queue@;
        proof {
            start.lemma_pop_step(cut);
            start.lemma_pop_wf(cut);
            start.lemma_pop_wf(cut + 1);
            assert(before.queue[0] == start.queue[cut]);
            assert(before.queue.drop_first() =~= start.queue.skip(cut + 1));
        }
        let head = self.queue.pop_front();
        assert(nodes(self.queue@) =~= nodes(queued).drop_first());
        if let Some(entry) = head {
            assert(entry@ == start.queue[cut]);
            if let Some(slot) = self.map.remove_generation(entry.key(), entry.generation()) {
                proof {
                    let key = start.queue[cut].key;
                    lemma_total_remove(before.slots, key);
                    lemma_total_nonneg(before.slots.remove(key));
                    lemma_ttl_remove(before.slots, key);
                    lemma_ttl_finite(start.slots);
                    before.slots.lemma_remove_key_len(key);
                }
                tally.count = tally.count + 1;
                tally.bytes = tally.bytes + slot.cost;
                if slot.expires_at_micros != 0 {
                    tally.ttl = tally.ttl + 1;
                }
            }
        }
    }

    /// Refunds what a reclaim has taken out.
    fn settle(
        &mut self,
        tally: &Tally,
        Ghost(start): Ghost<StoreModel<K::V, V>>,
        Ghost(cut): Ghost<int>,
    )
        requires
            old(self).has_popped(start, cut, *tally),
        ensures
            final(self).wf(),
            final(self).clock() == old(self).clock(),
            final(self)@ == start.pop(cut),
            tally.count == start.slots.len() - final(self)@.slots.len(),
            tally.bytes == start.reserved - final(self)@.reserved,
    {
        proof {
            start.lemma_pop_wf(cut);
            lemma_total_nonneg(self@.slots);
        }
        self.reserved = self.reserved - tally.bytes;
        self.ttl_count = self.ttl_count - tally.ttl;
        assert(self@ == start.pop(cut));
    }

    /// Reclaims up to `n` entries in admission order and returns the bytes
    /// refunded.
    pub fn evict(&mut self, n: usize) -> (reclaimed: usize)
        requires
            old(self).wf(),
        ensures
            final(self).wf(),
            final(self).clock() == old(self).clock(),
            final(self)@ == old(self)@.evict(n as nat),
            reclaimed == old(self)@.reserved - final(self)@.reserved,
    {
        let ghost start = self@;
        let ghost mut cut: int = 0;
        let mut tally = self.empty_tally();
        assert(start.queue.skip(0) =~= start.queue);
        while tally.count < n && self.queue.len() > 0
            invariant
                self.clock() == old(self).clock(),
                self.has_popped(start, cut, tally),
                tally.count <= n,
                fifo_cut(start.queue, start.slots, n as nat) == cut + fifo_cut(
                    start.queue.skip(cut),
                    start.slots,
                    (n - tally.count) as nat,
                ),
            decreases start.queue.len() - cut,
        {
            assert(self@.queue.len() == self.queue@.len());
            assert(start.queue.skip(cut).drop_first() =~= start.queue.skip(cut + 1));
            self.reclaim_head(&mut tally, Ghost(start), Ghost(cut));
            proof {
                cut = cut + 1;
            }
        }
        assert(self@.queue.len() == self.queue@.len());
        self.settle(&tally, Ghost(start), Ghost(cut));
        tally.bytes
    }

    /// Reclaims, oldest first, the entries older than `window` at `now`, up to
    /// the first that is not. Returns their number and the bytes refunded.
    pub fn evict_older_than_at(&mut self, window: Duration, now: Instant) -> (reclaimed: (
        usize,
        usize,
    ))
        requires
            old(self).wf(),
        ensures
            final(self).wf(),
            final(self).clock() == old(self).clock(),
            final(self)@ == old(self)@.evict_older_than(window, now),
            reclaimed.0 == old(self)@.slots.len() - final(self)@.slots.len(),
            reclaimed.1 == old(self)@.reserved - final(self)@.reserved,
    {
        let ghost start = self@;
        let ghost mut cut: int = 0;
        let mut tally = self.empty_tally();
        assert(start.queue.skip(0) =~= start.queue);
        while self.queue.len() > 0 && Self::is_aged_entry(&self.queue[0], window, now)
            invariant
                self.clock() == old(self).clock(),
                self.has_popped(start, cut, tally),
                age_cut(start.queue, window, now) == cut + age_cut(
                    start.queue.skip(cut),
                    window,
                    now,
                ),
            decreases start.queue.len() - cut,
        {
            assert(self@.queue.len() == self.queue@.len());
            assert(self@.queue[0] == self.queue@[0]@);
            assert(start.queue.skip(cut).drop_first() =~= start.queue.skip(cut + 1));
            self.reclaim_head(&mut tally, Ghost(start), Ghost(cut));
            proof {
                cut = cut + 1;
            }
        }
        assert(self@.queue.len() == self.queue@.len());
        self.settle(&tally, Ghost(start), Ghost(cut));
        (tally.count, tally.bytes)
    }

    /// Reclaims, oldest first, the entries older than `window`, up to the first
    /// that is not. Returns their number and the bytes refunded.
    pub fn evict_older_than(&mut self, window: Duration) -> (reclaimed: (usize, usize))
        requires
            old(self).wf(),
        ensures
            final(self).wf(),
            final(self).clock() == old(self).clock(),
            exists|now: Instant|
                {
                    &&& old(self).may_read(now)
                    &&& final(self)@ == #[trigger] old(self)@.evict_older_than(window, now)
                },
            reclaimed.0 == old(self)@.slots.len() - final(self)@.slots.len(),
            reclaimed.1 == old(self)@.reserved - final(self)@.reserved,
    {
        let now = self.clock.now();
        self.evict_older_than_at(window, now)
    }

    /// Reclaims every entry that has expired at the given time. Returns their
    /// number and the bytes refunded.
    pub fn evict_expired_at(&mut self, now: Instant) -> (reclaimed: (usize, usize))
        requires
            old(self).wf(),
        ensures
            final(self).wf(),
            final(self).clock() == old(self).clock(),
            final(self)@ == old(self)@.evict_expired(now),
            reclaimed.0 == old(self)@.slots.len() - final(self)@.slots.len(),
            reclaimed.1 == old(self)@.reserved - final(self)@.reserved,
    {
        let ghost start = self@;
        if self.ttl_count == 0 {
            proof {
                start.lemma_nothing_expires(now);
            }
            return (0, 0);
        }
        let now_micros: u128 = instant_to_micros(self.epoch_origin, now);
        let freed = self.map.drop_expired(now_micros);
        proof {
            start.lemma_evict_expired_wf(now);
            start.lemma_sweep_counts(now, freed@);
            lemma_ttl_finite(start.evict_expired(now).slots);
            lemma_total_nonneg(start.evict_expired(now).slots);
        }
        let count: usize = freed.len();
        let mut bytes: usize = 0;
        let mut i: usize = 0;
        while i < count
            invariant
                i <= count,
                count == freed@.len(),
                bytes == sum(freed@.take(i as int)),
                sum(freed@) <= usize::MAX,
            decreases count - i,
        {
            proof {
                lemma_sum_take(freed@, i + 1);
                assert(freed@.take(i + 1).drop_last() =~= freed@.take(i as int));
            }
            bytes = bytes + freed[i];
            i = i + 1;
        }
        assert(freed@.take(count as int) =~= freed@);
        self.reserved = self.reserved - bytes;
        self.ttl_count = self.ttl_count - count;
        assert(self@ == start.evict_expired(now));
        (count, bytes)
    }

    /// Reclaims every expired entry. Returns their number and the bytes
    /// refunded. The clock is read only if some entry carries an expiry.
    pub fn evict_expired(&mut self) -> (reclaimed: (usize, usize))
        requires
            old(self).wf(),
        ensures
            final(self).wf(),
            final(self).clock() == old(self).clock(),
            old(self)@.ttl_count == 0 ==> final(self)@ == old(self)@,
            old(self)@.ttl_count != 0 ==> exists|now: Instant|
                {
                    &&& old(self).may_read(now)
                    &&& final(self)@ == #[trigger] old(self)@.evict_expired(now)
                },
            reclaimed.0 == old(self)@.slots.len() - final(self)@.slots.len(),
            reclaimed.1 == old(self)@.reserved - final(self)@.reserved,
    {
        if self.ttl_count == 0 {
            return (0, 0);
        }
        let now = self.clock.now();
        self.evict_expired_at(now)
    }

    /// Drops every entry and resets the reservation counters.
    pub fn clear(&mut self)
        requires
            old(self).wf(),
        ensures
            final(self).wf(),
            final(self).clock() == old(self).clock(),
            final(self)@ == old(self)@.clear(),
    {
        proof {
            self@.lemma_clear_wf();
        }
        self.map.clear();
        self.queue.clear();
        self.reserved = 0;
        self.ttl_count = 0;
        assert(self@.queue =~= Seq::empty());
    }

    /// Sets the byte capacity limit. Nothing is evicted on that account.
    pub fn set_capacity(&mut self, capacity: usize)
        requires
            old(self).wf(),
        ensures
            final(self).wf(),
            final(self).clock() == old(self).clock(),
            final(self)@ == old(self)@.set_capacity(capacity),
            final(self)@.capacity == capacity,
    {
        proof {
            self@.lemma_set_capacity_wf(capacity);
        }
        self.capacity = capacity;
    }

    /// The reclaim queue, oldest admission first.
    pub fn queue_lock(&self) -> (queue: &VecDeque<QueueEntry<K>>)
        ensures
            nodes(queue@) == self@.queue,
    {
        &self.queue
    }

    /// Current byte capacity limit.
    pub fn capacity(&self) -> (bytes: usize)
        ensures
            bytes == self@.capacity,
    {
        self.capacity
    }

    /// Currently reserved bytes.
    pub fn reserved(&self) -> (bytes: usize)
        ensures
            bytes == self@.reserved,
    {
        self.reserved
    }

    /// Lifetime admission denials count.
    pub fn denials(&self) -> (count: usize)
        ensures
            count == self@.denials,
    {
        self.denials
    }

    /// Lifetime successful admissions count.
    pub fn total_inserts(&self) -> (count: u64)
        ensures
            count == self@.total_inserts,
    {
        self.total_inserts
    }

    /// Number of entries that carry an expiry.
    pub fn ttl_count(&self) -> (count: usize)
        ensures
            count == self@.ttl_count,
    {
        self.ttl_count
    }

    /// Capacity utilization (`reserved / capacity`) as an exact fraction: zero
    /// where nothing is reserved under no capacity, and above one if and only if
    /// the cap lies below what is reserved.
    pub fn pressure(&self) -> (pressure: Pressure)
        ensures
            self@.capacity == 0 && self@.reserved == 0 ==> pressure.numerator == 0
                && pressure.denominator == 1,
            self@.capacity != 0 || self@.reserved != 0 ==> pressure.numerator == self@.reserved
                && pressure.denominator == self@.capacity,
            (pressure.numerator > pressure.denominator) == (self@.reserved > self@.capacity),
    {
        if self.capacity == 0 && self.reserved == 0 {
            Pressure { numerator: 0, denominator: 1 }
        } else {
            Pressure { numerator: self.reserved, denominator: self.capacity }
        }
    }

    /// Number of entries held, expired ones included.
    pub fn len(&self) -> (count: usize)
        ensures
            count == self@.slots.len(),
    {
        self.map.len()
    }

    /// Whether the store holds no entries.
    pub fn is_empty(&self) -> (empty: bool)
        ensures
            empty == (self@.slots == Map::<K::V, Slot<V>>::empty()),
    {
        self.map.is_empty()
    }

    /// Point-in-time metrics snapshot.
    pub fn stats(&self) -> (stats: Stats)
        ensures
            stats.capacity == self@.capacity,
            stats.reserved == self@.reserved,
            stats.len == self@.slots.len(),
            stats.ttl_count == self@.ttl_count,
            stats.denials == self@.denials,
    {
        Stats {
            capacity: self.capacity(),
            reserved: self.reserved(),
            len: self.len(),
            ttl_count: self.ttl_count(),
            denials: self.denials(),
        }
    }

    /// What is shown of the store when it is printed for debugging.
    pub fn printed(&self) -> (shown: printed::BudgetStore)
        ensures
            shown.capacity == self@.capacity,
            shown.reserved == self@.reserved,
            shown.denials == self@.denials,
            shown.ttl_count == self@.ttl_count,
            shown.len == self@.slots.len(),
    {
        printed::BudgetStore {
            capacity: self.capacity(),
            reserved: self.reserved(),
            denials: self.denials(),
            ttl_count: self.ttl_count(),
            len: self.len(),
        }
    }
}

impl<K: View, V, C: Cost<K, V>, M: SlotTable<K, V>> std::fmt::Debug for BudgetStore<
    K,
    V,
    C,
    SystemClock,
    M,
> {
    /// `std::fmt::Debug::fmt` on what [`BudgetStore::printed`] gives. Nothing is
    /// claimed of the text.
    #[verifier::external_body]
    fn fmt(&self, f: &mut std::fmt::Formatter<'_>) -> Result<(), std::fmt::Error> {
        std::fmt::Debug::fmt(&self.printed(), f)
    }
}

impl<K: View, V, C: Cost<K, V>, W: Clock + Default, M: SlotTable<K, V>> Default for BudgetStore<
    K,
    V,
    C,
    W,
    M,
> {
    /// An empty store without capacity.
    fn default() -> (store: Self)
        ensures
            store.wf(),
            call_ensures(W::default, (), store.clock()),
            store.may_read(store@.origin),
            store@ == StoreModel::<K::V, V>::empty(0, store@.origin),
    {
        Self::with_clock(0, W::default())
    }
}

} // verus!
