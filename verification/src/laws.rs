//! What holds of the store as a whole.

use crate::clock::{deadline, Duration, Instant};
use crate::model::{
    age_cut, fifo_cut, is_aged, is_live, keys_before, live_nodes, stale_head, tidied, total_cost,
    ttl_keys, StoreModel, COMPACT_FLOOR, TRIM_LIMIT,
};
use crate::outcome::InsertOutcome;
use crate::slot::{QueueNode, Slot};
use crate::sums::{lemma_total_nonneg, lemma_total_remove, lemma_total_splits};
use crate::validity::{
    lemma_age_cut, lemma_fifo_cut_bound, lemma_live_members, lemma_live_nodes, lemma_stale_head,
    lemma_tidied,
};
use vstd::prelude::*;

verus! {

/// One call on a store, with what the clock and the cost measure answered.
pub enum Step<KV, V> {
    Put { key: KV, value: V, need: usize, ttl: Option<Duration>, now: Instant },
    Remove { key: KV },
    Pin { key: KV, now: Instant },
    EvictExpired { now: Instant },
    Evict { n: nat },
    EvictOlderThan { window: Duration, now: Instant },
    Clear,
    SetCapacity { capacity: usize },
}

impl<KV, V> StoreModel<KV, V> {
    /// The store after one call.
    pub open spec fn step(self, step: Step<KV, V>) -> Self {
        match step {
            Step::Put { key, value, need, ttl, now } => self.put(key, value, need, ttl, now),
            Step::Remove { key } => self.remove(key),
            Step::Pin { key, now } => self.pin(key, now),
            Step::EvictExpired { now } => self.evict_expired(now),
            Step::Evict { n } => self.evict(n),
            Step::EvictOlderThan { window, now } => self.evict_older_than(window, now),
            Step::Clear => self.clear(),
            Step::SetCapacity { capacity } => self.set_capacity(capacity),
        }
    }

    /// The store after a sequence of calls.
    pub open spec fn run(self, steps: Seq<Step<KV, V>>) -> Self
        decreases steps.len(),
    {
        if steps.len() == 0 {
            self
        } else {
            self.run(steps.drop_last()).step(steps.last())
        }
    }
}

/// Every call takes a valid store to a valid one.
pub proof fn law_step_keeps_validity<KV, V>(m: StoreModel<KV, V>, step: Step<KV, V>)
    requires
        m.wf(),
        m.total_inserts < u64::MAX,
    ensures
        m.step(step).wf(),
        m.step(step).total_inserts <= m.total_inserts + 1,
{
    match step {
        Step::Put { key, value, need, ttl, now } => m.lemma_put_wf(key, value, need, ttl, now),
        Step::Remove { key } => m.lemma_remove_wf(key),
        Step::Pin { key, now } => m.lemma_pin_wf(key, now),
        Step::EvictExpired { now } => m.lemma_evict_expired_wf(now),
        Step::Evict { n } => m.lemma_evict_wf(n),
        Step::EvictOlderThan { window, now } => m.lemma_evict_older_than_wf(window, now),
        Step::Clear => m.lemma_clear_wf(),
        Step::SetCapacity { capacity } => m.lemma_set_capacity_wf(capacity),
    }
}

/// The books balance after every history of calls: the reserved bytes are the
/// sum of the costs of the entries held, and the expiry counter is the number
/// of entries that carry an expiry.
pub proof fn law_books_balance<KV, V>(
    capacity: usize,
    origin: Instant,
    steps: Seq<Step<KV, V>>,
)
    requires
        steps.len() < u64::MAX,
    ensures
        ({
            let end = StoreModel::<KV, V>::empty(capacity as int, origin).run(steps);
            &&& end.wf()
            &&& end.reserved == total_cost(end.slots)
            &&& end.ttl_count == ttl_keys(end.slots).len()
            &&& end.total_inserts <= steps.len()
        }),
    decreases steps.len(),
{
    let start = StoreModel::<KV, V>::empty(capacity as int, origin);
    if steps.len() == 0 {
        StoreModel::<KV, V>::lemma_empty_wf(capacity as int, origin);
    } else {
        law_books_balance(capacity, origin, steps.drop_last());
        law_step_keeps_validity(start.run(steps.drop_last()), steps.last());
    }
}

/// No call raises the reserved bytes above the cap: where they grow, they end
/// up under it.
pub proof fn law_growth_stays_under_cap<KV, V>(m: StoreModel<KV, V>, step: Step<KV, V>)
    requires
        m.wf(),
    ensures
        m.step(step).reserved > m.reserved ==> m.step(step).reserved <= m.step(step).capacity,
{
    match step {
        Step::EvictExpired { now } => m.lemma_evict_expired_wf(now),
        Step::Evict { n } => m.lemma_evict_wf(n),
        Step::EvictOlderThan { window, now } => m.lemma_evict_older_than_wf(window, now),
        Step::Clear => lemma_total_nonneg(m.slots),
        _ => {},
    }
}

/// The reserved bytes never exceed the cap, unless the cap is lowered below
/// them: after every history in which it is not, they lie under it.
pub proof fn law_cap_is_hard<KV, V>(capacity: usize, origin: Instant, steps: Seq<Step<KV, V>>)
    requires
        steps.len() < u64::MAX,
        forall|i: int|
            #![trigger steps[i]]
            0 <= i < steps.len() ==> (steps[i] matches Step::SetCapacity { capacity: cap }
                ==> StoreModel::<KV, V>::empty(capacity as int, origin).run(steps.take(i)).reserved
                <= cap),
    ensures
        ({
            let end = StoreModel::<KV, V>::empty(capacity as int, origin).run(steps);
            end.reserved <= end.capacity
        }),
    decreases steps.len(),
{
    let start = StoreModel::<KV, V>::empty(capacity as int, origin);
    if steps.len() != 0 {
        let before = steps.drop_last();
        assert forall|i: int| #![trigger before[i]] 0 <= i < before.len() implies (
        before[i] matches Step::SetCapacity { capacity: cap } ==> start.run(before.take(i)).reserved
            <= cap) by {
            assert(before[i] == steps[i]);
            assert(before.take(i) =~= steps.take(i));
        }
        law_cap_is_hard(capacity, origin, before);
        law_books_balance(capacity, origin, before);
        let m = start.run(before);
        assert(steps.take(steps.len() - 1) =~= before);
        assert(steps[steps.len() - 1] == steps.last());
        law_growth_stays_under_cap(m, steps.last());
        match steps.last() {
            Step::SetCapacity { capacity: cap } => {},
            _ => {},
        }
    }
}

/// A denied insert changes nothing but the denial counter.
pub proof fn law_denial_changes_nothing<KV, V>(
    m: StoreModel<KV, V>,
    key: KV,
    value: V,
    need: usize,
    ttl: Option<Duration>,
    now: Instant,
)
    requires
        !m.admits(key, need as int),
    ensures
        m.put(key, value, need, ttl, now) == (StoreModel {
            denials: m.put(key, value, need, ttl, now).denials,
            ..m
        }),
{
}

/// Every insert is either admitted and counted as an admission, or denied and
/// counted as a denial.
pub proof fn law_every_insert_is_counted<KV, V>(
    m: StoreModel<KV, V>,
    key: KV,
    value: V,
    need: usize,
    ttl: Option<Duration>,
    now: Instant,
)
    requires
        m.denials < usize::MAX,
    ensures
        ({
            let post = m.put(key, value, need, ttl, now);
            if m.admits(key, need as int) {
                post.total_inserts == m.total_inserts + 1 && post.denials == m.denials
            } else {
                post.total_inserts == m.total_inserts && post.denials == m.denials + 1
            }
        }),
{
}

/// Only inserts move the lifetime counters, only a new cap changes the cap, and
/// nothing moves the origin.
pub proof fn law_counters_move_with_inserts_alone<KV, V>(m: StoreModel<KV, V>, step: Step<KV, V>)
    ensures
        !(step is Put) ==> m.step(step).denials == m.denials && m.step(step).total_inserts
            == m.total_inserts,
        !(step is SetCapacity) ==> m.step(step).capacity == m.capacity,
        m.step(step).origin == m.origin,
{
}

/// An expired entry is invisible to readers, yet its bytes stay reserved on top
/// of those of all other entries.
pub proof fn law_expired_stays_charged<KV, V>(m: StoreModel<KV, V>, key: KV, now: Instant)
    requires
        m.wf(),
        m.slots.contains_key(key),
        m.slots[key].expired_at(m.micros(now)),
    ensures
        !m.visible(key, now),
        m.reserved == m.slots[key].cost + total_cost(m.slots.remove(key)),
        m.slots[key].cost <= m.reserved,
{
    lemma_total_remove(m.slots, key);
    lemma_total_nonneg(m.slots.remove(key));
}

/// A replacement is charged the difference to what it replaces, no more and no
/// less.
pub proof fn law_replacement_charges_the_difference<KV, V>(
    m: StoreModel<KV, V>,
    key: KV,
    value: V,
    need: usize,
    ttl: Option<Duration>,
    now: Instant,
)
    requires
        m.slots.contains_key(key),
        m.admits(key, need as int),
    ensures
        m.put(key, value, need, ttl, now).reserved - m.reserved == need - m.slots[key].cost,
{
}

/// A replacement that does not cost more is admitted however full the store is.
pub proof fn law_shrinking_is_always_admitted<KV, V>(m: StoreModel<KV, V>, key: KV, need: usize)
    requires
        m.slots.contains_key(key),
        need <= m.slots[key].cost,
    ensures
        m.admits(key, need as int),
{
}

/// A fresh entry is admitted if and only if it fits into the bytes available,
/// as long as the store is not above its cap.
pub proof fn law_fresh_entry_needs_room<KV, V>(m: StoreModel<KV, V>, key: KV, need: usize)
    requires
        !m.slots.contains_key(key),
        m.reserved <= m.capacity,
    ensures
        m.admits(key, need as int) <==> need <= m.available(),
{
}

/// A store above its cap takes in no fresh entry, whatever it costs.
pub proof fn law_no_fresh_entry_above_cap<KV, V>(m: StoreModel<KV, V>, key: KV, need: usize)
    requires
        !m.slots.contains_key(key),
        m.reserved > m.capacity,
    ensures
        !m.admits(key, need as int),
{
}

/// What an admitted insert wrote is what a reader finds, for as long as it has
/// not expired, and no other entry is touched.
pub proof fn law_read_gives_back_what_was_written<KV, V>(
    m: StoreModel<KV, V>,
    key: KV,
    value: V,
    need: usize,
    ttl: Option<Duration>,
    now: Instant,
    later: Instant,
)
    requires
        m.admits(key, need as int),
    ensures
        ({
            let post = m.put(key, value, need, ttl, now);
            &&& post.slots.contains_key(key)
            &&& post.slots[key].value == value
            &&& post.slots[key].cost == need
            &&& post.visible(key, later) == (ttl is None || m.micros(later) < deadline(
                m.origin,
                now,
                ttl,
            ))
            &&& forall|other: KV|
                other != key ==> post.slots.contains_key(other) == m.slots.contains_key(other)
                    && (m.slots.contains_key(other) ==> #[trigger] post.slots[other]
                    == m.slots[other])
        }),
{
}

/// An entry with a time to live is visible until then, to the microsecond, and
/// not from then on.
pub proof fn law_expiry_is_on_time<KV, V>(
    m: StoreModel<KV, V>,
    key: KV,
    value: V,
    need: usize,
    ttl: Duration,
    now: Instant,
    later: Instant,
)
    requires
        m.admits(key, need as int),
        m.origin.nanos <= now.nanos <= later.nanos,
    ensures
        ({
            let post = m.put(key, value, need, Some(ttl), now);
            let end = now.nanos + ttl.secs * 1_000_000_000 + ttl.subsec_nanos;
            &&& later.nanos >= end ==> !post.visible(key, later)
            &&& later.nanos + 1_000 <= end ==> post.visible(key, later)
        }),
{
}

/// Once an entry has expired it stays expired while the clock moves on.
pub proof fn law_expiry_is_final<KV, V>(
    m: StoreModel<KV, V>,
    key: KV,
    earlier: Instant,
    later: Instant,
)
    requires
        m.slots.contains_key(key),
        earlier.nanos <= later.nanos,
        !m.visible(key, earlier),
    ensures
        !m.visible(key, later),
{
}

/// A permanent entry is visible at every time.
pub proof fn law_permanent_never_expires<KV, V>(m: StoreModel<KV, V>, key: KV, now: Instant)
    requires
        m.slots.contains_key(key),
        !m.slots[key].has_ttl(),
    ensures
        m.visible(key, now),
{
}

/// Removing a fresh entry undoes its admission, the reclaim order included, but
/// for the counters of admissions and generations and the stale node it leaves
/// in the queue.
pub proof fn law_remove_undoes_put<KV, V>(
    m: StoreModel<KV, V>,
    key: KV,
    value: V,
    need: usize,
    ttl: Option<Duration>,
    now: Instant,
)
    requires
        m.wf(),
        m.total_inserts < u64::MAX,
        !m.slots.contains_key(key),
        m.admits(key, need as int),
    ensures
        ({
            let put = m.put(key, value, need, ttl, now);
            let back = put.remove(key);
            &&& back.slots == m.slots
            &&& back.reserved == m.reserved
            &&& back.ttl_count == m.ttl_count
            &&& back.capacity == m.capacity
            &&& back.denials == m.denials
            &&& live_nodes(back.queue, back.slots) == live_nodes(m.queue, m.slots)
        }),
{
    let put = m.put(key, value, need, ttl, now);
    assert(put.remove(key).slots =~= m.slots);
    let order = live_nodes(m.queue, m.slots);
    let node = QueueNode { key, stamp: now, generation: put.slots[key].generation };
    let before = |n: QueueNode<KV>| is_live(m.slots, n);
    let after = |n: QueueNode<KV>| is_live(put.slots, n);
    law_fresh_entry_goes_last(m, key, value, need, ttl, now);
    lemma_filter_within(put.queue, before, after);
    law_compaction_is_idempotent(m.queue, m.slots);
    reveal(Seq::filter);
    assert(order.push(node).drop_last() =~= order);
    assert(!before(order.push(node).last()));
}

/// A removal refunds the cost of the entry exactly, and a second one finds
/// nothing.
pub proof fn law_remove_refunds_exactly<KV, V>(m: StoreModel<KV, V>, key: KV)
    requires
        m.wf(),
        m.slots.contains_key(key),
    ensures
        m.remove(key).reserved == m.reserved - m.slots[key].cost,
        m.remove(key).reserved >= 0,
        !m.remove(key).slots.contains_key(key),
        m.remove(key).remove(key) == m.remove(key),
{
    m.lemma_remove_wf(key);
}

/// Pinning cancels the expiry of an entry and leaves its bytes, its value and
/// its place in the queue alone.
pub proof fn law_pin_keeps_bytes<KV, V>(
    m: StoreModel<KV, V>,
    key: KV,
    now: Instant,
    later: Instant,
)
    requires
        m.pinnable(key, now),
    ensures
        m.pin(key, now).visible(key, later),
        m.pin(key, now).slots[key].value == m.slots[key].value,
        m.pin(key, now).slots[key].cost == m.slots[key].cost,
        m.pin(key, now).slots[key].generation == m.slots[key].generation,
        m.pin(key, now).reserved == m.reserved,
        m.pin(key, now).queue == m.queue,
{
}

/// Pinning does not revive an expired entry.
pub proof fn law_pin_revives_nothing<KV, V>(m: StoreModel<KV, V>, key: KV, now: Instant)
    requires
        !m.visible(key, now),
    ensures
        m.pin(key, now) == m,
{
}

/// A sweep reclaims the expired entries, all of them and no others.
pub proof fn law_sweep_takes_the_expired<KV, V>(m: StoreModel<KV, V>, key: KV, now: Instant)
    ensures
        m.evict_expired(now).slots.contains_key(key) <==> m.visible(key, now),
        m.visible(key, now) ==> m.evict_expired(now).slots[key] == m.slots[key],
{
}

/// An expired key that was written again without a time to live outlives every
/// sweep.
pub proof fn law_sweep_spares_the_overwritten<KV, V>(
    m: StoreModel<KV, V>,
    key: KV,
    value: V,
    need: usize,
    now: Instant,
    later: Instant,
)
    requires
        m.admits(key, need as int),
    ensures
        m.put(key, value, need, None, now).evict_expired(later).slots.contains_key(key),
        m.put(key, value, need, None, now).evict_expired(later).slots[key].value == value,
{
}

/// Changing the cap evicts nothing and refunds nothing.
pub proof fn law_new_cap_evicts_nothing<KV, V>(m: StoreModel<KV, V>, capacity: usize)
    ensures
        m.set_capacity(capacity).slots == m.slots,
        m.set_capacity(capacity).queue == m.queue,
        m.set_capacity(capacity).reserved == m.reserved,
{
}

/// Reclaiming entries refunds the sum of their costs, no more and no less. All
/// evictions reclaim in this way.
pub proof fn law_reclaiming_refunds_exactly<KV, V>(m: StoreModel<KV, V>, keys: Set<KV>)
    requires
        m.wf(),
    ensures
        m.reserved - m.without(keys).reserved == total_cost(m.slots.restrict(keys)),
        0 <= m.without(keys).reserved <= m.reserved,
{
    lemma_total_splits(m.slots, keys);
    m.lemma_without_wf(keys);
}

/// A key written twice is held once and charged for what was written last.
pub proof fn law_second_write_replaces_the_first<KV, V>(
    m: StoreModel<KV, V>,
    key: KV,
    first: (V, usize, Option<Duration>, Instant),
    second: (V, usize, Option<Duration>, Instant),
)
    requires
        m.wf(),
        !m.slots.contains_key(key),
        m.admits(key, first.1 as int),
        m.put(key, first.0, first.1, first.2, first.3).admits(key, second.1 as int),
    ensures
        ({
            let once = m.put(key, first.0, first.1, first.2, first.3);
            let twice = once.put(key, second.0, second.1, second.2, second.3);
            &&& twice.reserved == m.reserved + second.1
            &&& twice.slots[key].value == second.0
            &&& twice.slots.len() == m.slots.len() + 1
        }),
{
    let once = m.put(key, first.0, first.1, first.2, first.3);
    let twice = once.put(key, second.0, second.1, second.2, second.3);
    assert(twice.slots.dom() =~= m.slots.dom().insert(key));
}

/// Filtering by two predicates that agree on a sequence gives the same.
proof fn lemma_filter_agrees<A>(s: Seq<A>, p: spec_fn(A) -> bool, q: spec_fn(A) -> bool)
    requires
        forall|i: int| 0 <= i < s.len() ==> p(#[trigger] s[i]) == q(s[i]),
    ensures
        s.filter(p) == s.filter(q),
    decreases s.len(),
{
    reveal(Seq::filter);
    if s.len() != 0 {
        let front = s.drop_last();
        assert forall|i: int| 0 <= i < front.len() implies p(#[trigger] front[i]) == q(front[i]) by {
            assert(front[i] == s[i]);
        }
        lemma_filter_agrees(front, p, q);
        assert(p(s[s.len() - 1]) == q(s[s.len() - 1]));
    }
}

/// Filtering a sequence whose elements all pass, or all fail.
proof fn lemma_filter_constant<A>(s: Seq<A>, p: spec_fn(A) -> bool)
    ensures
        (forall|i: int| 0 <= i < s.len() ==> p(#[trigger] s[i])) ==> s.filter(p) == s,
        (forall|i: int| 0 <= i < s.len() ==> !p(#[trigger] s[i])) ==> s.filter(p).len() == 0,
    decreases s.len(),
{
    reveal(Seq::filter);
    if s.len() != 0 {
        let front = s.drop_last();
        lemma_filter_constant(front, p);
        assert(s[s.len() - 1] == s.last());
        if forall|i: int| 0 <= i < s.len() ==> p(#[trigger] s[i]) {
            assert forall|i: int| 0 <= i < front.len() implies p(#[trigger] front[i]) by {
                assert(front[i] == s[i]);
            }
            assert(front.push(s.last()) =~= s);
        }
        if forall|i: int| 0 <= i < s.len() ==> !p(#[trigger] s[i]) {
            assert forall|i: int| 0 <= i < front.len() implies !p(#[trigger] front[i]) by {
                assert(front[i] == s[i]);
            }
        }
    }
}

/// Filtering first by a weaker predicate changes nothing.
proof fn lemma_filter_within<A>(s: Seq<A>, p: spec_fn(A) -> bool, q: spec_fn(A) -> bool)
    requires
        forall|i: int| 0 <= i < s.len() && p(#[trigger] s[i]) ==> q(s[i]),
    ensures
        s.filter(q).filter(p) == s.filter(p),
    decreases s.len(),
{
    reveal(Seq::filter);
    if s.len() != 0 {
        let front = s.drop_last();
        assert forall|i: int| 0 <= i < front.len() && p(#[trigger] front[i]) implies q(
            front[i],
        ) by {
            assert(front[i] == s[i]);
        }
        lemma_filter_within(front, p, q);
        assert(p(s[s.len() - 1]) ==> q(s[s.len() - 1]));
        if q(s.last()) {
            assert(front.filter(q).push(s.last()).drop_last() =~= front.filter(q));
        }
    }
}

/// Compacting a queue keeps every live node and drops every stale one, wherever
/// it stands, and what stood before another node still does: the parts on both
/// sides of any point are compacted each by itself.
pub proof fn law_compaction_keeps_the_live<KV, V>(
    queue: Seq<QueueNode<KV>>,
    slots: Map<KV, Slot<V>>,
    at: int,
)
    requires
        0 <= at <= queue.len(),
    ensures
        forall|node: QueueNode<KV>|
            #[trigger] live_nodes(queue, slots).contains(node) <==> queue.contains(node)
                && is_live(slots, node),
        live_nodes(queue, slots) == live_nodes(queue.take(at), slots) + live_nodes(
            queue.skip(at),
            slots,
        ),
{
    lemma_live_members(queue, slots);
    assert(queue =~= queue.take(at) + queue.skip(at));
    Seq::filter_distributes_over_add(
        queue.take(at),
        queue.skip(at),
        |node: QueueNode<KV>| is_live(slots, node),
    );
}

/// Compacting a queue a second time changes nothing.
pub proof fn law_compaction_is_idempotent<KV, V>(
    queue: Seq<QueueNode<KV>>,
    slots: Map<KV, Slot<V>>,
)
    ensures
        live_nodes(live_nodes(queue, slots), slots) == live_nodes(queue, slots),
{
    let live = |node: QueueNode<KV>| is_live(slots, node);
    lemma_filter_within(queue, live, live);
}

/// The upkeep of the queue loses no live node and reorders none.
pub proof fn law_upkeep_keeps_live_order<KV, V>(
    queue: Seq<QueueNode<KV>>,
    slots: Map<KV, Slot<V>>,
)
    ensures
        live_nodes(tidied(queue, slots), slots) == live_nodes(queue, slots),
{
    let live = |node: QueueNode<KV>| is_live(slots, node);
    let cut = stale_head(queue, slots, TRIM_LIMIT as nat) as int;
    lemma_stale_head(queue, slots, TRIM_LIMIT as nat);
    let head = queue.take(cut);
    let rest = queue.skip(cut);
    assert(queue =~= head + rest);
    Seq::filter_distributes_over_add(head, rest, live);
    assert forall|i: int| 0 <= i < head.len() implies !live(#[trigger] head[i]) by {
        assert(head[i] == queue[i]);
    }
    lemma_filter_constant(head, live);
    assert(head.filter(live) + rest.filter(live) =~= rest.filter(live));
    law_compaction_is_idempotent(rest, slots);
}

/// Every entry has exactly one live node in the queue.
pub proof fn law_one_live_node_per_entry<KV, V>(m: StoreModel<KV, V>)
    requires
        m.wf(),
    ensures
        live_nodes(m.queue, m.slots).len() == m.slots.len(),
        live_nodes(m.queue, m.slots).map_values(|node: QueueNode<KV>| node.key).no_duplicates(),
        live_nodes(m.queue, m.slots).map_values(|node: QueueNode<KV>| node.key).to_set()
            == m.slots.dom(),
{
    let live = live_nodes(m.queue, m.slots);
    lemma_live_nodes(m.queue, m.slots);
    let keys = live.map_values(|node: QueueNode<KV>| node.key);
    assert forall|i: int, j: int| 0 <= i < keys.len() && 0 <= j < keys.len() && i != j implies keys[i]
        != keys[j] by {
        assert(live.contains(live[i]) && live.contains(live[j]));
        assert(is_live(m.slots, live[i]) && is_live(m.slots, live[j]));
        if i < j {
            assert(live[i].generation < live[j].generation);
        } else {
            assert(live[j].generation < live[i].generation);
        }
    }
    assert forall|k: KV| keys.contains(k) <==> m.slots.dom().contains(k) by {
        if keys.contains(k) {
            let i = choose|i: int| 0 <= i < keys.len() && keys[i] == k;
            assert(live.contains(live[i]));
        }
        if m.slots.contains_key(k) {
            assert(m.is_queued(k));
            let i = choose|i: int|
                0 <= i < m.queue.len() && (#[trigger] m.queue[i]).key == k
                    && m.queue[i].generation == m.slots[k].generation;
            assert(m.queue.contains(m.queue[i]));
            assert(live.contains(m.queue[i]));
            let j = choose|j: int| 0 <= j < live.len() && live[j] == m.queue[i];
            assert(keys[j] == k);
        }
    }
    assert(keys.to_set() =~= m.slots.dom());
    keys.unique_seq_to_set();
}

/// A fresh entry goes to the end of the reclaim order; the others keep theirs.
pub proof fn law_fresh_entry_goes_last<KV, V>(
    m: StoreModel<KV, V>,
    key: KV,
    value: V,
    need: usize,
    ttl: Option<Duration>,
    now: Instant,
)
    requires
        m.wf(),
        m.total_inserts < u64::MAX,
        !m.slots.contains_key(key),
        m.admits(key, need as int),
    ensures
        ({
            let post = m.put(key, value, need, ttl, now);
            live_nodes(post.queue, post.slots) == live_nodes(m.queue, m.slots).push(
                QueueNode { key, stamp: now, generation: post.slots[key].generation },
            )
        }),
{
    let post = m.put(key, value, need, ttl, now);
    let node = QueueNode { key, stamp: now, generation: post.slots[key].generation };
    let queue = m.queue.push(node);
    law_upkeep_keeps_live_order(queue, post.slots);
    let before = |n: QueueNode<KV>| is_live(m.slots, n);
    let after = |n: QueueNode<KV>| is_live(post.slots, n);
    assert forall|i: int| 0 <= i < m.queue.len() implies before(#[trigger] m.queue[i]) == after(
        m.queue[i],
    ) by {
        assert(m.queue[i].generation <= m.last_generation);
    }
    lemma_filter_agrees(m.queue, before, after);
    reveal(Seq::filter);
    assert(queue.drop_last() =~= m.queue);
    assert(after(queue.last()));
}

/// A replacement keeps the reclaim order as it is.
pub proof fn law_replacement_keeps_its_place<KV, V>(
    m: StoreModel<KV, V>,
    key: KV,
    value: V,
    need: usize,
    ttl: Option<Duration>,
    now: Instant,
)
    requires
        m.slots.contains_key(key),
    ensures
        ({
            let post = m.put(key, value, need, ttl, now);
            &&& post.queue == m.queue
            &&& live_nodes(post.queue, post.slots) == live_nodes(m.queue, m.slots)
        }),
{
    let post = m.put(key, value, need, ttl, now);
    lemma_filter_agrees(
        m.queue,
        |n: QueueNode<KV>| is_live(m.slots, n),
        |n: QueueNode<KV>| is_live(post.slots, n),
    );
}

/// The part of a queue before a FIFO cut holds the live nodes asked for, or all
/// there are.
proof fn lemma_fifo_cut_count<KV, V>(queue: Seq<QueueNode<KV>>, slots: Map<KV, Slot<V>>, n: nat)
    ensures
        live_nodes(queue.take(fifo_cut(queue, slots, n) as int), slots).len() == if n
            <= live_nodes(queue, slots).len() {
            n
        } else {
            live_nodes(queue, slots).len()
        },
    decreases queue.len(),
{
    let live = |node: QueueNode<KV>| is_live(slots, node);
    let cut = fifo_cut(queue, slots, n) as int;
    lemma_fifo_cut_bound(queue, slots, n);
    reveal(Seq::filter);
    if n != 0 && queue.len() != 0 {
        let rest = queue.drop_first();
        let first = seq![queue[0]];
        let left = if is_live(slots, queue[0]) {
            (n - 1) as nat
        } else {
            n
        };
        lemma_fifo_cut_count(rest, slots, left);
        assert(queue =~= first + rest);
        assert(queue.take(cut) =~= first + rest.take(cut - 1));
        Seq::filter_distributes_over_add(first, rest, live);
        Seq::filter_distributes_over_add(first, rest.take(cut - 1), live);
        lemma_filter_constant(first, live);
        assert(first.filter(live).len() == if is_live(slots, queue[0]) {
            1nat
        } else {
            0nat
        });
    }
}

/// After nodes were popped, the live nodes of the rest are those that were live
/// before.
proof fn lemma_pop_keeps_rest<KV, V>(m: StoreModel<KV, V>, cut: int)
    requires
        m.wf(),
        0 <= cut <= m.queue.len(),
    ensures
        live_nodes(m.pop(cut).queue, m.pop(cut).slots) == live_nodes(m.queue.skip(cut), m.slots),
        live_nodes(m.queue, m.slots) == live_nodes(m.queue.take(cut), m.slots) + live_nodes(
            m.queue.skip(cut),
            m.slots,
        ),
{
    let post = m.pop(cut);
    let before = |n: QueueNode<KV>| is_live(m.slots, n);
    let after = |n: QueueNode<KV>| is_live(post.slots, n);
    let rest = m.queue.skip(cut);
    let gone = keys_before(m.queue, m.slots, cut);
    assert forall|i: int| 0 <= i < rest.len() implies before(#[trigger] rest[i]) == after(
        rest[i],
    ) by {
        assert(rest[i] == m.queue[i + cut]);
        if gone.contains(rest[i].key) && before(rest[i]) {
            let j = choose|j: int|
                0 <= j < cut && is_live(m.slots, #[trigger] m.queue[j]) && m.queue[j].key
                    == rest[i].key;
            assert(m.queue[j].generation < m.queue[i + cut].generation);
        }
    }
    lemma_filter_agrees(rest, before, after);
    law_compaction_keeps_the_live(m.queue, m.slots, cut);
}

/// Eviction is first in, first out: it takes the first `n` entries of the
/// reclaim order, or all where there are fewer, and leaves the rest in order.
pub proof fn law_evict_is_fifo<KV, V>(m: StoreModel<KV, V>, n: nat)
    requires
        m.wf(),
    ensures
        ({
            let order = live_nodes(m.queue, m.slots);
            let taken = if n <= m.slots.len() {
                n as int
            } else {
                m.slots.len() as int
            };
            let post = m.evict(n);
            &&& live_nodes(post.queue, post.slots) == order.skip(taken)
            &&& post.slots == m.slots.remove_keys(
                order.take(taken).map_values(|node: QueueNode<KV>| node.key).to_set(),
            )
            &&& post.slots.len() == m.slots.len() - taken
        }),
{
    let order = live_nodes(m.queue, m.slots);
    let cut = fifo_cut(m.queue, m.slots, n) as int;
    let post = m.evict(n);
    law_one_live_node_per_entry(m);
    lemma_fifo_cut_bound(m.queue, m.slots, n);
    lemma_fifo_cut_count(m.queue, m.slots, n);
    lemma_pop_keeps_rest(m, cut);
    let head = live_nodes(m.queue.take(cut), m.slots);
    let rest = live_nodes(m.queue.skip(cut), m.slots);
    let taken = head.len() as int;
    assert(order.skip(taken) =~= rest);
    assert(order.take(taken) =~= head);
    lemma_live_nodes(m.queue.take(cut), m.slots);
    let keys = head.map_values(|node: QueueNode<KV>| node.key);
    let gone = keys_before(m.queue, m.slots, cut);
    assert forall|k: KV| keys.to_set().contains(k) <==> gone.contains(k) by {
        if keys.to_set().contains(k) {
            assert(keys.contains(k));
            let i = choose|i: int| 0 <= i < keys.len() && keys[i] == k;
            assert(head.contains(head[i]));
            let j = choose|j: int|
                0 <= j < m.queue.take(cut).len() && m.queue.take(cut)[j] == head[i];
            assert(is_live(m.slots, m.queue[j]) && m.queue[j].key == k);
        }
        if gone.contains(k) {
            let j = choose|j: int|
                0 <= j < cut && is_live(m.slots, #[trigger] m.queue[j]) && m.queue[j].key == k;
            assert(m.queue.take(cut)[j] == m.queue[j]);
            assert(m.queue.take(cut).contains(m.queue[j]));
            assert(head.contains(m.queue[j]));
            let i = choose|i: int| 0 <= i < head.len() && head[i] == m.queue[j];
            assert(keys[i] == k);
            assert(keys.contains(k));
        }
    }
    assert(keys.to_set() =~= gone);
    m.lemma_evict_wf(n);
    law_one_live_node_per_entry(post);
}

/// Popping a stale node takes no entry with it, though its key may have been
/// admitted again.
pub proof fn law_stale_node_spares_entry<KV, V>(m: StoreModel<KV, V>)
    requires
        m.wf(),
        m.queue.len() > 0,
        !is_live(m.slots, m.queue[0]),
    ensures
        m.pop(1).slots == m.slots,
        m.pop(1).reserved == m.reserved,
{
    m.lemma_pop_none();
    m.lemma_pop_step(0);
}

/// The stamps of a queue do not decrease.
pub open spec fn stamps_ordered<KV>(queue: Seq<QueueNode<KV>>) -> bool {
    forall|i: int, j: int|
        0 <= i < j < queue.len() ==> (#[trigger] queue[i]).stamp.nanos <= (
        #[trigger] queue[j]).stamp.nanos
}

/// Eviction by age takes only entries older than the window; and while stamps
/// follow admission order, it takes all of them.
pub proof fn law_evict_older_than_goes_by_age<KV, V>(
    m: StoreModel<KV, V>,
    window: Duration,
    now: Instant,
    i: int,
)
    requires
        m.wf(),
        0 <= i < m.queue.len(),
        is_live(m.slots, m.queue[i]),
    ensures
        ({
            let post = m.evict_older_than(window, now);
            let node = m.queue[i];
            &&& !post.slots.contains_key(node.key) ==> is_aged(node, window, now)
            &&& stamps_ordered(m.queue) && is_aged(node, window, now)
                ==> !post.slots.contains_key(node.key)
            &&& post.slots.contains_key(node.key) ==> post.slots[node.key] == m.slots[node.key]
        }),
{
    let cut = age_cut(m.queue, window, now) as int;
    lemma_age_cut(m.queue, window, now);
    let node = m.queue[i];
    let gone = keys_before(m.queue, m.slots, cut);
    if gone.contains(node.key) {
        let j = choose|j: int|
            0 <= j < cut && is_live(m.slots, #[trigger] m.queue[j]) && m.queue[j].key == node.key;
        if j < i {
            assert(m.queue[j].generation < m.queue[i].generation);
        }
        if i < j {
            assert(m.queue[i].generation < m.queue[j].generation);
        }
    }
    if stamps_ordered(m.queue) && is_aged(node, window, now) {
        if i >= cut {
            assert(!is_aged(m.queue[cut], window, now));
            if cut < i {
                assert(m.queue[cut].stamp.nanos <= m.queue[i].stamp.nanos);
            }
        }
        assert(gone.contains(node.key));
    }
}

/// Nodes enter the queue at its end and leave it in place: after any call the
/// queue holds, in order, nodes that it held before, and perhaps one more at
/// the end that bears the time of the insert.
proof fn lemma_step_queue<KV, V>(m: StoreModel<KV, V>, step: Step<KV, V>)
    requires
        m.wf(),
        m.total_inserts < u64::MAX,
    ensures
        forall|node: QueueNode<KV>| #[trigger]
            m.step(step).queue.contains(node) ==> m.queue.contains(node) || (
            step matches Step::Put { now, .. } && node.stamp == now && node.generation
                == m.last_generation + 1),
{
    match step {
        Step::Put { key, value, need, ttl, now } => {
            let post = m.put(key, value, need, ttl, now);
            if m.admits(key, need as int) && !m.slots.contains_key(key) {
                let node = QueueNode { key, stamp: now, generation: post.slots[key].generation };
                let queue = m.queue.push(node);
                lemma_tidied(queue, post.slots);
                assert forall|x: QueueNode<KV>| queue.contains(x) implies m.queue.contains(x) || x
                    == node by {
                    let i = choose|i: int| 0 <= i < queue.len() && queue[i] == x;
                    if i < m.queue.len() {
                        assert(m.queue[i] == x);
                    }
                }
            }
        },
        Step::Evict { n } => {
            let cut = fifo_cut(m.queue, m.slots, n) as int;
            lemma_fifo_cut_bound(m.queue, m.slots, n);
            assert forall|x: QueueNode<KV>| m.queue.skip(cut).contains(x) implies m.queue.contains(
                x,
            ) by {
                let i = choose|i: int| 0 <= i < m.queue.skip(cut).len() && m.queue.skip(cut)[i] == x;
                assert(m.queue[i + cut] == x);
            }
        },
        Step::EvictOlderThan { window, now } => {
            let cut = age_cut(m.queue, window, now) as int;
            lemma_age_cut(m.queue, window, now);
            assert forall|x: QueueNode<KV>| m.queue.skip(cut).contains(x) implies m.queue.contains(
                x,
            ) by {
                let i = choose|i: int| 0 <= i < m.queue.skip(cut).len() && m.queue.skip(cut)[i] == x;
                assert(m.queue[i + cut] == x);
            }
        },
        _ => {},
    }
}

/// Under a clock that never runs backwards the stamps of the queue follow
/// admission order after every history of calls.
pub proof fn law_stamps_follow_admission<KV, V>(
    capacity: usize,
    origin: Instant,
    steps: Seq<Step<KV, V>>,
)
    requires
        steps.len() < u64::MAX,
        forall|i: int, j: int|
            #![trigger steps[i], steps[j]]
            0 <= i < j < steps.len() ==> (steps[i] matches Step::Put { now: first, .. } ==> (
            steps[j] matches Step::Put { now: second, .. } ==> first.nanos <= second.nanos)),
    ensures
        ({
            let end = StoreModel::<KV, V>::empty(capacity as int, origin).run(steps);
            &&& stamps_ordered(end.queue)
            &&& forall|node: QueueNode<KV>| #[trigger]
                end.queue.contains(node) ==> exists|i: int|
                    0 <= i < steps.len() && (#[trigger] steps[i] matches Step::Put { now, .. }
                        && now == node.stamp)
        }),
    decreases steps.len(),
{
    let start = StoreModel::<KV, V>::empty(capacity as int, origin);
    if steps.len() != 0 {
        let before = steps.drop_last();
        let last = steps.last();
        assert forall|i: int, j: int| #![trigger before[i], before[j]] 0 <= i < j
            < before.len() implies (before[i] matches Step::Put { now: first, .. } ==> (
        before[j] matches Step::Put { now: second, .. } ==> first.nanos <= second.nanos)) by {
            assert(before[i] == steps[i] && before[j] == steps[j]);
        }
        law_stamps_follow_admission(capacity, origin, before);
        law_books_balance(capacity, origin, before);
        let m = start.run(before);
        let end = m.step(last);
        lemma_step_queue(m, last);
        law_step_keeps_validity(m, last);
        assert(steps[steps.len() - 1] == last);
        assert forall|node: QueueNode<KV>| #[trigger]
            end.queue.contains(node) implies exists|i: int|
            0 <= i < steps.len() && (#[trigger] steps[i] matches Step::Put { now, .. } && now
                == node.stamp) by {
            if m.queue.contains(node) {
                let i = choose|i: int|
                    0 <= i < before.len() && (#[trigger] before[i] matches Step::Put { now, .. }
                        && now == node.stamp);
                assert(steps[i] == before[i]);
            }
        }
        assert forall|i: int, j: int| 0 <= i < j < end.queue.len() implies (
        #[trigger] end.queue[i]).stamp.nanos <= (#[trigger] end.queue[j]).stamp.nanos by {
            let a = end.queue[i];
            let b = end.queue[j];
            assert(a.generation < b.generation);
            assert(end.queue.contains(a) && end.queue.contains(b));
            if m.queue.contains(b) {
                let y = choose|y: int| 0 <= y < m.queue.len() && m.queue[y] == b;
                assert(b.generation <= m.last_generation);
                assert(m.queue.contains(a));
                let x = choose|x: int| 0 <= x < m.queue.len() && m.queue[x] == a;
                if y < x {
                    assert(m.queue[y].generation < m.queue[x].generation);
                }
                assert(m.queue[x].stamp.nanos <= m.queue[y].stamp.nanos);
            } else {
                if m.queue.contains(a) {
                    let x = choose|x: int|
                        0 <= x < before.len() && (#[trigger] before[x] matches Step::Put {
                            now,
                            ..
                        } && now == a.stamp);
                    assert(steps[x] == before[x]);
                }
            }
        }
    }
}

/// After a fresh admission the queue is short, or at most twice as long as the
/// table: stale nodes do not pile up. It is never shorter than the table.
pub proof fn law_queue_stays_bounded<KV, V>(
    m: StoreModel<KV, V>,
    key: KV,
    value: V,
    need: usize,
    ttl: Option<Duration>,
    now: Instant,
)
    requires
        m.wf(),
        m.total_inserts < u64::MAX,
        !m.slots.contains_key(key),
        m.admits(key, need as int),
    ensures
        ({
            let post = m.put(key, value, need, ttl, now);
            &&& post.queue.len() <= 1024 || post.queue.len() <= 2 * post.slots.len()
            &&& post.queue.len() >= post.slots.len()
        }),
{
    let post = m.put(key, value, need, ttl, now);
    let node = QueueNode { key, stamp: now, generation: post.slots[key].generation };
    let queue = m.queue.push(node);
    m.lemma_put_wf(key, value, need, ttl, now);
    post.lemma_no_more_slots_than_nodes();
    law_one_live_node_per_entry(post);
    law_upkeep_keeps_live_order(queue, post.slots);
    let trimmed = queue.skip(stale_head(queue, post.slots, TRIM_LIMIT as nat) as int);
    if trimmed.len() > COMPACT_FLOOR && trimmed.len() > 2 * post.slots.len() {
        let live = |n: QueueNode<KV>| is_live(post.slots, n);
        assert forall|i: int| 0 <= i < post.queue.len() implies live(#[trigger] post.queue[i]) by {
            trimmed.lemma_filter_pred(live, i);
        }
        lemma_filter_constant(post.queue, live);
    }
}

/// Clearing leaves nothing behind and nothing charged; caps and lifetime
/// counters stay.
pub proof fn law_clear_refunds_all<KV, V>(m: StoreModel<KV, V>)
    ensures
        m.clear().slots == Map::<KV, Slot<V>>::empty(),
        m.clear().queue.len() == 0,
        m.clear().reserved == 0,
        m.clear().ttl_count == 0,
        m.clear().capacity == m.capacity,
        m.clear().denials == m.denials,
        m.clear().total_inserts == m.total_inserts,
{
}

/// A store that holds nothing: no bytes reserved, nothing counted yet, under the
/// cap it was made with.
pub proof fn law_empty_store_is_empty<KV, V>(capacity: int, origin: Instant)
    ensures
        ({
            let m = StoreModel::<KV, V>::empty(capacity, origin);
            &&& m.capacity == capacity
            &&& m.origin == origin
            &&& m.reserved == 0
            &&& m.denials == 0
            &&& m.ttl_count == 0
            &&& m.total_inserts == 0
            &&& m.last_generation == 0
            &&& m.slots.dom() == Set::<KV>::empty()
            &&& m.queue.len() == 0
        }),
{
}

/// The total of an empty table is zero, and each further entry adds its cost;
/// the keys that carry an expiry are those whose expiry count is not zero.
pub proof fn law_total_is_the_sum_of_costs<KV, V>(
    slots: Map<KV, Slot<V>>,
    key: KV,
    slot: Slot<V>,
)
    requires
        slots.dom().finite(),
    ensures
        total_cost(Map::<KV, Slot<V>>::empty()) == 0,
        total_cost(slots.insert(key, slot)) == total_cost(slots.remove(key)) + slot.cost,
        forall|k: KV| #[trigger]
            ttl_keys(slots).contains(k) <==> slots.contains_key(k) && slots[k].expires_at_micros > 0,
{
    lemma_total_remove(slots.insert(key, slot), key);
    assert(slots.insert(key, slot).remove(key) =~= slots.remove(key));
}

/// What validity means: the counters fit their types; the reserved bytes are the
/// total of the entries held; the expiry counter counts those that expire; the
/// queue is in the order of generations, none above the last; and each entry
/// has a node of its generation in it.
pub proof fn law_validity_is_balanced_books<KV, V>(m: StoreModel<KV, V>)
    ensures
        m.wf() <==> {
            &&& 0 <= m.capacity <= usize::MAX
            &&& 0 <= m.reserved <= usize::MAX
            &&& 0 <= m.denials <= usize::MAX
            &&& 0 <= m.last_generation <= m.total_inserts <= u64::MAX
            &&& m.slots.dom().finite()
            &&& m.reserved == total_cost(m.slots)
            &&& m.ttl_count == ttl_keys(m.slots).len()
            &&& forall|i: int, j: int|
                0 <= i < j < m.queue.len() ==> (#[trigger] m.queue[i]).generation < (
                #[trigger] m.queue[j]).generation
            &&& forall|i: int|
                0 <= i < m.queue.len() ==> (#[trigger] m.queue[i]).generation <= m.last_generation
            &&& forall|k: KV| #[trigger]
                m.slots.contains_key(k) ==> exists|i: int|
                    0 <= i < m.queue.len() && (#[trigger] m.queue[i]).key == k
                        && m.queue[i].generation == m.slots[k].generation
        },
{
    if forall|k: KV| #[trigger]
        m.slots.contains_key(k) ==> exists|i: int|
            0 <= i < m.queue.len() && (#[trigger] m.queue[i]).key == k && m.queue[i].generation
                == m.slots[k].generation {
        assert forall|k: KV| #[trigger] m.slots.contains_key(k) implies m.is_queued(k) by {}
    }
    if m.wf() {
        assert forall|k: KV| #[trigger] m.slots.contains_key(k) implies exists|i: int|
            0 <= i < m.queue.len() && (#[trigger] m.queue[i]).key == k && m.queue[i].generation
                == m.slots[k].generation by {
            assert(m.is_queued(k));
        }
    }
}

/// What the budget decides, by the counters alone. A fresh entry is let in if
/// and only if the bytes reserved and its own together stay under the cap. A
/// replacement is let in if and only if it does not cost more than what it
/// replaces, or what it adds to the bytes reserved stays under the cap. What is
/// available and what is reserved make up the cap, and nothing is available
/// above it.
pub proof fn law_budget_decides_by_the_counters<KV, V>(m: StoreModel<KV, V>, key: KV, need: usize)
    ensures
        !m.slots.contains_key(key) ==> (m.admits(key, need as int) <==> m.reserved + need
            <= m.capacity),
        m.slots.contains_key(key) && need <= m.slots[key].cost ==> m.admits(key, need as int),
        m.slots.contains_key(key) && need > m.slots[key].cost ==> (m.admits(key, need as int)
            <==> m.reserved + (need - m.slots[key].cost) <= m.capacity),
        m.reserved <= m.capacity ==> m.available() + m.reserved == m.capacity,
        m.reserved > m.capacity ==> m.available() == 0,
{
}

/// A fresh key under which the bytes fit is held from then on, with the value,
/// the cost and the end of the time to live it was given, under the next
/// generation; the cost is reserved, and the admission and the expiry counted.
/// One that does not fit leaves all as it was but for the denial counted.
pub proof fn law_fresh_insert_stores_or_denies<KV, V>(
    m: StoreModel<KV, V>,
    key: KV,
    value: V,
    need: usize,
    ttl: Option<Duration>,
    now: Instant,
)
    requires
        m.wf(),
        m.total_inserts < u64::MAX,
        !m.slots.contains_key(key),
    ensures
        ({
            let post = m.put(key, value, need, ttl, now);
            let slot = post.slots[key];
            if m.reserved + need <= m.capacity {
                &&& post.slots == m.slots.insert(key, slot)
                &&& slot.value == value
                &&& slot.cost == need
                &&& slot.generation == m.last_generation + 1
                &&& ttl is None ==> slot.expires_at_micros == 0
                &&& ttl matches Some(d) ==> {
                    let end = now.nanos + d.secs * 1_000_000_000 + d.subsec_nanos;
                    if end < m.origin.nanos {
                        slot.expires_at_micros == 1
                    } else {
                        (slot.expires_at_micros - 1) * 1_000 <= end - m.origin.nanos
                            < slot.expires_at_micros * 1_000
                    }
                }
                &&& post.reserved == m.reserved + need
                &&& post.ttl_count == m.ttl_count + (if ttl is Some {
                    1int
                } else {
                    0int
                })
                &&& post.total_inserts == m.total_inserts + 1
                &&& post.last_generation == m.last_generation + 1
                &&& post.denials == m.denials
                &&& post.capacity == m.capacity
                &&& post.origin == m.origin
            } else {
                post == (StoreModel {
                    denials: if m.denials < usize::MAX {
                        m.denials + 1
                    } else {
                        0
                    },
                    ..m
                })
            }
        }),
{
}

/// A key that is held takes the new value, cost and time to live in place of the
/// old, and keeps its generation and the queue as it is, if what it adds fits;
/// the difference in cost is reserved or refunded, and the expiry counted anew.
/// Otherwise all stays as it was but for the denial counted.
pub proof fn law_replacing_insert_replaces_or_denies<KV, V>(
    m: StoreModel<KV, V>,
    key: KV,
    value: V,
    need: usize,
    ttl: Option<Duration>,
    now: Instant,
)
    requires
        m.slots.contains_key(key),
    ensures
        ({
            let post = m.put(key, value, need, ttl, now);
            let before = m.slots[key];
            let slot = post.slots[key];
            if need <= before.cost || m.reserved + need - before.cost <= m.capacity {
                &&& post.slots == m.slots.insert(key, slot)
                &&& slot.value == value
                &&& slot.cost == need
                &&& slot.generation == before.generation
                &&& ttl is None ==> slot.expires_at_micros == 0
                &&& ttl matches Some(d) ==> {
                    let end = now.nanos + d.secs * 1_000_000_000 + d.subsec_nanos;
                    if end < m.origin.nanos {
                        slot.expires_at_micros == 1
                    } else {
                        (slot.expires_at_micros - 1) * 1_000 <= end - m.origin.nanos
                            < slot.expires_at_micros * 1_000
                    }
                }
                &&& post.reserved + before.cost == m.reserved + need
                &&& post.ttl_count == m.ttl_count + (if ttl is Some {
                    1int
                } else {
                    0int
                }) - (if before.expires_at_micros > 0 {
                    1int
                } else {
                    0int
                })
                &&& post.total_inserts == m.total_inserts + 1
                &&& post.last_generation == m.last_generation
                &&& post.queue == m.queue
                &&& post.denials == m.denials
                &&& post.capacity == m.capacity
                &&& post.origin == m.origin
            } else {
                post == (StoreModel {
                    denials: if m.denials < usize::MAX {
                        m.denials + 1
                    } else {
                        0
                    },
                    ..m
                })
            }
        }),
{
}

/// An insert that is let in reports what it charged, and what it freed if it
/// replaced an entry.
pub proof fn law_outcome_reports_the_charge<KV, V>(m: StoreModel<KV, V>, key: KV, need: usize)
    ensures
        !m.slots.contains_key(key) ==> (m.put_outcome(key, need) matches InsertOutcome::Stored {
            charged,
        } && charged == need),
        m.slots.contains_key(key) ==> (m.put_outcome(key, need) matches InsertOutcome::Replaced {
            freed,
            charged,
        } && freed == m.slots[key].cost && charged == need),
{
}

/// A node is live while its key is held under its generation, and the live nodes
/// of a queue are those, in order.
pub proof fn law_live_nodes_are_those_still_held<KV, V>(
    queue: Seq<QueueNode<KV>>,
    slots: Map<KV, Slot<V>>,
    node: QueueNode<KV>,
)
    ensures
        is_live(slots, node) <==> slots.contains_key(node.key) && slots[node.key].generation
            == node.generation,
        live_nodes(queue, slots) == queue.filter(
            |n: QueueNode<KV>|
                slots.contains_key(n.key) && slots[n.key].generation == n.generation,
        ),
{
    lemma_filter_agrees(
        queue,
        |n: QueueNode<KV>| is_live(slots, n),
        |n: QueueNode<KV>| slots.contains_key(n.key) && slots[n.key].generation == n.generation,
    );
}

/// Trimming a queue drops the stale nodes before its first live one, but no more
/// than eight of them.
pub proof fn law_trimming_drops_up_to_eight_stale_nodes<KV, V>(
    queue: Seq<QueueNode<KV>>,
    slots: Map<KV, Slot<V>>,
)
    ensures
        ({
            let cut = stale_head(queue, slots, TRIM_LIMIT as nat) as int;
            &&& 0 <= cut <= 8
            &&& cut <= queue.len()
            &&& forall|i: int|
                0 <= i < cut ==> !(slots.contains_key((#[trigger] queue[i]).key)
                    && slots[queue[i].key].generation == queue[i].generation)
            &&& cut < 8 && cut < queue.len() ==> slots.contains_key(queue[cut].key)
                && slots[queue[cut].key].generation == queue[cut].generation
        }),
{
    lemma_stale_head(queue, slots, TRIM_LIMIT as nat);
}

/// The upkeep after a fresh admission: the node of the new entry goes to the end
/// of the queue; then up to eight stale nodes leave its head, as many as stand
/// before the first live one; and where more than 1024 are left, and more than
/// twice as many as there are entries, only the live ones stay.
pub proof fn law_upkeep_trims_eight_and_compacts_long_queues<KV, V>(
    m: StoreModel<KV, V>,
    key: KV,
    value: V,
    need: usize,
    ttl: Option<Duration>,
    now: Instant,
)
    requires
        m.wf(),
        m.total_inserts < u64::MAX,
        !m.slots.contains_key(key),
        m.reserved + need <= m.capacity,
    ensures
        ({
            let post = m.put(key, value, need, ttl, now);
            let queue = m.queue.push(
                QueueNode { key, stamp: now, generation: (m.last_generation + 1) as u64 },
            );
            exists|cut: int|
                #![trigger queue.skip(cut)]
                {
                    &&& 0 <= cut <= 8
                    &&& cut <= queue.len()
                    &&& forall|i: int|
                        0 <= i < cut ==> !(post.slots.contains_key((#[trigger] queue[i]).key)
                            && post.slots[queue[i].key].generation == queue[i].generation)
                    &&& cut < 8 && cut < queue.len() ==> post.slots.contains_key(queue[cut].key)
                        && post.slots[queue[cut].key].generation == queue[cut].generation
                    &&& post.queue == (if queue.len() - cut > 1024 && queue.len() - cut > 2
                        * post.slots.len() {
                        queue.skip(cut).filter(
                            |n: QueueNode<KV>|
                                post.slots.contains_key(n.key) && post.slots[n.key].generation
                                    == n.generation,
                        )
                    } else {
                        queue.skip(cut)
                    })
                }
        }),
{
    let post = m.put(key, value, need, ttl, now);
    let node = QueueNode { key, stamp: now, generation: (m.last_generation + 1) as u64 };
    let queue = m.queue.push(node);
    let cut = stale_head(queue, post.slots, TRIM_LIMIT as nat) as int;
    law_trimming_drops_up_to_eight_stale_nodes(queue, post.slots);
    law_live_nodes_are_those_still_held(queue.skip(cut), post.slots, node);
}

/// A removal takes out the entry under the key and nothing else, and refunds its
/// bytes and its expiry.
pub proof fn law_remove_takes_out_one_entry<KV, V>(m: StoreModel<KV, V>, key: KV)
    ensures
        !m.slots.contains_key(key) ==> m.remove(key) == m,
        m.slots.contains_key(key) ==> ({
            let post = m.remove(key);
            &&& post.slots == m.slots.remove(key)
            &&& post.reserved + m.slots[key].cost == m.reserved
            &&& post.ttl_count == m.ttl_count - (if m.slots[key].expires_at_micros > 0 {
                1int
            } else {
                0int
            })
            &&& post.queue == m.queue
            &&& post.total_inserts == m.total_inserts
            &&& post.last_generation == m.last_generation
            &&& post.denials == m.denials
            &&& post.capacity == m.capacity
            &&& post.origin == m.origin
        }),
{
}

/// A reader finds an entry that is held, if it is permanent, or as long as the
/// clock has not reached the microsecond of its expiry.
pub proof fn law_visible_until_its_expiry<KV, V>(m: StoreModel<KV, V>, key: KV, now: Instant)
    ensures
        m.visible(key, now) <==> m.slots.contains_key(key) && (m.slots[key].expires_at_micros == 0
            || (m.slots[key].expires_at_micros > 1 && now.nanos < m.origin.nanos + (
        m.slots[key].expires_at_micros - 1) * 1_000)),
        now.nanos < m.origin.nanos ==> m.micros(now) == 1,
        now.nanos >= m.origin.nanos ==> (m.micros(now) - 1) * 1_000 <= now.nanos - m.origin.nanos
            < m.micros(now) * 1_000,
{
}

/// Pinning makes an entry permanent that would expire and has not, and takes it
/// out of the expiry counter; in every other case, and of everything else,
/// nothing changes.
pub proof fn law_pin_makes_permanent<KV, V>(m: StoreModel<KV, V>, key: KV, now: Instant)
    ensures
        m.pinnable(key, now) <==> m.slots.contains_key(key) && m.slots[key].expires_at_micros > 1
            && now.nanos < m.origin.nanos + (m.slots[key].expires_at_micros - 1) * 1_000,
        !m.pinnable(key, now) ==> m.pin(key, now) == m,
        m.pinnable(key, now) ==> m.pin(key, now) == (StoreModel {
            ttl_count: m.ttl_count - 1,
            slots: m.slots.insert(
                key,
                Slot {
                    value: m.slots[key].value,
                    cost: m.slots[key].cost,
                    expires_at_micros: 0,
                    generation: m.slots[key].generation,
                },
            ),
            ..m
        }),
{
    law_visible_until_its_expiry(m, key, now);
}

/// Taking entries out leaves the others as they are, reserves their total and
/// counts those of them that expire; the queue, the cap and the lifetime
/// counters stay.
pub proof fn law_without_keeps_the_others<KV, V>(m: StoreModel<KV, V>, keys: Set<KV>)
    ensures
        ({
            let post = m.without(keys);
            &&& forall|k: KV| #[trigger]
                post.slots.contains_key(k) <==> m.slots.contains_key(k) && !keys.contains(k)
            &&& forall|k: KV|
                post.slots.contains_key(k) ==> #[trigger] post.slots[k] == m.slots[k]
            &&& post.reserved == total_cost(post.slots)
            &&& post.ttl_count == ttl_keys(post.slots).len()
            &&& post.queue == m.queue
            &&& post.total_inserts == m.total_inserts
            &&& post.last_generation == m.last_generation
            &&& post.denials == m.denials
            &&& post.capacity == m.capacity
            &&& post.origin == m.origin
        }),
{
}

/// A sweep leaves the permanent entries and those whose microsecond of expiry
/// the clock has not reached, as they are, and takes out all others; what stays
/// reserved is the total of the entries left.
pub proof fn law_sweep_goes_by_the_clock<KV, V>(m: StoreModel<KV, V>, now: Instant)
    ensures
        ({
            let post = m.evict_expired(now);
            &&& forall|k: KV| #[trigger]
                post.slots.contains_key(k) <==> m.slots.contains_key(k) && (
                m.slots[k].expires_at_micros == 0 || (m.slots[k].expires_at_micros > 1 && now.nanos
                    < m.origin.nanos + (m.slots[k].expires_at_micros - 1) * 1_000))
            &&& forall|k: KV|
                post.slots.contains_key(k) ==> #[trigger] post.slots[k] == m.slots[k]
            &&& post.reserved == total_cost(post.slots)
            &&& post.ttl_count == ttl_keys(post.slots).len()
            &&& post.queue == m.queue
            &&& post.total_inserts == m.total_inserts
            &&& post.last_generation == m.last_generation
            &&& post.denials == m.denials
            &&& post.capacity == m.capacity
            &&& post.origin == m.origin
        }),
{
    let post = m.evict_expired(now);
    assert forall|k: KV| #[trigger]
        post.slots.contains_key(k) <==> m.slots.contains_key(k) && (m.slots[k].expires_at_micros
            == 0 || (m.slots[k].expires_at_micros > 1 && now.nanos < m.origin.nanos + (
        m.slots[k].expires_at_micros - 1) * 1_000)) by {
        law_visible_until_its_expiry(m, k, now);
        law_sweep_takes_the_expired(m, k, now);
    }
}

/// Popping nodes shortens the queue by them, and leaves exactly the entries
/// whose node stands behind them; what stays reserved is the total of those.
pub proof fn law_pop_leaves_what_stands_behind<KV, V>(m: StoreModel<KV, V>, cut: int)
    requires
        m.wf(),
        0 <= cut <= m.queue.len(),
    ensures
        ({
            let post = m.pop(cut);
            &&& post.queue == m.queue.skip(cut)
            &&& forall|k: KV| #[trigger]
                post.slots.contains_key(k) <==> m.slots.contains_key(k) && exists|i: int|
                    cut <= i < m.queue.len() && (#[trigger] m.queue[i]).key == k
                        && m.queue[i].generation == m.slots[k].generation
            &&& forall|k: KV|
                post.slots.contains_key(k) ==> #[trigger] post.slots[k] == m.slots[k]
            &&& post.reserved == total_cost(post.slots)
            &&& post.ttl_count == ttl_keys(post.slots).len()
            &&& post.total_inserts == m.total_inserts
            &&& post.last_generation == m.last_generation
            &&& post.denials == m.denials
            &&& post.capacity == m.capacity
            &&& post.origin == m.origin
        }),
{
    let post = m.pop(cut);
    let gone = keys_before(m.queue, m.slots, cut);
    assert forall|k: KV| #[trigger]
        post.slots.contains_key(k) <==> m.slots.contains_key(k) && exists|i: int|
            cut <= i < m.queue.len() && (#[trigger] m.queue[i]).key == k && m.queue[i].generation
                == m.slots[k].generation by {
        if m.slots.contains_key(k) {
            assert(m.is_queued(k));
            let i = choose|i: int|
                0 <= i < m.queue.len() && (#[trigger] m.queue[i]).key == k
                    && m.queue[i].generation == m.slots[k].generation;
            assert(is_live(m.slots, m.queue[i]));
            if i < cut {
                assert(gone.contains(k));
                assert forall|j: int|
                    cut <= j < m.queue.len() && (#[trigger] m.queue[j]).key
                        == k implies m.queue[j].generation != m.slots[k].generation by {
                    assert(m.queue[i].generation < m.queue[j].generation);
                }
            } else if gone.contains(k) {
                let j = choose|j: int|
                    0 <= j < cut && is_live(m.slots, #[trigger] m.queue[j]) && m.queue[j].key == k;
                assert(m.queue[j].generation < m.queue[i].generation);
            }
        }
    }
}

/// Where a FIFO cut ends: behind the last live node asked for, or at the end of
/// the queue where there are fewer.
proof fn lemma_fifo_cut_end<KV, V>(queue: Seq<QueueNode<KV>>, slots: Map<KV, Slot<V>>, n: nat)
    ensures
        0 < n <= live_nodes(queue, slots).len() ==> fifo_cut(queue, slots, n) > 0 && is_live(
            slots,
            queue[fifo_cut(queue, slots, n) - 1],
        ),
        n > live_nodes(queue, slots).len() ==> fifo_cut(queue, slots, n) == queue.len(),
    decreases queue.len(),
{
    let live = |node: QueueNode<KV>| is_live(slots, node);
    reveal(Seq::filter);
    if n != 0 && queue.len() != 0 {
        let rest = queue.drop_first();
        let first = seq![queue[0]];
        let left = if is_live(slots, queue[0]) {
            (n - 1) as nat
        } else {
            n
        };
        lemma_fifo_cut_end(rest, slots, left);
        lemma_fifo_cut_bound(rest, slots, left);
        assert(queue =~= first + rest);
        Seq::filter_distributes_over_add(first, rest, live);
        lemma_filter_constant(first, live);
        assert(first.filter(live).len() == if is_live(slots, queue[0]) {
            1nat
        } else {
            0nat
        });
        let cut = fifo_cut(rest, slots, left) as int;
        if cut > 0 {
            assert(queue[cut] == rest[cut - 1]);
        }
    }
}

/// Eviction pops nodes until the last entry asked for is reclaimed and no
/// further, or all where there are fewer entries.
pub proof fn law_evict_pops_no_further_than_asked<KV, V>(m: StoreModel<KV, V>, n: nat)
    requires
        m.wf(),
    ensures
        exists|cut: int|
            #![trigger m.pop(cut)]
            {
                &&& 0 <= cut <= m.queue.len()
                &&& m.evict(n) == m.pop(cut)
                &&& n == 0 ==> cut == 0
                &&& n > m.slots.len() ==> cut == m.queue.len()
                &&& 0 < n <= m.slots.len() ==> {
                    &&& cut > 0
                    &&& m.slots.contains_key(m.queue[cut - 1].key)
                    &&& m.slots[m.queue[cut - 1].key].generation == m.queue[cut - 1].generation
                    &&& m.pop(cut).slots.len() == m.slots.len() - n
                }
            },
{
    let cut = fifo_cut(m.queue, m.slots, n) as int;
    law_one_live_node_per_entry(m);
    lemma_fifo_cut_bound(m.queue, m.slots, n);
    lemma_fifo_cut_end(m.queue, m.slots, n);
    law_evict_is_fifo(m, n);
    assert(m.evict(n) == m.pop(cut));
}

/// Eviction by age pops the nodes at the head of the queue whose age exceeds the
/// length of the window in nanoseconds, up to the first whose does not.
pub proof fn law_age_eviction_pops_what_exceeds_the_window<KV, V>(
    m: StoreModel<KV, V>,
    window: Duration,
    now: Instant,
)
    ensures
        exists|cut: int|
            #![trigger m.pop(cut)]
            {
                &&& 0 <= cut <= m.queue.len()
                &&& m.evict_older_than(window, now) == m.pop(cut)
                &&& forall|i: int|
                    0 <= i < cut ==> now.nanos - (#[trigger] m.queue[i]).stamp.nanos > window.secs
                        * 1_000_000_000 + window.subsec_nanos
                &&& cut < m.queue.len() ==> now.nanos - m.queue[cut].stamp.nanos <= window.secs
                    * 1_000_000_000 + window.subsec_nanos
            },
{
    let cut = age_cut(m.queue, window, now) as int;
    lemma_age_cut(m.queue, window, now);
    assert(m.evict_older_than(window, now) == m.pop(cut));
    assert forall|i: int| 0 <= i < cut implies now.nanos - (#[trigger] m.queue[i]).stamp.nanos
        > window.secs * 1_000_000_000 + window.subsec_nanos by {
        assert(is_aged(m.queue[i], window, now));
    }
}

/// While stamps follow admission order, eviction by age takes an entry if and
/// only if its age exceeds the length of the window in nanoseconds.
pub proof fn law_age_decides_to_the_nanosecond<KV, V>(
    m: StoreModel<KV, V>,
    window: Duration,
    now: Instant,
    i: int,
)
    requires
        m.wf(),
        stamps_ordered(m.queue),
        0 <= i < m.queue.len(),
        m.slots.contains_key(m.queue[i].key),
        m.slots[m.queue[i].key].generation == m.queue[i].generation,
    ensures
        !m.evict_older_than(window, now).slots.contains_key(m.queue[i].key) <==> now.nanos
            - m.queue[i].stamp.nanos > window.secs * 1_000_000_000 + window.subsec_nanos,
{
    law_evict_older_than_goes_by_age(m, window, now, i);
}

/// The cap is whatever it was last set to, and setting it changes nothing else.
pub proof fn law_cap_is_what_it_was_set_to<KV, V>(
    m: StoreModel<KV, V>,
    first: usize,
    second: usize,
)
    ensures
        m.set_capacity(second).capacity == second,
        m.set_capacity(first).set_capacity(second).capacity == second,
        m.set_capacity(second) == (StoreModel { capacity: second as int, ..m }),
{
}

/// Clearing takes out every entry and node, refunds all, and leaves the cap, the
/// origin and the lifetime counters alone.
pub proof fn law_clear_leaves_the_lifetime_counters<KV, V>(m: StoreModel<KV, V>)
    ensures
        m.clear() == (StoreModel {
            reserved: 0,
            ttl_count: 0,
            slots: Map::<KV, Slot<V>>::empty(),
            queue: Seq::<QueueNode<KV>>::empty(),
            ..m
        }),
{
}

} // verus!
