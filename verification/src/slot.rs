//! What the store keeps for each key, and the nodes of its reclaim queue.

use crate::clock::Instant;
use vstd::prelude::*;

verus! {

/// What the table holds for one key.
pub struct Slot<V> {
    /// The stored value.
    pub value: V,
    /// Bytes charged for the entry.
    pub cost: usize,
    /// Zero for a permanent entry; otherwise the microsecond count from which
    /// the entry has expired.
    pub expires_at_micros: u128,
    /// Identifies the queue node that was pushed with the entry.
    pub generation: u64,
}

/// The accounting fields of a slot.
#[derive(Debug, Clone, Copy, PartialEq, Eq, Structural)]
pub struct SlotMeta {
    /// Bytes charged for the entry.
    pub cost: usize,
    /// Expiry count, zero for a permanent entry.
    pub expires_at_micros: u128,
    /// Generation of the entry.
    pub generation: u64,
}

impl SlotMeta {
    /// Whether an entry with these fields has expired at the given count.
    pub open spec fn expired_at(self, now_micros: int) -> bool {
        self.expires_at_micros != 0 && now_micros >= self.expires_at_micros
    }

    /// Whether an entry with these fields has expired at the given count.
    pub fn is_expired(&self, now_micros: u128) -> (expired: bool)
        ensures
            expired == self.expired_at(now_micros as int),
    {
        self.expires_at_micros != 0 && now_micros >= self.expires_at_micros
    }
}

impl<V> Slot<V> {
    /// The accounting fields of this slot.
    pub open spec fn accounting(self) -> SlotMeta {
        SlotMeta {
            cost: self.cost,
            expires_at_micros: self.expires_at_micros,
            generation: self.generation,
        }
    }

    /// Whether the entry carries an expiry.
    pub open spec fn has_ttl(self) -> bool {
        self.expires_at_micros != 0
    }

    /// Whether the entry has expired at the given count.
    pub open spec fn expired_at(self, now_micros: int) -> bool {
        self.accounting().expired_at(now_micros)
    }

    /// The same entry without an expiry.
    pub open spec fn pinned(self) -> Slot<V> {
        Slot { expires_at_micros: 0, ..self }
    }

    /// Copies out the accounting fields.
    pub fn meta(&self) -> (m: SlotMeta)
        ensures
            m == self.accounting(),
    {
        SlotMeta {
            cost: self.cost,
            expires_at_micros: self.expires_at_micros,
            generation: self.generation,
        }
    }

    /// Whether the entry has expired at the given count.
    pub fn is_expired(&self, now_micros: u128) -> (expired: bool)
        ensures
            expired == self.expired_at(now_micros as int),
    {
        self.meta().is_expired(now_micros)
    }

    /// Whether the entry belongs to the given generation.
    pub fn is_generation(&self, generation: u64) -> (same: bool)
        ensures
            same == (self.generation == generation),
    {
        self.generation == generation
    }

    /// Makes the entry permanent.
    pub fn cancel_ttl(&mut self)
        ensures
            *final(self) == old(self).pinned(),
    {
        self.expires_at_micros = 0;
    }

    /// Whether the entry outlives a sweep at the given count; the cost of one
    /// that does not is noted in `freed`.
    pub fn survives(&self, now_micros: u128, freed: &mut Vec<usize>) -> (stays: bool)
        ensures
            stays == !self.expired_at(now_micros as int),
            final(freed)@ == (if stays {
                old(freed)@
            } else {
                old(freed)@.push(self.cost)
            }),
    {
        if self.is_expired(now_micros) {
            freed.push(self.cost);
            false
        } else {
            true
        }
    }
}

/// The accounting fields are those of the slot; a zero count means that the
/// entry is permanent, any other that it has expired from that count on; and a
/// pinned entry differs in nothing but that it is permanent.
pub proof fn law_slot_is_read_by_its_fields<V>(slot: Slot<V>, now_micros: int)
    ensures
        slot.accounting().cost == slot.cost,
        slot.accounting().expires_at_micros == slot.expires_at_micros,
        slot.accounting().generation == slot.generation,
        slot.has_ttl() <==> slot.expires_at_micros > 0,
        slot.expired_at(now_micros) <==> 0 < slot.expires_at_micros <= now_micros,
        slot.accounting().expired_at(now_micros) <==> 0 < slot.expires_at_micros <= now_micros,
        slot.pinned().value == slot.value,
        slot.pinned().cost == slot.cost,
        slot.pinned().generation == slot.generation,
        slot.pinned().expires_at_micros == 0,
{
}

/// A node of the reclaim queue: an admitted key with the time and the
/// generation of its admission.
pub struct QueueEntry<K> {
    pub(crate) key: K,
    pub(crate) stamp: Instant,
    pub(crate) generation: u64,
}

/// What a queue node stands for.
pub struct QueueNode<KV> {
    pub key: KV,
    pub stamp: Instant,
    pub generation: u64,
}

impl<K: View> View for QueueEntry<K> {
    type V = QueueNode<K::V>;

    closed spec fn view(&self) -> QueueNode<K::V> {
        QueueNode { key: self.key@, stamp: self.stamp, generation: self.generation }
    }
}

impl<K: View> QueueEntry<K> {
    /// A node for `key`, admitted at `stamp` as the given generation.
    pub fn new(key: K, stamp: Instant, generation: u64) -> (entry: Self)
        ensures
            entry@ == (QueueNode { key: key@, stamp, generation }),
    {
        QueueEntry { key, stamp, generation }
    }

    /// The admitted key.
    pub fn key(&self) -> (key: &K)
        ensures
            key@ == self@.key,
    {
        &self.key
    }

    /// When the key was admitted.
    pub fn stamp(&self) -> (stamp: Instant)
        ensures
            stamp == self@.stamp,
    {
        self.stamp
    }

    /// Which admission the node belongs to.
    pub fn generation(&self) -> (generation: u64)
        ensures
            generation == self@.generation,
    {
        self.generation
    }
}

} // verus!
