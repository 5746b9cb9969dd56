//! What an entry weighs.

use vstd::prelude::*;

verus! {

/// Computes the byte weight of an entry.
pub trait Cost<K, V> {
    /// Total bytes this key-value pair holds in memory.
    fn entry_cost(key: &K, value: &V) -> usize;
}

/// Weighs an entry by the inline size of its key-value pair alone.
#[derive(Debug, Clone, Copy)]
pub struct InlineCost;

impl<K, V> Cost<K, V> for InlineCost {
    fn entry_cost(_key: &K, _value: &V) -> (cost: usize)
        ensures
            cost == vstd::layout::size_of::<(K, V)>(),
    {
        std::mem::size_of::<(K, V)>()
    }
}

} // verus!
