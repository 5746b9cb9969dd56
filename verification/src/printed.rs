//! What values show of themselves when they are printed.

use vstd::prelude::*;

verus! {

/// What a denial shows: all but the value, which may be large.
#[derive(Debug)]
pub struct Denied<'a, K> {
    pub key: &'a K,
    pub required: usize,
    pub available: usize,
}

/// What a store shows: its counters.
#[derive(Debug)]
pub struct BudgetStore {
    pub capacity: usize,
    pub reserved: usize,
    pub denials: usize,
    pub ttl_count: usize,
    pub len: usize,
}

} // verus!
