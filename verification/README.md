# rambudget

A RAM store that degrades by policy. Each insert reserves the measured bytes of
its entry under a hard cap; when the budget is exhausted the insert is denied
and the pair comes back untouched, with the reason. Expired entries are
invisible to readers but stay charged until they are reclaimed. Reclaiming
follows admission order.

The library is written in Verus: what each operation does is stated in its
contract and proved.

```rust
use rambudget::{BudgetStore, Cost, InsertOutcome};

struct ByteCost;
impl Cost<String, Vec<u8>> for ByteCost {
    fn entry_cost(k: &String, v: &Vec<u8>) -> usize { k.len() + v.capacity() }
}

let mut store: BudgetStore<String, Vec<u8>, ByteCost> = BudgetStore::new(1 << 30);
match store.put("session:42".into(), vec![0u8; 128]) {
    Ok(InsertOutcome::Stored { charged }) => { /* `charged` bytes are reserved */ }
    Ok(InsertOutcome::Replaced { freed, charged }) => { /* old budget refunded */ }
    Err(denied) => { let (key, value) = denied.into_pair(); }
}
```

## Guarantees

- The reserved bytes never exceed the cap, unless the cap is lowered below them.
- The reserved bytes are the sum of the costs of the entries held.
- A denied insert changes nothing but the denial counter, and returns the pair.
- Expired entries are invisible, yet charged until reclaimed.

These and others stand, over every history of calls, in `src/laws.rs`.

## Layout

| File | What it holds |
|------|---------------|
| `src/store.rs` | `BudgetStore` and its operations |
| `src/model.rs` | the store as a mathematical object; what each operation makes of it |
| `src/laws.rs` | what holds of the store as a whole |
| `src/validity.rs`, `src/sums.rs` | the proofs that validity is kept |
| `src/table.rs` | the interface of the table that holds the entries |
| `src/dash.rs` | that interface over `DashMap` with `ahash`, for string keys and byte values |
| `src/slot.rs` | slots and queue nodes |
| `src/clock.rs` | time, expiry counts, clocks |
| `src/cost.rs` | what an entry weighs |
| `src/outcome.rs` | outcomes, denials, statistics |
| `src/printed.rs` | what a denial and a store show when they are printed |
| `app/` | the store behind a lock, for many threads |

What is taken on trust stands behind `external_body` functions: the `DashMap`
methods in `src/dash.rs`, the reading of the system clock in `src/clock.rs`, and
the formatting of denials and stores.
