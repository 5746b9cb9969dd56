//! A byte-budgeted store with hard admission control.
//!
//! Each insert reserves the measured bytes of its entry under a cap. When the
//! budget is exhausted the insert is denied and the pair comes back untouched;
//! expired entries stay charged until they are reclaimed; reclaiming follows
//! admission order.

pub mod clock;
pub mod cost;
pub mod dash;
pub mod laws;
pub mod model;
pub mod outcome;
pub mod printed;
pub mod slot;
pub mod store;
mod sums;
pub mod table;
mod validity;

pub use clock::{Clock, Duration, Instant, SystemClock};
pub use cost::{Cost, InlineCost};
pub use outcome::{Denied, InsertOutcome, Pressure, Stats};
pub use slot::QueueEntry;
pub use store::BudgetStore;
