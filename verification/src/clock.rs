//! Time as the store reads it: points and spans counted in nanoseconds, and
//! the clock that supplies them.

use vstd::prelude::*;

verus! {

/// A point on a clock's time line, in nanoseconds after that clock's zero.
#[derive(Debug, Clone, Copy, PartialEq, Eq, PartialOrd, Ord, Hash, Structural)]
pub struct Instant {
    pub nanos: u128,
}

/// A span of time: whole seconds and the nanoseconds beyond them.
#[derive(Debug, Clone, Copy, PartialEq, Eq, Hash, Structural)]
pub struct Duration {
    pub secs: u64,
    pub subsec_nanos: u32,
}

impl Duration {
    /// The length of the span in nanoseconds.
    pub open spec fn nanos(self) -> int {
        self.secs * 1_000_000_000 + self.subsec_nanos
    }

    /// A span of whole seconds.
    pub fn from_secs(secs: u64) -> (d: Duration)
        ensures
            d.nanos() == secs * 1_000_000_000,
            d.secs == secs,
            d.subsec_nanos == 0,
    {
        Duration { secs, subsec_nanos: 0 }
    }

    /// The length of the span in nanoseconds.
    pub fn as_nanos(&self) -> (n: u128)
        ensures
            n == self.nanos(),
            n == self.secs * 1_000_000_000 + self.subsec_nanos,
            n < 0x1_0000_0000_0000_0000 * 0x1_0000_0000,
    {
        (self.secs as u128) * 1_000_000_000u128 + (self.subsec_nanos as u128)
    }
}

/// The microsecond count of a point that lies `nanos` after the clock's zero,
/// seen from `origin`: whole microseconds since `origin`, counted from one, so
/// that zero is free to mean "no point in time". Points before `origin` count
/// as `origin` itself.
pub open spec fn micros_from(origin: Instant, nanos: int) -> int {
    if nanos >= origin.nanos {
        (nanos - origin.nanos) / 1_000 + 1
    } else {
        1
    }
}

/// The length of a span is a thousand million nanoseconds for each second, and
/// the nanoseconds beyond.
pub proof fn law_span_length(d: Duration)
    ensures
        d.nanos() == d.secs * 1_000_000_000 + d.subsec_nanos,
{
}

/// A point is counted by the microsecond in which it lies: the first one after
/// `origin` counts one, and so does every point before `origin`.
pub proof fn law_count_is_the_microsecond_of_the_point(origin: Instant, nanos: int)
    ensures
        nanos < origin.nanos ==> micros_from(origin, nanos) == 1,
        nanos >= origin.nanos ==> (micros_from(origin, nanos) - 1) * 1_000 <= nanos - origin.nanos
            < micros_from(origin, nanos) * 1_000,
{
}

/// The microsecond count of `t` seen from `origin`.
pub fn instant_to_micros(origin: Instant, t: Instant) -> (micros: u128)
    ensures
        micros == micros_from(origin, t.nanos as int),
        t.nanos < origin.nanos ==> micros == 1,
        t.nanos >= origin.nanos ==> (micros - 1) * 1_000 <= t.nanos - origin.nanos < micros * 1_000,
{
    if t.nanos >= origin.nanos {
        (t.nanos - origin.nanos) / 1_000 + 1
    } else {
        1
    }
}

/// The expiry count of an entry written at `now` with the given time to live:
/// zero without one, otherwise the microsecond count of `now + ttl`.
pub open spec fn deadline(origin: Instant, now: Instant, ttl: Option<Duration>) -> int {
    match ttl {
        None => 0,
        Some(d) => micros_from(origin, now.nanos + d.nanos()),
    }
}

/// The expiry count is that of the microsecond in which the time to live ends,
/// and zero without one.
pub proof fn law_deadline_counts_the_end(origin: Instant, now: Instant, ttl: Option<Duration>)
    ensures
        ttl is None ==> deadline(origin, now, ttl) == 0,
        ttl matches Some(d) ==> ({
            let end = now.nanos + d.secs * 1_000_000_000 + d.subsec_nanos;
            let count = deadline(origin, now, ttl);
            if end < origin.nanos {
                count == 1
            } else {
                (count - 1) * 1_000 <= end - origin.nanos < count * 1_000
            }
        }),
{
}

/// Computes [`deadline`]. The sum `now + ttl` itself may lie beyond the last
/// point in time, so the spans are divided before they are added.
pub fn deadline_micros(origin: Instant, now: Instant, ttl: Option<Duration>) -> (micros: u128)
    ensures
        micros == deadline(origin, now, ttl),
        micros == 0 <==> ttl is None,
{
    match ttl {
        None => 0,
        Some(d) => {
            let span: u128 = d.as_nanos();
            if now.nanos >= origin.nanos {
                let past: u128 = now.nanos - origin.nanos;
                let carry: u128 = (past % 1_000 + span % 1_000) / 1_000;
                past / 1_000 + span / 1_000 + carry + 1
            } else {
                let ahead: u128 = origin.nanos - now.nanos;
                if span >= ahead {
                    (span - ahead) / 1_000 + 1
                } else {
                    1
                }
            }
        },
    }
}

/// Supplies the current time. Nothing is promised of the points it hands out.
pub trait Clock: Clone + Send + Sync + 'static {
    /// The current point in time.
    fn now(&self) -> Instant;
}

/// The system's monotonic clock, counted from the moment this value was made.
#[derive(Debug, Clone, Copy)]
pub struct SystemClock {
    origin: std::time::Instant,
}

#[verifier::external_type_specification]
#[verifier::external_body]
pub struct ExStdInstant(std::time::Instant);

/// `std::time::Instant::now`: the current reading of the system's monotonic
/// clock. Nothing is claimed of it.
#[verifier::external_body]
fn monotonic_now() -> std::time::Instant {
    std::time::Instant::now()
}

/// `std::time::Instant::elapsed`, in nanoseconds: the time passed since
/// `origin`. Nothing is claimed of it.
#[verifier::external_body]
fn nanos_elapsed(origin: &std::time::Instant) -> u128 {
    origin.elapsed().as_nanos()
}

impl SystemClock {
    /// Whether this clock's zero is a reading of the system's monotonic clock.
    pub closed spec fn zero_was_read(&self) -> bool {
        call_ensures(monotonic_now, (), self.origin)
    }

    /// Whether the system may measure the given nanoseconds since this clock's
    /// zero.
    pub closed spec fn may_measure(&self, nanos: u128) -> bool {
        call_ensures(nanos_elapsed, (&self.origin,), nanos)
    }

    /// A clock whose zero is the present moment.
    pub fn start() -> (clock: SystemClock)
        ensures
            clock.zero_was_read(),
    {
        SystemClock { origin: monotonic_now() }
    }
}

impl Default for SystemClock {
    fn default() -> (clock: SystemClock)
        ensures
            clock.zero_was_read(),
    {
        SystemClock::start()
    }
}

impl Clock for SystemClock {
    /// The time measured since this clock's zero.
    fn now(&self) -> (t: Instant)
        ensures
            self.may_measure(t.nanos),
    {
        Instant { nanos: nanos_elapsed(&self.origin) }
    }
}

/// The zero of the system clock is a reading of the monotonic clock, and the
/// point it hands out lies as many nanoseconds after that zero as were measured
/// to have passed since.
proof fn law_system_clock_hands_on_what_was_measured(
    clock: SystemClock,
    t: Instant,
    nanos: u128,
)
    ensures
        call_ensures(SystemClock::start, (), clock) ==> call_ensures(
            monotonic_now,
            (),
            clock.origin,
        ),
        clock.zero_was_read() <==> call_ensures(monotonic_now, (), clock.origin),
        call_ensures(SystemClock::now, (&clock,), t) ==> call_ensures(
            nanos_elapsed,
            (&clock.origin,),
            t.nanos,
        ),
        clock.may_measure(nanos) <==> call_ensures(nanos_elapsed, (&clock.origin,), nanos),
{
}

} // verus!
