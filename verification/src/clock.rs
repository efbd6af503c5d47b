//! Lengths of time and the system clock.

use vstd::prelude::*;

verus! {

pub const NANOS_PER_SEC: u128 = 1_000_000_000;

/// A length of time.
#[derive(Debug, Clone, Copy, PartialEq, Eq)]
pub struct Span {
    pub secs: u64,
    /// Nanoseconds on top of the seconds.
    pub nanos: u32,
}

impl View for Span {
    type V = nat;

    /// The length in nanoseconds.
    open spec fn view(&self) -> nat {
        (self.secs * NANOS_PER_SEC + self.nanos) as nat
    }
}

impl Span {
    /// A span of whole seconds.
    pub fn from_secs(secs: u64) -> (r: Span)
        ensures
            r@ == secs * NANOS_PER_SEC,
            r == (Span { secs, nanos: 0 }),
    {
        Span { secs, nanos: 0 }
    }

    /// The length in nanoseconds.
    pub fn as_nanos(&self) -> (r: u128)
        ensures
            r == self@,
    {
        self.secs as u128 * NANOS_PER_SEC + self.nanos as u128
    }
}

/// What is left of `timeout` once `elapsed` has passed; `None` if nothing is.
pub fn time_left(timeout: Span, elapsed: Span) -> (r: Option<Span>)
    requires
        timeout.nanos < NANOS_PER_SEC,
    ensures
        r is Some <==> elapsed@ < timeout@,
        r matches Some(left) ==> left@ == timeout@ - elapsed@ && left.nanos < NANOS_PER_SEC,
{
    let total = timeout.as_nanos();
    let passed = elapsed.as_nanos();
    if passed >= total {
        return None;
    }
    let left: u128 = total - passed;
    Some(Span { secs: (left / NANOS_PER_SEC) as u64, nanos: (left % NANOS_PER_SEC) as u32 })
}

/// `std::time::SystemTime`, a reading of the system clock.
#[verifier::external_type_specification]
#[verifier::external_body]
pub struct ExSystemTime(std::time::SystemTime);

/// `SystemTime::now` reads the system clock; nothing is claimed of what it shows.
pub assume_specification[ std::time::SystemTime::now ]() -> std::time::SystemTime;

/// The time from the Unix epoch to `now` by `SystemTime::duration_since`, `None`
/// for a clock that stands before the epoch. A `Duration` keeps less than a
/// second in its nanoseconds.
#[verifier::external_body]
fn since_epoch(now: std::time::SystemTime) -> (r: Option<Span>)
    ensures
        r is Some ==> r->0.nanos < NANOS_PER_SEC,
{
    let elapsed = now.duration_since(std::time::UNIX_EPOCH).ok()?;
    Some(Span { secs: elapsed.as_secs(), nanos: elapsed.subsec_nanos() })
}

/// The time since the Unix epoch; a clock that stands before it counts as at it.
pub open spec fn clamped(since: Option<Span>) -> nat {
    match since {
        Some(span) => span@,
        None => 0,
    }
}

/// Whole seconds since the Unix epoch, by a reading of the clock.
pub open spec fn seconds_of(since: Option<Span>) -> nat {
    clamped(since) / NANOS_PER_SEC as nat
}

/// The revision that a reading of the clock gives: microseconds since the Unix
/// epoch, or the largest revision where there are more.
pub open spec fn revision_of(since: Option<Span>) -> nat {
    if clamped(since) / 1000 <= u64::MAX {
        clamped(since) / 1000
    } else {
        u64::MAX as nat
    }
}

/// Whether `since` is a reading that the clock can give.
pub open spec fn is_reading(since: Option<Span>) -> bool {
    since matches Some(span) ==> span.nanos < NANOS_PER_SEC
}

/// Whether a call of the system clock has shown `since`.
pub closed spec fn clock_shows(since: Option<Span>) -> bool {
    exists|now: std::time::SystemTime| #[trigger]
        call_ensures(std::time::SystemTime::now, (), now) && call_ensures(
            since_epoch,
            (now,),
            since,
        )
}

/// Whether `now` is a time that a call of the system clock has shown, in whole
/// seconds since the Unix epoch.
pub open spec fn is_unix_time(now: u64) -> bool {
    exists|since: Option<Span>| #[trigger]
        clock_shows(since) && is_reading(since) && now == seconds_of(since)
}

/// Whole seconds since the Unix epoch.
pub fn epoch_seconds(since: Option<Span>) -> (r: u64)
    requires
        is_reading(since),
    ensures
        r == seconds_of(since),
{
    match since {
        Some(span) => span.secs,
        None => 0,
    }
}

/// Nanoseconds since the Unix epoch.
pub fn epoch_nanos(since: Option<Span>) -> (r: u128)
    ensures
        r == clamped(since),
{
    match since {
        Some(span) => span.as_nanos(),
        None => 0,
    }
}

/// The revision that a reading of the clock gives.
pub fn epoch_revision(since: Option<Span>) -> (r: u64)
    ensures
        r == revision_of(since),
{
    let micros: u128 = epoch_nanos(since) / 1000;
    if micros <= u64::MAX as u128 {
        micros as u64
    } else {
        u64::MAX
    }
}

/// Seconds since the Unix epoch by the system clock.
pub fn unix_seconds() -> (r: u64)
    ensures
        is_unix_time(r),
        exists|since: Option<Span>| #[trigger] is_reading(since) && r == seconds_of(since),
{
    let since = since_epoch(std::time::SystemTime::now());
    assert(clock_shows(since));
    assert(is_reading(since));
    epoch_seconds(since)
}

/// The revision that the system clock gives.
pub fn unix_revision() -> (r: u64)
    ensures
        exists|since: Option<Span>| #[trigger]
            clock_shows(since) && is_reading(since) && r == revision_of(since),
{
    let since = since_epoch(std::time::SystemTime::now());
    assert(clock_shows(since));
    epoch_revision(since)
}

/// Nanoseconds since the Unix epoch by the system clock.
pub fn unix_nanos() -> (r: u128)
    ensures
        exists|since: Option<Span>| #[trigger]
            clock_shows(since) && is_reading(since) && r == clamped(since),
{
    let since = since_epoch(std::time::SystemTime::now());
    assert(clock_shows(since));
    epoch_nanos(since)
}

/// What the clock is said to show comes from calls of `SystemTime::now` and of
/// `SystemTime::duration_since` on its result.
proof fn law_reading_comes_from_the_clock(since: Option<Span>)
    requires
        clock_shows(since),
    ensures
        exists|now: std::time::SystemTime| #[trigger]
            call_ensures(std::time::SystemTime::now, (), now) && call_ensures(
                since_epoch,
                (now,),
                since,
            ),
{
}

/// A reading of so many seconds and nanoseconds is that many whole seconds, the
/// seconds and nanoseconds together in nanoseconds, and as a revision in
/// microseconds, as far as these fit. A clock before the epoch reads zero.
pub proof fn law_reading_in_each_unit(since: Option<Span>)
    ensures
        is_reading(since) <==> (since is None || since->0.nanos < 1_000_000_000),
        since matches Some(span) ==> {
            &&& clamped(since) == span.secs * 1_000_000_000 + span.nanos
            &&& span.nanos < 1_000_000_000 ==> seconds_of(since) == span.secs
            &&& span.secs * 1_000_000 + span.nanos / 1000 <= u64::MAX ==> revision_of(since)
                == span.secs * 1_000_000 + span.nanos / 1000
            &&& span.secs * 1_000_000 + span.nanos / 1000 > u64::MAX ==> revision_of(since)
                == u64::MAX
        },
        since is None ==> clamped(since) == 0 && seconds_of(since) == 0 && revision_of(since) == 0,
{
}

} // verus!
