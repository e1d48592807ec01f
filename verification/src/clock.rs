//! The system clock.

use vstd::prelude::*;

verus! {

/// `std::time::SystemTime`, a reading of the system clock.
#[verifier::external_type_specification]
#[verifier::external_body]
pub struct ExSystemTime(std::time::SystemTime);

/// `SystemTime::now` reads the system clock: any time can come.
pub assume_specification[ std::time::SystemTime::now ]() -> (now: std::time::SystemTime)
;

/// The time from the Unix epoch to a reading of the system clock, in whole
/// seconds and nanoseconds; nothing for a reading before the epoch.
pub uninterp spec fn unix_time(time: std::time::SystemTime) -> Option<(u64, u32)>;

/// `SystemTime::duration_since` for the Unix epoch, in whole seconds and
/// nanoseconds; nothing for a time before the epoch. The result depends on the
/// reading alone, and the nanoseconds make up less than a second.
#[verifier::external_body]
pub(crate) fn since_unix_epoch(time: &std::time::SystemTime) -> (elapsed: Option<(u64, u32)>)
    ensures
        elapsed == unix_time(*time),
        elapsed matches Some(parts) ==> parts.1 < 1_000_000_000,
{
    let elapsed = time.duration_since(std::time::UNIX_EPOCH);
    elapsed.ok().map(|d| (d.as_secs(), d.subsec_nanos()))
}

/// The seconds and nanoseconds that a report carries for a reading of the system
/// clock. A reading before the Unix epoch counts as the epoch.
pub open spec fn report_time(at: std::time::SystemTime) -> (u64, u32) {
    match unix_time(at) {
        Some(parts) => parts,
        None => (0, 0),
    }
}

/// `std::time::Instant`, a reading of the monotonic clock.
#[verifier::external_type_specification]
#[verifier::external_body]
pub struct ExInstant(std::time::Instant);

/// `Instant::now` reads the monotonic clock: any reading can come.
pub assume_specification[ std::time::Instant::now ]() -> (now: std::time::Instant)
;

/// The time from one reading of the monotonic clock to another, in whole
/// microseconds, the lower 64 bits of them.
pub uninterp spec fn micros_from(earlier: std::time::Instant, later: std::time::Instant) -> u64;

/// `Instant::duration_since` in whole microseconds, the lower 64 bits of them:
/// the result depends on the two readings alone. What the clock shows at either
/// is not stated.
#[verifier::external_body]
pub(crate) fn micros_between(earlier: &std::time::Instant, later: &std::time::Instant) -> (us: u64)
    ensures
        us == micros_from(*earlier, *later),
{
    later.duration_since(*earlier).as_micros() as u64
}

/// A report carries the time that its reading shows, and the epoch where that lies
/// before it.
pub proof fn law_reports_carry_the_reading(at: std::time::SystemTime)
    ensures
        unix_time(at) matches Some(parts) ==> report_time(at) == parts,
        unix_time(at) is None ==> report_time(at).0 == 0 && report_time(at).1 == 0,
{
}

} // verus!
