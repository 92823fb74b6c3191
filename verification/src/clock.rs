//! Wall-clock time.
use vstd::prelude::*;

verus! {

/// A point in the system's time.
#[verifier::external_type_specification]
#[verifier::external_body]
pub struct ExSystemTime(std::time::SystemTime);

/// How long after the Unix epoch a point in time is; nothing where it is before it.
pub uninterp spec fn time_since_epoch(t: std::time::SystemTime) -> Option<std::time::Duration>;

/// The whole milliseconds of a duration.
pub uninterp spec fn duration_millis(d: std::time::Duration) -> u128;

/// `SystemTime::now`: the time as the system has it. Nothing is said of it.
#[verifier::external_body]
fn system_time() -> (r: std::time::SystemTime) {
    std::time::SystemTime::now()
}

/// `SystemTime::duration_since` the Unix epoch; nothing where the time is before it.
#[verifier::external_body]
fn since_epoch(t: std::time::SystemTime) -> (r: Option<std::time::Duration>)
    ensures
        r == time_since_epoch(t),
{
    t.duration_since(std::time::UNIX_EPOCH).ok()
}

/// `Duration::as_millis`: the whole milliseconds of a duration.
#[verifier::external_body]
fn whole_millis(d: std::time::Duration) -> (r: u128)
    ensures
        r == duration_millis(d),
{
    d.as_millis()
}

/// Milliseconds since the epoch as 64 bits: zero where the clock stands before the epoch, and the
/// low 64 bits where there are more.
pub open spec fn clock_reading(since: Option<u128>) -> u64 {
    match since {
        Some(m) => (m % 0x1_0000_0000_0000_0000) as u64,
        None => 0,
    }
}

/// What the clock reads at a point in time.
pub open spec fn reading_at(t: std::time::SystemTime) -> u64 {
    clock_reading(
        match time_since_epoch(t) {
            Some(d) => Some(duration_millis(d)),
            None => None,
        },
    )
}

/// Milliseconds since the epoch as 64 bits: zero where the clock stands before the epoch, and the
/// low 64 bits where there are more.
pub fn unix_millis(since: Option<u128>) -> (r: u64)
    ensures
        r == clock_reading(since),
        since matches Some(m) ==> r == m % 0x1_0000_0000_0000_0000,
{
    match since {
        Some(m) => (m % 0x1_0000_0000_0000_0000) as u64,
        None => 0,
    }
}

/// Unix milliseconds, by the system's clock.
pub fn now_ms() -> (r: u64)
    ensures
        exists|t: std::time::SystemTime| r == #[trigger] reading_at(t),
{
    let t = system_time();
    let since = match since_epoch(t) {
        Some(d) => Some(whole_millis(d)),
        None => None,
    };
    let r = unix_millis(since);
    assert(r == reading_at(t));
    r
}

/// The clock reads the milliseconds since the epoch, as long as 64 bits can say them, and nothing
/// before the epoch.
pub proof fn clock_reads_milliseconds(millis: u128)
    ensures
        millis <= u64::MAX ==> clock_reading(Some(millis)) == millis,
        clock_reading(None) == 0,
{
}

} // verus!
