//! The wall clock.

use vstd::prelude::*;

verus! {

#[verifier::external_type_specification]
#[verifier::external_body]
pub struct ExSystemTimeError(std::time::SystemTimeError);

/// What `Duration::subsec_nanos` returns for a duration.
pub uninterp spec fn subsec_nanos_of(d: std::time::Duration) -> u32;

/// `Duration::subsec_nanos`: the part of a duration below a second, in nanoseconds, always less
/// than one thousand million.
pub assume_specification[ std::time::Duration::subsec_nanos ](d: &std::time::Duration) -> (r: u32)
    ensures
        r == subsec_nanos_of(*d),
        r < 1_000_000_000,
;

#[verifier::external_type_specification]
#[verifier::external_body]
pub struct ExSystemTime(std::time::SystemTime);

/// `SystemTime::now`: the present moment. Nothing is claimed of it.
pub assume_specification[ std::time::SystemTime::now ]() -> (r: std::time::SystemTime)
;

/// What `SystemTime::duration_since` returns for a moment and the Unix epoch.
pub uninterp spec fn since_epoch_of(t: std::time::SystemTime) -> Result<
    std::time::Duration,
    std::time::SystemTimeError,
>;

/// `SystemTime::duration_since`, with the Unix epoch for the earlier moment. Its result is a
/// function of the moment.
#[verifier::external_body]
fn since_epoch(t: std::time::SystemTime) -> (r: Result<
    std::time::Duration,
    std::time::SystemTimeError,
>)
    ensures
        r == since_epoch_of(t),
{
    t.duration_since(std::time::UNIX_EPOCH)
}

/// The nanoseconds of the second that the clock shows, or 0 where it stands before the epoch.
pub open spec fn nanos_shown(
    read: Result<std::time::Duration, std::time::SystemTimeError>,
) -> u64 {
    match read {
        Ok(d) => subsec_nanos_of(d) as u64,
        Err(_) => 0,
    }
}

/// The nanoseconds of the second that the clock shows, once it has been read.
pub fn nanos_from(read: Result<std::time::Duration, std::time::SystemTimeError>) -> (r: u64)
    ensures
        r == nanos_shown(read),
        r < 1_000_000_000,
{
    match read {
        Ok(d) => d.subsec_nanos() as u64,
        Err(_) => 0,
    }
}

/// The nanoseconds of the present second, or 0 where the clock stands before the epoch. What the
/// clock shows depends on when it is read.
pub fn subsecond_nanos() -> (r: u64)
    ensures
        exists|now: std::time::SystemTime| r == nanos_shown(#[trigger] since_epoch_of(now)),
        r < 1_000_000_000,
{
    let now = std::time::SystemTime::now();
    let r = nanos_from(since_epoch(now));
    assert(r == nanos_shown(since_epoch_of(now)));
    r
}

} // verus!
