//! Wall-clock time in Unix milliseconds.
use std::time::{Duration, SystemTime, SystemTimeError, UNIX_EPOCH};
use vstd::prelude::*;

verus! {

/// The low 64 bits of a millisecond count.
pub open spec fn low_bits(ms: u128) -> u64 {
    (ms % 0x1_0000_0000_0000_0000) as u64
}

/// What a clock reading means: milliseconds since the Unix epoch, 0 for a clock
/// that stands before it.
pub open spec fn reading(since_epoch: Option<u128>) -> u64 {
    match since_epoch {
        Some(ms) => low_bits(ms),
        None => 0,
    }
}

/// A reading of the system clock, carried through unread.
#[verifier::external_type_specification]
#[verifier::external_body]
pub struct ExSystemTime(SystemTime);

/// How far a clock stands before the instant it was compared with, carried
/// through unread.
#[verifier::external_type_specification]
#[verifier::external_body]
pub struct ExSystemTimeError(SystemTimeError);

/// `SystemTime::now`: whatever the machine's clock says, so nothing is claimed
/// of it.
pub assume_specification[ SystemTime::now ]() -> (r: SystemTime)
;

/// `Duration::as_millis`: the whole milliseconds of a span. A span comes from
/// the machine's clock alone and cannot be looked into, so nothing is claimed
/// of the number.
pub assume_specification[ Duration::as_millis ](d: &Duration) -> (r: u128)
;

/// `SystemTime::duration_since` the Unix epoch, an error where the clock stands
/// before it. Which of the two it is rests with the machine's clock, so nothing
/// is claimed of it.
#[verifier::external_body]
pub(crate) fn since_epoch(t: SystemTime) -> (r: Result<Duration, SystemTimeError>) {
    t.duration_since(UNIX_EPOCH)
}

/// Narrows a millisecond count to 64 bits.
pub fn narrow(ms: u128) -> (r: u64)
    ensures
        r == low_bits(ms),
{
    assert((ms as u64) as u128 == ms % 0x1_0000_0000_0000_0000u128) by (bit_vector);
    ms as u64
}

/// The relay's time for a clock reading.
pub fn unix_ms(since_epoch: Option<u128>) -> (r: u64)
    ensures
        r == reading(since_epoch),
{
    match since_epoch {
        Some(ms) => narrow(ms),
        None => 0,
    }
}

/// The whole milliseconds that `span` may be counted as, or none where the
/// clock stands before the epoch.
pub closed spec fn counted(span: Result<Duration, SystemTimeError>, ms: Option<u128>) -> bool {
    match (span, ms) {
        (Ok(d), Some(n)) => call_ensures(Duration::as_millis, (&d,), n),
        (Err(_), None) => true,
        _ => false,
    }
}

/// `ms` is a time that the system clock may tell: its reading against the Unix
/// epoch, in whole milliseconds.
pub closed spec fn told(ms: u64) -> bool {
    exists|t: SystemTime, span: Result<Duration, SystemTimeError>, clock: Option<u128>|
        {
            &&& #[trigger] call_ensures(SystemTime::now, (), t)
            &&& #[trigger] call_ensures(since_epoch, (t,), span)
            &&& #[trigger] counted(span, clock)
            &&& ms == reading(clock)
        }
}

/// What the clock tells is what the system says: whole milliseconds between the
/// epoch and now as far as 64 bits go, zero for a clock before the epoch.
pub(crate) proof fn law_the_clock_tells_the_time(ms: u64)
    requires
        told(ms),
    ensures
        exists|t: SystemTime, span: Result<Duration, SystemTimeError>|
            {
                &&& #[trigger] call_ensures(SystemTime::now, (), t)
                &&& #[trigger] call_ensures(since_epoch, (t,), span)
                &&& span is Err ==> ms == 0
                &&& span is Ok ==> exists|n: u128|
                    #[trigger] call_ensures(Duration::as_millis, (&span->Ok_0,), n) && ms as int
                        == n as int % 0x1_0000_0000_0000_0000
            },
{
    let (t, span, clock) = choose|
        t: SystemTime,
        span: Result<Duration, SystemTimeError>,
        clock: Option<u128>,
    |
        {
            &&& #[trigger] call_ensures(SystemTime::now, (), t)
            &&& #[trigger] call_ensures(since_epoch, (t,), span)
            &&& #[trigger] counted(span, clock)
            &&& ms == reading(clock)
        };
    if span is Ok {
        let n = clock->Some_0;
        assert(call_ensures(Duration::as_millis, (&span->Ok_0,), n));
    }
}

/// The current time in Unix milliseconds.
pub fn now_ms() -> (r: u64)
    ensures
        told(r),
{
    let t = SystemTime::now();
    let span = since_epoch(t);
    let clock = match &span {
        Ok(d) => Some(d.as_millis()),
        Err(_) => None,
    };
    assert(counted(span, clock));
    unix_ms(clock)
}

/// A span of whole seconds in milliseconds.
pub fn millis(secs: u64) -> (r: u64)
    ensures
        r == low_bits((secs * 1000) as u128),
{
    narrow(secs as u128 * 1000)
}

} // verus!
