//! The clock, and the times of an entry. Times are milliseconds since the epoch.

use vstd::prelude::*;

verus! {

/// The latest time that the calendar has, in milliseconds.
pub const CALENDAR_END: i64 = 8_210_266_876_799_999;

/// The earliest time that the calendar has, in milliseconds.
pub const CALENDAR_START: i64 = -8_334_601_228_800_000;

/// `chrono::Utc::now` gives the machine's clock as a `DateTime<Utc>`, which is no earlier than the
/// epoch (a clock that is set earlier makes it panic) and no later than
/// `DateTime::<Utc>::MAX_UTC`; `timestamp_millis` gives the milliseconds since the epoch. Which of
/// these times it is, is left to the clock.
#[verifier::external_body]
pub fn now() -> (millis: i64)
    ensures
        0 <= millis <= CALENDAR_END,
{
    chrono::Utc::now().timestamp_millis()
}

/// When something ends that starts at `created_at` and lives for `ttl`.
pub open spec fn end_of(created_at: i64, ttl: Option<i64>) -> Option<int> {
    match ttl {
        Some(t) => Some(created_at + t),
        None => None,
    }
}

/// When something ends that starts at `created_at` and lives for `ttl`.
pub fn expires_at(created_at: i64, ttl: Option<i64>) -> (end: Option<i64>)
    requires
        end_of(created_at, ttl) matches Some(end) ==> i64::MIN <= end <= i64::MAX,
    ensures
        match end {
            Some(e) => end_of(created_at, ttl) == Some(e as int),
            None => end_of(created_at, ttl) is None,
        },
{
    match ttl {
        Some(t) => Some(created_at + t),
        None => None,
    }
}

/// The times of a new entry: when it was created, how long it lives, and when it expires.
pub fn prepare_entry_timestamps(ttl: Option<i64>) -> (times: (i64, Option<i64>, Option<i64>))
    requires
        ttl matches Some(t) ==> t <= i64::MAX - CALENDAR_END,
    ensures
        0 <= times.0 <= CALENDAR_END,
        times.1 == ttl,
        match times.2 {
            Some(end) => end_of(times.0, ttl) == Some(end as int),
            None => end_of(times.0, ttl) is None,
        },
{
    let created_at: i64 = now();
    (created_at, ttl, expires_at(created_at, ttl))
}

/// How many milliseconds lie between `now` and a later time; none where it is not later.
pub open spec fn remaining(time: i64, now: i64) -> u64 {
    if time <= now {
        0
    } else {
        (time - now) as u64
    }
}

/// How many milliseconds lie between `now` and a later time; none where it is not later.
pub fn millis_between(time: i64, now: i64) -> (millis: u64)
    ensures
        millis == remaining(time, now),
{
    if time <= now {
        0
    } else {
        (time as i128 - now as i128) as u64
    }
}

/// How many milliseconds there are until a time, by the clock.
pub fn millis_to(time: i64) -> (millis: u64)
    ensures
        exists|now: i64|
            0 <= now <= CALENDAR_END && millis == #[trigger] remaining(time, now),
{
    let clock: i64 = now();
    let millis: u64 = millis_between(time, clock);
    assert(millis == remaining(time, clock));
    millis
}

/// Something ends when its time to live has passed since it was made, and never where it has none;
/// what is left of it shrinks by the time that passes, down to nothing.
pub proof fn law_times(created_at: i64, ttl: i64, now: i64)
    ensures
        end_of(created_at, Some(ttl)) == Some(created_at + ttl),
        end_of(created_at, None) is None,
        created_at > now ==> remaining(created_at, now) == created_at - now,
        created_at <= now ==> remaining(created_at, now) == 0,
{
}

} // verus!
