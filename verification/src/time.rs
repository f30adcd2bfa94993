//! Points in time, as seconds and nanoseconds since the Unix epoch.

use chrono::{DateTime, Utc};
use vstd::prelude::*;

verus! {

/// The first second that a timestamp can name: the start of the year -262143.
pub const MIN_SECS: i64 = -8_334_601_228_800;

/// The last second that a timestamp can name: the end of the year 262142.
pub const MAX_SECS: i64 = 8_210_266_876_799;

/// The seconds and nanoseconds that name a point in time. More than 999,999,999
/// nanoseconds stand for a leap second, which only the last second of a minute can hold.
pub open spec fn valid_instant(secs: int, nanos: int) -> bool {
    &&& MIN_SECS <= secs <= MAX_SECS
    &&& 0 <= nanos < 2_000_000_000
    &&& nanos >= 1_000_000_000 ==> secs % 60 == 59
}

/// A point in time, in UTC.
#[derive(Clone, Copy, Debug, PartialEq, Eq, Structural)]
pub struct Timestamp {
    secs: i64,
    nanos: u32,
}

impl View for Timestamp {
    type V = (int, int);

    closed spec fn view(&self) -> (int, int) {
        (self.secs as int, self.nanos as int)
    }
}

impl Timestamp {
    #[verifier::type_invariant]
    spec fn wf(self) -> bool {
        valid_instant(self.secs as int, self.nanos as int)
    }

    /// The point in time `secs` seconds and `nanos` nanoseconds after the epoch, if the
    /// two name one.
    pub fn new(secs: i64, nanos: u32) -> (r: Option<Timestamp>)
        ensures
            match r {
                Some(t) => valid_instant(secs as int, nanos as int) && t@ == (
                    secs as int,
                    nanos as int,
                ),
                None => !valid_instant(secs as int, nanos as int),
            },
    {
        if secs < MIN_SECS || secs > MAX_SECS || nanos >= 2_000_000_000 {
            return None;
        }
        if nanos >= 1_000_000_000 {
            let shifted: u64 = (secs - MIN_SECS) as u64;
            // MIN_SECS is the start of a minute.
            assert((secs - MIN_SECS) % 60 == secs % 60);
            if shifted % 60 != 59 {
                return None;
            }
        }
        Some(Timestamp { secs, nanos })
    }

    pub fn secs(&self) -> (r: i64)
        ensures
            r == self@.0,
            MIN_SECS <= r <= MAX_SECS,
    {
        proof {
            use_type_invariant(self);
        }
        self.secs
    }

    pub fn nanos(&self) -> (r: u32)
        ensures
            r == self@.1,
    {
        self.nanos
    }

    /// The current time.
    ///
    /// Which time that is, only the clock knows: nothing is promised of the result but
    /// that it is a point in time after the epoch.
    pub fn now() -> (r: Timestamp)
        ensures
            valid_instant(r@.0, r@.1),
            r@.0 >= 0,
    {
        let (secs, nanos) = utc_now();
        Timestamp { secs, nanos }
    }

    /// How many whole seconds passed from `then` until `self`; negative when `then` is the
    /// later of the two.
    pub fn seconds_since(&self, then: &Timestamp) -> (r: i64)
        ensures
            r == whole_seconds(elapsed_nanos(self@, then@)),
    {
        proof {
            use_type_invariant(self);
            use_type_invariant(then);
        }
        seconds_between(self.secs, self.nanos, then.secs, then.nanos)
    }

    /// The time as `YYYYMMDDThhmmssZ`, fit for a file name.
    pub fn file_stamp(&self) -> (r: String)
        ensures
            r@ == stamp_text(self@.0, self@.1),
    {
        proof {
            use_type_invariant(self);
        }
        format_stamp(self.secs, self.nanos)
    }
}

/// Is `a` a later point in time than `b`?
pub open spec fn later(a: (int, int), b: (int, int)) -> bool {
    a.0 > b.0 || (a.0 == b.0 && a.1 > b.1)
}

/// Nanoseconds from `then` until `now`, each given as seconds and nanoseconds.
///
/// A leap second counts when it lies between the two times of day: the earlier time of day
/// stands inside it.
pub open spec fn elapsed_nanos(now: (int, int), then: (int, int)) -> int {
    let leap: int = if now.0 % 86_400 > then.0 % 86_400 && then.1 >= 1_000_000_000 {
        1
    } else if now.0 % 86_400 < then.0 % 86_400 && now.1 >= 1_000_000_000 {
        -1
    } else {
        0
    };
    (now.0 - then.0 + leap) * 1_000_000_000 + (now.1 - then.1)
}

/// The whole seconds in a number of nanoseconds, rounded towards zero.
pub open spec fn whole_seconds(nanos: int) -> int {
    if nanos >= 0 {
        nanos / 1_000_000_000
    } else {
        -((-nanos) / 1_000_000_000)
    }
}

/// What `chrono` renders for the time `secs`, `nanos` under the format `%Y%m%dT%H%M%SZ`.
pub uninterp spec fn stamp_text(secs: int, nanos: int) -> Seq<char>;

/// `chrono::Utc::now`, taken apart by `timestamp` and `timestamp_subsec_nanos`: the system
/// clock as seconds and nanoseconds since the epoch. The clock decides which; the contract
/// says no more than that the pair names a point in time that is not before the epoch.
/// `chrono` panics where the clock is set to a time before it.
#[verifier::external_body]
fn utc_now() -> (r: (i64, u32))
    ensures
        valid_instant(r.0 as int, r.1 as int),
        r.0 >= 0,
{
    let now = Utc::now();
    (now.timestamp(), now.timestamp_subsec_nanos())
}

/// `chrono`'s difference of two `DateTime<Utc>` values, each made by
/// `DateTime::from_timestamp`, in whole seconds by `TimeDelta::num_seconds`. Both pairs
/// name points in time, so neither conversion fails. The difference of the seconds and of
/// the nanoseconds is corrected by one second where a leap second lies between the times
/// of day, and rounded towards zero.
#[verifier::external_body]
fn seconds_between(now_secs: i64, now_nanos: u32, then_secs: i64, then_nanos: u32) -> (r: i64)
    requires
        valid_instant(now_secs as int, now_nanos as int),
        valid_instant(then_secs as int, then_nanos as int),
    ensures
        r == whole_seconds(
            elapsed_nanos(
                (now_secs as int, now_nanos as int),
                (then_secs as int, then_nanos as int),
            ),
        ),
{
    let now = DateTime::<Utc>::from_timestamp(now_secs, now_nanos).unwrap();
    let then = DateTime::<Utc>::from_timestamp(then_secs, then_nanos).unwrap();
    (now - then).num_seconds()
}

/// `chrono::DateTime::format` with `%Y%m%dT%H%M%SZ`, on the `DateTime<Utc>` that
/// `DateTime::from_timestamp` makes of a pair that names a point in time. The text is
/// named, not spelled out: it is the proleptic Gregorian date and the time of day.
#[verifier::external_body]
fn format_stamp(secs: i64, nanos: u32) -> (r: String)
    requires
        valid_instant(secs as int, nanos as int),
    ensures
        r@ == stamp_text(secs as int, nanos as int),
{
    let time = DateTime::<Utc>::from_timestamp(secs, nanos).unwrap();
    time.format("%Y%m%dT%H%M%SZ").to_string()
}

// ---------------------------------------------------------------- laws

/// The later of two points in time is the one with more nanoseconds behind it.
pub proof fn law_later(a: (int, int), b: (int, int))
    requires
        0 <= a.1 < 2_000_000_000,
        0 <= b.1 < 2_000_000_000,
    ensures
        later(a, b) <==> a.0 * 2_000_000_000 + a.1 > b.0 * 2_000_000_000 + b.1,
        a == b <==> !later(a, b) && !later(b, a),
{
}

/// Outside leap seconds the time between two points is the difference of their nanoseconds,
/// counted in whole seconds towards zero.
pub proof fn law_elapsed(now: (int, int), then: (int, int))
    requires
        0 <= now.1 < 1_000_000_000,
        0 <= then.1 < 1_000_000_000,
    ensures
        ({
            let nanos = (now.0 * 1_000_000_000 + now.1) - (then.0 * 1_000_000_000 + then.1);
            let secs = whole_seconds(elapsed_nanos(now, then));
            &&& elapsed_nanos(now, then) == nanos
            &&& nanos >= 0 ==> secs * 1_000_000_000 <= nanos < (secs + 1) * 1_000_000_000
            &&& nanos <= 0 ==> (secs - 1) * 1_000_000_000 < nanos <= secs * 1_000_000_000
        }),
{
}

} // verus!
