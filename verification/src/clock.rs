//! Points in time, and the age of a measurement.
use vstd::prelude::*;

verus! {

/// A point in time: seconds since the start of 1970 (UTC), and nanoseconds beyond. During a leap
/// second the nanoseconds go on counting past a whole second.
#[derive(Clone, Copy, Debug, PartialEq, Eq, Structural)]
pub struct Moment {
    pub secs: i64,
    pub nanos: u32,
}

impl Moment {
    /// Whether this is a point in time that the calendar covers, and its nanoseconds go past a
    /// whole second only at the end of a minute.
    pub open spec fn valid(self) -> bool {
        &&& -8_334_601_228_800 <= self.secs <= 8_210_266_876_799
        &&& self.nanos < 2_000_000_000
        &&& self.nanos >= 1_000_000_000 ==> self.secs as int % 60 == 59
    }

    /// The point in time with the given seconds and nanoseconds, if there is one.
    pub fn new(secs: i64, nanos: u32) -> (r: Option<Moment>)
        ensures
            ({
                let m = Moment { secs, nanos };
                r == (if m.valid() {
                    Some(m)
                } else {
                    None
                })
            }),
    {
        let in_range = -8_334_601_228_800 <= secs && secs <= 8_210_266_876_799;
        if !in_range || nanos >= 2_000_000_000 {
            return None;
        }
        if nanos >= 1_000_000_000 {
            // Counted from the first minute that the calendar covers.
            let since: i64 = secs + 8_334_601_228_800;
            if since % 60 != 59 {
                return None;
            }
        }
        Some(Moment { secs, nanos })
    }
}

/// The leap second that lies between two points in time, going by their times of day: one, if the
/// earlier of the two is in a leap second.
pub open spec fn leap_nanos_between(later: Moment, earlier: Moment) -> int {
    let a = later.secs as int % 86_400;
    let b = earlier.secs as int % 86_400;
    if a > b && earlier.nanos >= 1_000_000_000 {
        1_000_000_000
    } else if a < b && later.nanos >= 1_000_000_000 {
        -1_000_000_000
    } else {
        0
    }
}

/// Nanoseconds from one point in time to another.
pub open spec fn nanos_between(later: Moment, earlier: Moment) -> int {
    (later.secs - earlier.secs) * 1_000_000_000 + (later.nanos - earlier.nanos)
        + leap_nanos_between(later, earlier)
}

/// Whole seconds from one point in time to another, dropping the fraction.
pub open spec fn seconds_between(later: Moment, earlier: Moment) -> int {
    let n = nanos_between(later, earlier);
    if n >= 0 {
        n / 1_000_000_000
    } else {
        -((-n) / 1_000_000_000)
    }
}

/// The point in time, as seconds and nanoseconds, that a text denotes by the RFC 3339 grammar;
/// none if it denotes none.
pub uninterp spec fn rfc3339_instant(text: Seq<char>) -> Option<(i64, u32)>;

/// The seconds and nanoseconds of an optional point in time.
pub open spec fn parts(m: Option<Moment>) -> Option<(i64, u32)> {
    match m {
        Some(x) => Some((x.secs, x.nanos)),
        None => None,
    }
}

/// Calls chrono's `DateTime::parse_from_rfc3339`, and takes the seconds (`timestamp`) and
/// nanoseconds (`timestamp_subsec_nanos`) of what it returns. Claimed: the result depends on the
/// text alone, and is a point in time that chrono's calendar covers.
#[verifier::external_body]
fn parse_rfc3339(text: &str) -> (r: Option<Moment>)
    ensures
        parts(r) == rfc3339_instant(text@),
        r is Some ==> r->0.valid(),
{
    match k8s_openapi::chrono::DateTime::parse_from_rfc3339(text) {
        Ok(t) => Some(Moment { secs: t.timestamp(), nanos: t.timestamp_subsec_nanos() }),
        Err(_) => None,
    }
}

/// Calls chrono's `DateTime::signed_duration_since`, and `TimeDelta::num_seconds` on what it
/// returns. Claimed: the whole seconds between the two, a leap second counting by the time of day.
#[verifier::external_body]
fn whole_seconds(later: &Moment, earlier: &Moment) -> (r: i64)
    requires
        later.valid(),
        earlier.valid(),
    ensures
        r == seconds_between(*later, *earlier),
{
    let a = k8s_openapi::chrono::DateTime::from_timestamp(later.secs, later.nanos).unwrap();
    let b = k8s_openapi::chrono::DateTime::from_timestamp(earlier.secs, earlier.nanos).unwrap();
    a.signed_duration_since(b).num_seconds()
}

/// The age in seconds of what was observed at the given point in time, if that is known. It is
/// negative for a point in the future.
pub fn age_of(observed: &Option<Moment>, now: &Moment) -> (r: Option<i64>)
    requires
        now.valid(),
        observed is Some ==> observed->0.valid(),
    ensures
        match *observed {
            Some(m) => r is Some && r->0 == seconds_between(*now, m),
            None => r is None,
        },
{
    match observed {
        Some(m) => Some(whole_seconds(now, m)),
        None => None,
    }
}

/// The age in seconds of a measurement that carries the given time stamp. A stamp that is absent,
/// or that cannot be read, gives no age.
pub open spec fn stamp_age(observed_at: Option<Seq<char>>, now: Moment) -> Option<i64> {
    match observed_at {
        Some(text) => match rfc3339_instant(text) {
            Some(m) => Some(seconds_between(now, Moment { secs: m.0, nanos: m.1 }) as i64),
            None => None,
        },
        None => None,
    }
}

/// The age in seconds of a measurement that carries the given time stamp.
pub fn age_secs(observed_at: &Option<String>, now: &Moment) -> (r: Option<i64>)
    requires
        now.valid(),
    ensures
        r == stamp_age(crate::objects::text_view(*observed_at), *now),
{
    match observed_at {
        Some(text) => age_of(&parse_rfc3339(text.as_str()), now),
        None => None,
    }
}

} // verus!
