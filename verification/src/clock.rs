//! The wall clock: the engine's one window onto the outside world. A single
//! trusted call reads the local civil time; everything derived from it is
//! validated and computed in verified code.

use vstd::prelude::*;
use chrono::{Datelike, Timelike};
use crate::calendar::{Date, instant_of, month_days, date_instant};

verus! {

/// One validated clock reading: a modelled date and a time of day.
#[derive(Clone, Copy, Debug)]
pub struct Moment {
    pub date: Date,
    pub hour: u32,
    pub minute: u32,
    pub second: u32,
}

impl Moment {
    /// A reading the engine models: a valid date with headroom for a
    /// calendar successor, and an in-range time of day.
    pub open spec fn wf(self) -> bool {
        &&& self.date.valid()
        &&& self.date.year <= 9998
        &&& self.hour <= 23
        &&& self.minute <= 59
        &&& self.second <= 59
    }

    /// The instant of this reading, in seconds since the epoch.
    pub open spec fn spec_instant(self) -> int {
        instant_of(self.date, self.hour as int, self.minute as int, self.second as int)
    }

    pub fn instant(&self) -> (t: i64)
        requires
            self.wf(),
        ensures
            t == self.spec_instant(),
            0 <= t,
    {
        date_instant(&self.date, self.hour, self.minute, self.second)
    }
}

/// Relies on `chrono::Local::now` and the `Datelike`/`Timelike` accessors of
/// the resulting local time: `month` is 1 to 12, `day` 1 to 31, `hour` 0 to
/// 23, `minute` and `second` 0 to 59, as chrono documents. The year carries
/// no promise; callers must validate it. One way the call can fail to
/// return: `chrono::Utc::now` unwinds when the host clock is set before
/// the Unix epoch.
#[verifier::external_body]
fn local_now_fields() -> (r: (i64, u32, u32, u32, u32, u32))
    ensures
        1 <= r.1 <= 12,
        1 <= r.2 <= 31,
        r.3 <= 23,
        r.4 <= 59,
        r.5 <= 59,
{
    let now = chrono::Local::now();
    (
        now.year() as i64,
        now.month(),
        now.day(),
        now.hour(),
        now.minute(),
        now.second(),
    )
}

/// Turn one raw clock reading into a moment: `Some` exactly when the year
/// lies in the modelled range and the day exists in its month, and then the
/// moment carries the reading's fields unchanged.
pub fn validate_reading(year: i64, month: u32, day: u32, hour: u32, minute: u32, second: u32) -> (r:
    Option<Moment>)
    requires
        1 <= month <= 12,
        1 <= day <= 31,
        hour <= 23,
        minute <= 59,
        second <= 59,
    ensures
        (r is Some) == (0 <= year <= 9998 && day <= crate::calendar::days_in_month(
            year as int,
            month as int,
        )),
        r matches Some(m) ==> (m == (Moment {
            date: Date { year: year as u32, month, day },
            hour,
            minute,
            second,
        }) && m.wf()),
{
    if year < 0 || year > 9998 {
        return None;
    }
    let y: u32 = year as u32;
    if day > month_days(y, month) {
        return None;
    }
    Some(Moment { date: Date { year: y, month, day }, hour, minute, second })
}

/// Read the wall clock: one trusted call, then verified validation. `None`
/// only when the reading lies outside the engine's modelled years (0
/// through 9998) or names an impossible calendar day.
pub fn read_clock() -> (r: Option<Moment>)
    ensures
        r matches Some(m) ==> m.wf(),
{
    let (year, month, day, hour, minute, second) = local_now_fields();
    validate_reading(year, month, day, hour, minute, second)
}

} // verus!
