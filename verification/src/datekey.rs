//! UTC calendar-day bucketing, derived from an event timestamp alone.

use vstd::prelude::*;

use crate::table::TableKey;
use crate::types::Series;

verus! {

/// Milliseconds in one UTC day.
pub const MS_PER_DAY: i64 = 86_400_000;

/// The UTC day that holds a Unix-millisecond instant, counted from the epoch.
pub open spec fn day_of(ms: int) -> int {
    ms / MS_PER_DAY as int
}

/// A UTC calendar day, as whole days since the Unix epoch.
#[derive(Clone, Copy, PartialEq, Eq, Structural, Debug)]
pub struct DayKey(i64);

impl DayKey {
    /// Whole UTC days since the epoch.
    pub closed spec fn days(self) -> int {
        self.0 as int
    }

    /// Two keys of one day are one.
    pub proof fn lemma_days_unique(a: DayKey, b: DayKey)
        ensures
            a.days() == b.days() <==> a == b,
    {
    }

    /// A key is a number of days that `i64` holds.
    pub proof fn lemma_days(self)
        ensures
            i64::MIN <= self.days() <= i64::MAX,
    {
    }

    /// The UTC day that contains an instant.
    pub closed spec fn of_ts(ms: int) -> DayKey {
        DayKey(day_of(ms) as i64)
    }

    /// The day that contains an instant is counted from the epoch.
    pub proof fn lemma_of_ts(ms: int)
        requires
            i64::MIN <= ms <= i64::MAX,
        ensures
            DayKey::of_ts(ms).days() == day_of(ms),
    {
        assert(i64::MIN <= day_of(ms) <= i64::MAX) by (nonlinear_arith)
            requires
                day_of(ms) == ms / MS_PER_DAY as int,
                i64::MIN <= ms <= i64::MAX,
        ;
    }

    /// The UTC day that contains an instant.
    pub fn from_ts(ms: i64) -> (r: DayKey)
        ensures
            r.days() == day_of(ms as int),
            r == DayKey::of_ts(ms as int),
    {
        if ms >= 0 {
            DayKey(ms / MS_PER_DAY)
        } else {
            let back: i64 = (-(ms + 1)) / MS_PER_DAY;
            assert(day_of(ms as int) == -back - 1) by (nonlinear_arith)
                requires
                    ms < 0,
                    back == (-(ms + 1)) / (MS_PER_DAY as int),
            ;
            DayKey(-back - 1)
        }
    }

    /// Wraps a count of days since the epoch.
    pub fn from_days(days: i64) -> (r: DayKey)
        ensures
            r.days() == days,
    {
        DayKey(days)
    }

    /// Whole UTC days since the epoch.
    pub fn as_days(self) -> (r: i64)
        ensures
            r == self.days(),
    {
        self.0
    }

    /// The instant of this day's UTC midnight, its start, in Unix milliseconds.
    pub fn start_ms(self) -> (r: i64)
        requires
            i64::MIN <= self.days() * MS_PER_DAY <= i64::MAX,
        ensures
            r == self.days() * MS_PER_DAY,
    {
        self.0 * MS_PER_DAY
    }
}

/// An instant lies within the day that it is bucketed into: at or after that day's midnight,
/// and before the next.
pub proof fn law_instant_is_within_its_day(ms: int)
    ensures
        day_of(ms) * MS_PER_DAY <= ms < (day_of(ms) + 1) * MS_PER_DAY,
{
    assert(day_of(ms) * MS_PER_DAY <= ms < (day_of(ms) + 1) * MS_PER_DAY) by (nonlinear_arith)
        requires
            day_of(ms) == ms / MS_PER_DAY as int,
    ;
}

/// A day's midnight is bucketed into that day.
pub proof fn law_midnight_is_in_its_day(days: int)
    ensures
        day_of(days * MS_PER_DAY) == days,
{
    assert((days * MS_PER_DAY) / (MS_PER_DAY as int) == days) by (nonlinear_arith);
}

impl View for DayKey {
    type V = DayKey;

    open spec fn view(&self) -> DayKey {
        *self
    }
}

/// A series on a day.
#[derive(Clone, Copy, PartialEq, Eq, Structural, Debug)]
pub struct SeriesDay {
    /// The series.
    pub series: Series,
    /// The day.
    pub day: DayKey,
}

impl View for SeriesDay {
    type V = SeriesDay;

    open spec fn view(&self) -> SeriesDay {
        *self
    }
}

impl TableKey for SeriesDay {
    fn same_key(&self, other: &Self) -> (r: bool) {
        *self == *other
    }
}

/// A day is twenty-four hours: a day later is the next day, and day nought starts with the epoch.
pub proof fn law_day_is_twenty_four_hours(ms: int)
    ensures
        day_of(ms + 24 * 60 * 60 * 1_000) == day_of(ms) + 1,
        day_of(0) == 0,
        0 <= ms < 24 * 60 * 60 * 1_000 ==> day_of(ms) == 0,
{
}

} // verus!
