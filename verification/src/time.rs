//! Civil time model and the cache expiry policy.
//!
//! A point in time is held by its civil fields in UTC (proleptic Gregorian
//! calendar). All duration arithmetic is done over `abs_secs`, the number of
//! seconds since the calendar's origin, so that differences between two
//! timestamps are exact whole seconds.

use vstd::prelude::*;

verus! {

/// An instant, as its civil UTC fields with second precision.
#[derive(Clone, Copy, PartialEq, Eq, Structural, Debug)]
pub struct Timestamp {
    pub year: u16,
    pub month: u8,
    pub day: u8,
    pub hour: u8,
    pub minute: u8,
    pub second: u8,
}

pub open spec fn is_leap_year(y: int) -> bool {
    y % 4 == 0 && (y % 100 != 0 || y % 400 == 0)
}

pub open spec fn days_in_year(y: int) -> int {
    if is_leap_year(y) {
        366
    } else {
        365
    }
}

/// Days in all years strictly before `y`, counting from year 0.
pub open spec fn days_before_year(y: int) -> int
    decreases y,
{
    if y <= 0 {
        0
    } else {
        days_before_year(y - 1) + days_in_year(y - 1)
    }
}

pub open spec fn days_in_month(y: int, m: int) -> int {
    if m == 2 {
        if is_leap_year(y) {
            29
        } else {
            28
        }
    } else if m == 4 || m == 6 || m == 9 || m == 11 {
        30
    } else {
        31
    }
}

/// Days in the months of year `y` strictly before month `m` (months are 1-based).
pub open spec fn days_before_month(y: int, m: int) -> int
    decreases m,
{
    if m <= 1 {
        0
    } else {
        days_before_month(y, m - 1) + days_in_month(y, m - 1)
    }
}

impl Timestamp {
    /// Field ranges every timestamp of the library keeps.
    pub open spec fn wf(self) -> bool {
        &&& self.year <= 9999
        &&& 1 <= self.month <= 12
        &&& 1 <= self.day <= 31
        &&& self.hour <= 23
        &&& self.minute <= 59
        &&& self.second <= 59
    }

    /// Days since the calendar origin (year 0, January 1st).
    pub open spec fn abs_days(self) -> int {
        days_before_year(self.year as int) + days_before_month(self.year as int, self.month as int)
            + self.day - 1
    }

    /// Seconds since the calendar origin.
    pub open spec fn abs_secs(self) -> int {
        self.abs_days() * 86400 + self.hour * 3600 + self.minute * 60 + self.second
    }

    /// The month counted absolutely: a later calendar month has a larger index.
    pub open spec fn month_index(self) -> int {
        self.year * 12 + self.month - 1
    }

    /// Seconds since the calendar origin, executable.
    pub fn to_abs_secs(&self) -> (r: i64)
        requires
            self.wf(),
        ensures
            r == self.abs_secs(),
            0 <= r <= 320_000_000_000,
    {
        let mut days: u64 = 0;
        let mut y: u16 = 0;
        while y < self.year
            invariant
                y <= self.year <= 9999,
                days == days_before_year(y as int),
                days <= 366 * y,
            decreases self.year - y,
        {
            let leap: bool = y % 4 == 0 && (y % 100 != 0 || y % 400 == 0);
            days = days + if leap {
                366
            } else {
                365
            };
            y = y + 1;
        }
        let mut m: u8 = 1;
        while m < self.month
            invariant
                self.wf(),
                1 <= m <= self.month,
                days == days_before_year(self.year as int) + days_before_month(
                    self.year as int,
                    m as int,
                ),
                days <= 366 * self.year + 31 * m,
            decreases self.month - m,
        {
            days = days + month_len(self.year, m) as u64;
            m = m + 1;
        }
        days = days + (self.day - 1) as u64;
        let secs: u64 = days * 86400 + (self.hour as u64) * 3600 + (self.minute as u64) * 60
            + self.second as u64;
        secs as i64
    }

    /// The absolute month index, executable.
    pub fn to_month_index(&self) -> (r: u32)
        requires
            self.wf(),
        ensures
            r == self.month_index(),
    {
        (self.year as u32) * 12 + (self.month as u32) - 1
    }
}

/// Length of month `m` of year `y` in days.
pub fn month_len(y: u16, m: u8) -> (r: u8)
    requires
        1 <= m <= 12,
    ensures
        r == days_in_month(y as int, m as int),
{
    if m == 2 {
        let leap: bool = y % 4 == 0 && (y % 100 != 0 || y % 400 == 0);
        if leap {
            29
        } else {
            28
        }
    } else if m == 4 || m == 6 || m == 9 || m == 11 {
        30
    } else {
        31
    }
}

/// How long a cache entry made at time `cache_time` stays fresh, judged at `now`:
/// it expires once the calendar month rolls over, and during the first four days
/// of a month it also expires six hours after it was made.
pub open spec fn cache_time_valid(cache_time: Timestamp, now: Timestamp) -> bool {
    &&& now.month_index() <= cache_time.month_index()
    &&& !(now.day <= 4 && now.abs_secs() - cache_time.abs_secs() > 21600)
}

/// Decides whether a cache entry made at `cache_time` is still fresh at `now`.
pub fn is_cache_time_valid(cache_time: &Timestamp, now: &Timestamp) -> (r: bool)
    requires
        cache_time.wf(),
        now.wf(),
    ensures
        r == cache_time_valid(*cache_time, *now),
{
    if now.to_month_index() > cache_time.to_month_index() {
        false
    } else if now.day <= 4 && now.to_abs_secs() - cache_time.to_abs_secs() > 21600 {
        false
    } else {
        true
    }
}

/// Expiry is monotonic over calendar months: once `now` lies in any later
/// calendar month than the entry's creation time, the entry is invalid,
/// whatever the six-hour rule would say.
pub proof fn lemma_expiry_monotonic(cache_time: Timestamp, now: Timestamp)
    requires
        now.month_index() > cache_time.month_index(),
    ensures
        !cache_time_valid(cache_time, now),
{
}

/// In the first four days of a month, an entry older than six hours is
/// invalid even when the calendar-month rule alone would keep it.
pub proof fn lemma_early_month_expiry(cache_time: Timestamp, now: Timestamp)
    requires
        now.day <= 4,
        now.abs_secs() - cache_time.abs_secs() > 21600,
    ensures
        !cache_time_valid(cache_time, now),
{
}

} // verus!
