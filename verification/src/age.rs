//! How long ago something was published.

use vstd::prelude::*;

use crate::timestamp::Timestamp;

verus! {

/// How long ago a release was published, as a unit and a count. The caller owns the
/// grammar; singular and plural are separate variants so a localized template can be
/// chosen without this library knowing any language.
#[derive(Debug, Clone, Copy, PartialEq, Eq, Structural)]
pub enum Age {
    Minute,
    Minutes(u32),
    Hour,
    Hours(u32),
    Day,
    Days(u32),
    Month,
    Months(u32),
    Year,
    Years(u32),
}

pub const DAYS_PER_MONTH: u64 = 30;

pub const DAYS_PER_YEAR: u64 = 365;

/// The current instant.
pub fn now() -> (t: Timestamp)
    ensures
        -crate::timestamp::LIMIT <= t@ <= crate::timestamp::LIMIT,
{
    Timestamp::now()
}

/// The whole seconds between two instants, none where the second comes first.
pub open spec fn seconds_between(published: int, now: int) -> int {
    if now < published {
        0
    } else {
        (now - published) / 1_000_000_000
    }
}

/// An age in its largest unit that is at least one, minutes at the smallest, with a
/// count of exactly one said in the singular.
pub open spec fn age_of(seconds: int) -> Age {
    let minutes = seconds / 60;
    let hours = minutes / 60;
    let days = hours / 24;
    if minutes < 60 {
        if minutes == 1 {
            Age::Minute
        } else {
            Age::Minutes(minutes as u32)
        }
    } else if hours < 24 {
        if hours == 1 {
            Age::Hour
        } else {
            Age::Hours(hours as u32)
        }
    } else if days < DAYS_PER_MONTH {
        if days == 1 {
            Age::Day
        } else {
            Age::Days(days as u32)
        }
    } else if days < DAYS_PER_YEAR {
        let months = days / (DAYS_PER_MONTH as int);
        if months == 1 {
            Age::Month
        } else {
            Age::Months(months as u32)
        }
    } else {
        let years = days / (DAYS_PER_YEAR as int);
        if years == 1 {
            Age::Year
        } else {
            Age::Years(years as u32)
        }
    }
}

/// The count an age carries, one for a singular.
pub open spec fn count_of(age: Age) -> u32 {
    match age {
        Age::Minutes(n) | Age::Hours(n) | Age::Days(n) | Age::Months(n) | Age::Years(n) => n,
        _ => 1,
    }
}

/// How many seconds one of an age's unit is.
pub open spec fn unit_of(age: Age) -> int {
    match age {
        Age::Minute | Age::Minutes(_) => 60,
        Age::Hour | Age::Hours(_) => 3_600,
        Age::Day | Age::Days(_) => 86_400,
        Age::Month | Age::Months(_) => 2_592_000,
        Age::Year | Age::Years(_) => 31_536_000,
    }
}

impl Age {
    /// How long before `now` something was published.
    pub fn since(published: Timestamp, now: Timestamp) -> (age: Age)
        ensures
            age == age_of(seconds_between(published@, now@)),
    {
        let (from, to): (i128, i128) = (published.nanos(), now.nanos());
        let seconds: u64 = if to < from {
            0
        } else {
            ((to - from) / 1_000_000_000) as u64
        };
        let minutes: u64 = seconds / 60;
        if minutes < 60 {
            return if minutes == 1 {
                Age::Minute
            } else {
                Age::Minutes(minutes as u32)
            };
        }
        let hours: u64 = minutes / 60;
        if hours < 24 {
            return if hours == 1 {
                Age::Hour
            } else {
                Age::Hours(hours as u32)
            };
        }
        let days: u64 = hours / 24;
        if days < DAYS_PER_MONTH {
            return if days == 1 {
                Age::Day
            } else {
                Age::Days(days as u32)
            };
        }
        if days < DAYS_PER_YEAR {
            let months: u64 = days / DAYS_PER_MONTH;
            return if months == 1 {
                Age::Month
            } else {
                Age::Months(months as u32)
            };
        }
        let years: u64 = days / DAYS_PER_YEAR;
        if years == 1 {
            Age::Year
        } else {
            Age::Years(years as u32)
        }
    }
}

/// An age never claims more time than has passed, and less than one more of its unit
/// is left over.
pub proof fn age_is_whole_units(seconds: int)
    requires
        0 <= seconds <= 800_000_000_000,
    ensures
        unit_of(age_of(seconds)) * count_of(age_of(seconds)) <= seconds,
        seconds < unit_of(age_of(seconds)) * (count_of(age_of(seconds)) + 1),
{
}

/// An age is said in minutes below an hour, in hours below a day, in days below thirty of
/// them, in months of thirty days below a year, and in years of three hundred and
/// sixty-five days from there. The count is how many whole ones have passed, and one is
/// said in the singular.
pub proof fn ages_by_their_length(s: int)
    requires
        0 <= s <= 800_000_000_000,
    ensures
        match age_of(s) {
            Age::Minute => 60 <= s < 120,
            Age::Minutes(n) => 60 * n <= s < 60 * n + 60 && s < 3_600 && n != 1,
            Age::Hour => 3_600 <= s < 7_200,
            Age::Hours(n) => 3_600 * n <= s < 3_600 * n + 3_600 && 3_600 <= s < 86_400 && n != 1,
            Age::Day => 86_400 <= s < 172_800,
            Age::Days(n) => 86_400 * n <= s < 86_400 * n + 86_400 && 86_400 <= s < 2_592_000 && n
                != 1,
            Age::Month => 2_592_000 <= s < 5_184_000,
            Age::Months(n) => 2_592_000 * n <= s < 2_592_000 * n + 2_592_000 && 2_592_000 <= s
                < 31_536_000 && n != 1,
            Age::Year => 31_536_000 <= s < 63_072_000,
            Age::Years(n) => 31_536_000 * n <= s < 31_536_000 * n + 31_536_000 && 31_536_000 <= s
                && n != 1,
        },
{
}

/// What lies between two instants is counted in whole seconds, and what is still to come
/// is no time ago.
pub proof fn seconds_are_whole(published: int, now: int)
    ensures
        now < published ==> seconds_between(published, now) == 0,
        now >= published ==> 1_000_000_000 * seconds_between(published, now) <= now - published
            < 1_000_000_000 * seconds_between(published, now) + 1_000_000_000,
{
}

} // verus!
