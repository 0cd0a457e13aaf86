//! Dates of the proleptic Gregorian calendar, and the packed form in which older
//! clients expect a time.
use vstd::prelude::*;
use crate::smb::{filetime_to_unix, unix_of};

verus! {

/// Whether a year is a leap year.
pub open spec fn is_leap(y: int) -> bool {
    y % 4 == 0 && (y % 100 != 0 || y % 400 == 0)
}

/// How many days a month has.
pub open spec fn month_len(y: int, m: int) -> int {
    if m == 2 {
        if is_leap(y) {
            29
        } else {
            28
        }
    } else if m == 4 || m == 6 || m == 9 || m == 11 {
        30
    } else {
        31
    }
}

/// How many days of a year lie before a month.
pub open spec fn days_before_month(y: int, m: int) -> int
    decreases m,
{
    if m <= 1 {
        0
    } else {
        days_before_month(y, m - 1) + month_len(y, m - 1)
    }
}

/// How many leap years lie before a year, from the year 1 on.
pub open spec fn leaps_before(y: int) -> int {
    (y - 1) / 4 - (y - 1) / 100 + (y - 1) / 400
}

/// How many days lie between 1 January 1970 and a date.
pub open spec fn day_number(y: int, m: int, d: int) -> int {
    365 * (y - 1970) + leaps_before(y) - leaps_before(1970) + days_before_month(y, m) + d - 1
}

/// Whether the three numbers are a date.
pub open spec fn is_date(y: int, m: int, d: int) -> bool {
    1 <= m <= 12 && 1 <= d <= month_len(y, m)
}

/// How many leap days lie before a year that is counted from March, in a cycle of four
/// hundred years.
spec fn march_leaps(yoe: int) -> int {
    yoe / 4 - yoe / 100
}

proof fn lemma_year_of_cycle(doe: int, yoe: int)
    requires
        0 <= doe <= 146_096,
        yoe == (doe - doe / 1460 + doe / 36524 - doe / 146_096) / 365,
    ensures
        0 <= yoe <= 399,
        365 * yoe + march_leaps(yoe) <= doe,
        doe - (365 * yoe + march_leaps(yoe)) <= 365,
        doe - (365 * yoe + march_leaps(yoe)) == 365 ==> is_leap(yoe + 1),
{
    let a = doe / 1460;
    let b = doe / 36524;
    let c = doe / 146_096;
    assert(0 <= b <= 4);
    assert(0 <= c <= 1);
}

/// The days of a year before a month, in a year without a leap day.
spec fn plain_days_before(m: int) -> int {
    if m == 1 {
        0
    } else if m == 2 {
        31
    } else if m == 3 {
        59
    } else if m == 4 {
        90
    } else if m == 5 {
        120
    } else if m == 6 {
        151
    } else if m == 7 {
        181
    } else if m == 8 {
        212
    } else if m == 9 {
        243
    } else if m == 10 {
        273
    } else if m == 11 {
        304
    } else {
        334
    }
}

proof fn lemma_days_before(y: int, m: int)
    requires
        1 <= m <= 12,
    ensures
        days_before_month(y, m) == plain_days_before(m) + (if m > 2 && is_leap(y) {
            1int
        } else {
            0
        }),
{
    reveal_with_fuel(days_before_month, 13);
}

proof fn lemma_month_of_year(doy: int, mp: int, m: int, d: int)
    requires
        0 <= doy <= 365,
        mp == (5 * doy + 2) / 153,
        d == doy - (153 * mp + 2) / 5 + 1,
        m == if mp < 10 {
            mp + 3
        } else {
            mp - 9
        },
    ensures
        1 <= m <= 12,
        1 <= d,
        m > 2 ==> doy == plain_days_before(m) - 59 + d - 1,
        m <= 2 ==> doy == plain_days_before(m) + 306 + d - 1,
        m != 2 ==> forall|y: int| d <= #[trigger] month_len(y, m),
        m == 2 ==> d <= 29,
        m == 2 && d == 29 ==> doy == 365,
{
    assert(0 <= mp <= 11);
    assert(mp == 0 || mp == 1 || mp == 2 || mp == 3 || mp == 4 || mp == 5 || mp == 6 || mp == 7 || mp == 8 || mp == 9
        || mp == 10 || mp == 11);
}

proof fn lemma_leaps(era: int, yoe: int)
    requires
        0 <= yoe <= 399,
        0 <= era,
    ensures
        leaps_before(400 * era + yoe + 1) == 97 * era + march_leaps(yoe),
        leaps_before(400 * era + yoe) + (if is_leap(400 * era + yoe) {
            1int
        } else {
            0
        }) == leaps_before(400 * era + yoe + 1),
        is_leap(400 * era + yoe + 1) == is_leap(yoe + 1),
{
    let y = 400 * era + yoe;
    assert(y / 4 == 100 * era + yoe / 4);
    assert(y / 100 == 4 * era + yoe / 100);
    assert(y / 400 == era);
}

/// The date of a day, counted from 1 January 1970.
pub fn civil_from_days(days: u64) -> (r: (u64, u64, u64))
    requires
        days <= u64::MAX - 719_468,
    ensures
        is_date(r.0 as int, r.1 as int, r.2 as int),
        day_number(r.0 as int, r.1 as int, r.2 as int) == days,
{
    let z: u64 = days + 719_468;
    let era: u64 = z / 146_097;
    let doe: u64 = z % 146_097;
    let yoe: u64 = (doe - doe / 1460 + doe / 36524 - doe / 146_096) / 365;
    proof {
        lemma_year_of_cycle(doe as int, yoe as int);
    }
    let doy: u64 = doe - (365 * yoe + yoe / 4 - yoe / 100);
    let mp: u64 = (5 * doy + 2) / 153;
    let d: u64 = doy - (153 * mp + 2) / 5 + 1;
    let m: u64 = if mp < 10 {
        mp + 3
    } else {
        mp - 9
    };
    proof {
        lemma_month_of_year(doy as int, mp as int, m as int, d as int);
        lemma_leaps(era as int, yoe as int);
        lemma_days_before(400 * era + yoe, m as int);
        lemma_days_before(400 * era + yoe + 1, m as int);
    }
    let y: u64 = yoe + era * 400 + (if m <= 2 {
        1
    } else {
        0
    });
    assert(leaps_before(1970) == 477);
    (y, m, d)
}

/// Two dates with the same number of days are the same date.
pub proof fn law_day_number_names_date(y0: int, m0: int, d0: int, y1: int, m1: int, d1: int)
    requires
        is_date(y0, m0, d0),
        is_date(y1, m1, d1),
        day_number(y0, m0, d0) == day_number(y1, m1, d1),
    ensures
        y0 == y1 && m0 == m1 && d0 == d1,
{
    lemma_within_year(y0, m0, d0);
    lemma_within_year(y1, m1, d1);
    if y0 < y1 {
        lemma_years_apart(y0, y1);
    } else if y1 < y0 {
        lemma_years_apart(y1, y0);
    }
    lemma_days_before(y0, m0);
    lemma_days_before(y1, m1);
}

/// The day number of the first day of a year.
spec fn year_start(y: int) -> int {
    365 * (y - 1970) + leaps_before(y) - leaps_before(1970)
}

proof fn lemma_within_year(y: int, m: int, d: int)
    requires
        is_date(y, m, d),
    ensures
        year_start(y) <= day_number(y, m, d) < year_start(y + 1),
{
    lemma_days_before(y, m);
    lemma_leap_step(y);
}

#[verifier::spinoff_prover]
proof fn lemma_leap_step(y: int)
    ensures
        leaps_before(y + 1) == leaps_before(y) + (if is_leap(y) {
            1int
        } else {
            0
        }),
{
    let x = y - 1;
    assert(y / 4 == x / 4 + (if y % 4 == 0 {
        1int
    } else {
        0
    }));
    assert(y / 100 == x / 100 + (if y % 100 == 0 {
        1int
    } else {
        0
    }));
    assert(y / 400 == x / 400 + (if y % 400 == 0 {
        1int
    } else {
        0
    }));
    assert(y % 400 == 0 ==> y % 100 == 0);
    assert(y % 100 == 0 ==> y % 4 == 0);
}

proof fn lemma_years_apart(a: int, b: int)
    requires
        a < b,
    ensures
        year_start(a + 1) <= year_start(b),
    decreases b - a,
{
    if a + 1 < b {
        lemma_years_apart(a, b - 1);
        lemma_leap_step(b - 1);
    }
}

// ---------------- the packed form ----------------

/// The time of day in 16 bits: hours, minutes and even seconds.
pub open spec fn time_word(tod: int) -> u32 {
    ((tod / 3600) as u32) << 11 | ((tod % 3600 / 60) as u32) << 5 | (tod % 60 / 2 * 2) as u32
}

/// Years since 1980, of which 128 fit.
pub open spec fn year_field(y: int) -> u32 {
    if y < 1980 {
        0
    } else if y > 2107 {
        127
    } else {
        (y - 1980) as u32
    }
}

/// A date in 16 bits: years since 1980, month and day.
pub open spec fn date_word(y: int, m: int, d: int) -> u32 {
    year_field(y) << 9 | (m as u32) << 5 | d as u32
}

/// Whether `w` packs a time: the date and the time of day in one word. Times before
/// 1970 count as 1970.
pub open spec fn packs(w: u32, secs: int) -> bool {
    let s = if secs < 0 {
        0
    } else {
        secs
    };
    exists|y: int, m: int, d: int|
        is_date(y, m, d) && day_number(y, m, d) == s / 86400 && w == #[trigger] date_word(y, m, d) | time_word(s % 86400)
}

/// Packs a time.
pub fn dos_stamp(secs: i64) -> (w: u32)
    ensures
        packs(w, secs as int),
{
    let s: u64 = if secs < 0 {
        0
    } else {
        secs as u64
    };
    let tod: u64 = s % 86400;
    let (y, m, d) = civil_from_days(s / 86400);
    let field: u32 = if y < 1980 {
        0
    } else if y > 2107 {
        127
    } else {
        (y - 1980) as u32
    };
    let time: u32 = ((tod / 3600) as u32) << 11 | ((tod % 3600 / 60) as u32) << 5 | (tod % 60 / 2 * 2) as u32;
    let date: u32 = field << 9 | (m as u32) << 5 | d as u32;
    assert(date == date_word(y as int, m as int, d as int));
    date | time
}

/// Packs a FILETIME.
pub fn dos_stamp_of(ft: u64) -> (w: u32)
    ensures
        packs(w, unix_of(ft).0 as int),
{
    let (secs, _nanos) = filetime_to_unix(ft);
    dos_stamp(secs)
}

} // verus!
