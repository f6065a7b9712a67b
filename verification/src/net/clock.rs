//! Times on the wire: `YYYY-MM-DDThh:mm:ss.mmmZ`, to the millisecond.
use vstd::prelude::*;

use crate::net::error::Error;
use crate::number::{
    all_digits, digit, digits_at, number, number_bound, number_of_padded, padded, padded_fits,
    padded_of_number, push_padded, ten_to,
};
use crate::order::code_point;
use crate::text::{chars_of, push_char};

verus! {

/// A year with 29 days in February.
pub open spec fn leap(y: int) -> bool {
    y % 4 == 0 && (y % 100 != 0 || y % 400 == 0)
}

/// The number of days of a month.
pub open spec fn month_days(y: int, m: int) -> int {
    if m == 2 {
        if leap(y) {
            29
        } else {
            28
        }
    } else if m == 4 || m == 6 || m == 9 || m == 11 {
        30
    } else if 1 <= m <= 12 {
        31
    } else {
        0
    }
}

/// The days of a year before a month begins.
pub open spec fn days_before_month(y: int, m: int) -> int
    decreases m,
{
    if m <= 1 {
        0
    } else {
        days_before_month(y, m - 1) + month_days(y, m - 1)
    }
}

/// The days from the first day of the year 0 to the first day of year `y`: 365 for each year,
/// and one more for each leap year.
pub open spec fn days_before_year(y: int) -> int {
    365 * y + (y + 3) / 4 - (y + 99) / 100 + (y + 399) / 400
}

/// A date of the calendar.
pub open spec fn valid_date(y: int, m: int, d: int) -> bool {
    1 <= m <= 12 && 1 <= d <= month_days(y, m)
}

/// The days from the first of January 1970 to a date.
pub open spec fn day_number(y: int, m: int, d: int) -> int {
    days_before_year(y) - days_before_year(1970) + days_before_month(y, m) + d - 1
}

/// A year is as long as its months together.
proof fn year_length(y: int)
    ensures
        days_before_year(y + 1) == days_before_year(y) + days_before_month(y, 13),
        days_before_month(y, 2) == 31,
        days_before_month(y, 13) == if leap(y) {
            366int
        } else {
            365int
        },
        forall|m: int| 3 <= m <= 13 ==> #[trigger] days_before_month(y, m) == (153 * (m - 3) + 2) / 5
            + if leap(y) {
            60int
        } else {
            59int
        },
{
    reveal_with_fuel(days_before_month, 14);
}

/// Dates of later years come later.
proof fn years_ascend(y1: int, y2: int)
    requires
        y1 <= y2,
    ensures
        days_before_year(y1) <= days_before_year(y2),
        y1 < y2 ==> days_before_year(y1) + days_before_month(y1, 13) <= days_before_year(y2),
    decreases y2 - y1,
{
    if y1 < y2 {
        year_length(y1);
        years_ascend(y1 + 1, y2);
    }
}

/// A date lies within its year and its month.
proof fn date_in_year(y: int, m: int, d: int)
    requires
        valid_date(y, m, d),
    ensures
        0 <= days_before_month(y, m) + d - 1 < days_before_month(y, 13),
        days_before_month(y, m) + d <= days_before_month(y, m + 1),
{
    reveal_with_fuel(days_before_month, 14);
}

/// No two dates have the same number.
pub proof fn dates_differ(y1: int, m1: int, d1: int, y2: int, m2: int, d2: int)
    requires
        valid_date(y1, m1, d1),
        valid_date(y2, m2, d2),
        day_number(y1, m1, d1) == day_number(y2, m2, d2),
    ensures
        y1 == y2,
        m1 == m2,
        d1 == d2,
{
    date_in_year(y1, m1, d1);
    date_in_year(y2, m2, d2);
    if y1 < y2 {
        years_ascend(y1, y2);
    } else if y2 < y1 {
        years_ascend(y2, y1);
    }
    if m1 < m2 {
        months_ascend(y1, m1 + 1, m2);
    } else if m2 < m1 {
        months_ascend(y1, m2 + 1, m1);
    }
}

proof fn months_ascend(y: int, a: int, b: int)
    requires
        1 <= a <= b,
    ensures
        days_before_month(y, a) <= days_before_month(y, b),
    decreases b - a,
{
    if a < b {
        months_ascend(y, a, b - 1);
    }
}

/// The parts of a time of day.
pub open spec fn valid_clock(hh: int, mm: int, ss: int) -> bool {
    0 <= hh <= 23 && 0 <= mm <= 59 && 0 <= ss <= 59
}

/// The milliseconds of a date and time.
pub open spec fn time_value(y: int, m: int, d: int, hh: int, mm: int, ss: int, ms: int) -> int {
    (day_number(y, m, d) * 86400 + hh * 3600 + mm * 60 + ss) * 1000 + ms
}

/// The text of a date and time.
pub open spec fn time_text(y: nat, m: nat, d: nat, hh: nat, mm: nat, ss: nat, ms: nat) -> Seq<char> {
    padded(y, 4) + seq!['-'] + padded(m, 2) + seq!['-'] + padded(d, 2) + seq!['T'] + padded(hh, 2)
        + seq![':'] + padded(mm, 2) + seq![':'] + padded(ss, 2) + seq!['.'] + padded(ms, 3)
        + seq!['Z']
}

/// The shape of a time: its length and its separators.
pub open spec fn time_shape(s: Seq<char>) -> bool {
    &&& s.len() == 24
    &&& forall|i: int| 0 <= i < 24 ==> (#[trigger] s[i] as int) < 128
    &&& s[4] == '-'
    &&& s[7] == '-'
    &&& s[10] == 'T'
    &&& s[13] == ':'
    &&& s[16] == ':'
    &&& s[19] == '.'
    &&& s[23] == 'Z'
}

/// All that is not a separator is a digit.
pub open spec fn time_digits(s: Seq<char>) -> bool {
    &&& all_digits(s.subrange(0, 4))
    &&& all_digits(s.subrange(5, 7))
    &&& all_digits(s.subrange(8, 10))
    &&& all_digits(s.subrange(11, 13))
    &&& all_digits(s.subrange(14, 16))
    &&& all_digits(s.subrange(17, 19))
    &&& all_digits(s.subrange(20, 23))
}

/// The milliseconds that a text of the right shape stands for.
pub open spec fn text_value(s: Seq<char>) -> int {
    time_value(
        number(s.subrange(0, 4)),
        number(s.subrange(5, 7)),
        number(s.subrange(8, 10)),
        number(s.subrange(11, 13)),
        number(s.subrange(14, 16)),
        number(s.subrange(17, 19)),
        number(s.subrange(20, 23)),
    )
}

/// The parts name a moment of the calendar.
pub open spec fn time_valid(s: Seq<char>) -> bool {
    &&& valid_date(
        number(s.subrange(0, 4)),
        number(s.subrange(5, 7)),
        number(s.subrange(8, 10)),
    )
    &&& valid_clock(
        number(s.subrange(11, 13)),
        number(s.subrange(14, 16)),
        number(s.subrange(17, 19)),
    )
}

/// What `parse_time` answers.
pub open spec fn time_of(s: Seq<char>) -> Result<u64, Error> {
    if !time_shape(s) {
        Err(Error::Protocol("noncanonical time"))
    } else if !time_digits(s) || !time_valid(s) {
        Err(Error::Protocol("bad time"))
    } else if text_value(s) < 0 {
        Err(Error::Protocol("time before epoch"))
    } else {
        Ok(text_value(s) as u64)
    }
}

/// The last millisecond that has a year of four digits.
pub const LAST_FOUR_DIGIT_MS: u64 = 253_402_300_799_999;

proof fn four_digit_years(y: int, m: int, d: int)
    requires
        0 <= y <= 9999,
        valid_date(y, m, d),
    ensures
        day_number(y, m, d) <= 2_932_896,
        day_number(y, m, d) >= -719_528,
{
    date_in_year(y, m, d);
    years_ascend(y, 9999);
    years_ascend(0, y);
    year_length(9999);
    year_length(y);
    if y < 9999 {
        years_ascend(y + 1, 9999);
    }
}

/// The leap years before a year, counted with its own or up to the year before.
proof fn leap_count(y: int)
    ensures
        days_before_year(y) == 365 * y + (y - 1) / 4 - (y - 1) / 100 + (y - 1) / 400 + 1,
        days_before_year(y) + (if leap(y) {
            1int
        } else {
            0int
        }) == 365 * y + y / 4 - y / 100 + y / 400 + 1,
{
    ceiling(y, 4);
    ceiling(y, 100);
    ceiling(y, 400);
    assert(y % 400 == 0 ==> y % 100 == 0);
    assert(y % 100 == 0 ==> y % 4 == 0);
}

proof fn ceiling(y: int, n: int)
    requires
        n == 4 || n == 100 || n == 400,
    ensures
        (y + n - 1) / n == (y - 1) / n + 1,
        (y + n - 1) / n == if y % n == 0 {
            y / n
        } else {
            y / n + 1
        },
{
    if n == 4 {
        assert((y + 3) / 4 == (y - 1) / 4 + 1);
        assert((y + 3) / 4 == if y % 4 == 0 { y / 4 } else { y / 4 + 1 });
    } else if n == 100 {
        assert((y + 99) / 100 == (y - 1) / 100 + 1);
        assert((y + 99) / 100 == if y % 100 == 0 { y / 100 } else { y / 100 + 1 });
    } else {
        assert((y + 399) / 400 == (y - 1) / 400 + 1);
        assert((y + 399) / 400 == if y % 400 == 0 { y / 400 } else { y / 400 + 1 });
    }
}

/// The days up to the first of March of a year.
pub open spec fn march_days(y0: int) -> int {
    365 * y0 + y0 / 4 - y0 / 100 + y0 / 400
}

/// The number of a date by counting years from March, when the leap day comes last.
pub(crate) proof fn march_count(y: int, m: int, d: int)
    requires
        valid_date(y, m, d),
    ensures
        ({
            let y0 = if m <= 2 {
                y - 1
            } else {
                y
            };
            let mp = if m > 2 {
                m - 3
            } else {
                m + 9
            };
            day_number(y, m, d) == march_days(y0) + (153 * mp + 2) / 5 + d - 1 - 719468
        }),
{
    year_length(y);
    leap_count(y);
    assert(days_before_year(1970) == 719528);
    assert(days_before_month(y, 1) == 0);
    if m == 1 {
        assert((153 * (m + 9) + 2) / 5 == 306);
    } else if m == 2 {
        assert((153 * (m + 9) + 2) / 5 == 337);
    }
}

/// Counting by eras of 400 years.
proof fn era_count(era: int, yoe: int)
    requires
        0 <= yoe < 400,
    ensures
        march_days(era * 400 + yoe) == era * 146097 + yoe * 365 + yoe / 4 - yoe / 100,
{
    let y = era * 400 + yoe;
    assert(y / 4 == era * 100 + yoe / 4);
    assert(y / 100 == era * 4 + yoe / 100);
    assert(y / 400 == era);
}

/// The days since the epoch of a date of a four-digit year, shifted so that none is negative.
fn shifted_days(y: u64, m: u64, d: u64) -> (r: u64)
    requires
        y <= 9999,
        valid_date(y as int, m as int, d as int),
        !(y == 0 && m <= 2),
    ensures
        r == day_number(y as int, m as int, d as int) + 719468,
        r < 4_000_000,
{
    let y0: u64 = if m <= 2 {
        y - 1
    } else {
        y
    };
    let era: u64 = y0 / 400;
    let yoe: u64 = y0 - era * 400;
    let mp: u64 = if m > 2 {
        m - 3
    } else {
        m + 9
    };
    let doy: u64 = (153 * mp + 2) / 5 + d - 1;
    let doe: u64 = yoe * 365 + yoe / 4 - yoe / 100 + doy;
    proof {
        march_count(y as int, m as int, d as int);
        era_count(era as int, yoe as int);
        assert(y0 == era * 400 + yoe);
    }
    era * 146097 + doe
}

/// Reads a time. Every time has one text only.
pub fn parse_time(s: &str) -> (r: Result<u64, Error>)
    ensures
        r == time_of(s@),
{
    let b = chars_of(s);
    if b.len() != 24 {
        return Err(Error::Protocol("noncanonical time"));
    }
    let mut i: usize = 0;
    while i < 24
        invariant
            i <= 24,
            b@ == s@,
            b@.len() == 24,
            forall|j: int| 0 <= j < i ==> (#[trigger] b@[j] as int) < 128,
        decreases 24 - i,
    {
        if code_point(b[i]) >= 128 {
            return Err(Error::Protocol("noncanonical time"));
        }
        i += 1;
    }
    if b[4] != '-' || b[7] != '-' || b[10] != 'T' || b[13] != ':' || b[16] != ':' || b[19] != '.'
        || b[23] != 'Z' {
        return Err(Error::Protocol("noncanonical time"));
    }
    let cs = b.as_slice();
    let parts = (
        digits_at(cs, 0, 4),
        digits_at(cs, 5, 7),
        digits_at(cs, 8, 10),
        digits_at(cs, 11, 13),
        digits_at(cs, 14, 16),
        digits_at(cs, 17, 19),
        digits_at(cs, 20, 23),
    );
    let (y, m, d, hh, mm, ss, ms): (u64, u64, u64, u64, u64, u64, u64) = match parts {
        (Some(y), Some(m), Some(d), Some(hh), Some(mm), Some(ss), Some(ms)) => (
            y,
            m,
            d,
            hh,
            mm,
            ss,
            ms,
        ),
        _ => {
            return Err(Error::Protocol("bad time"));
        },
    };
    proof {
        reveal_with_fuel(ten_to, 5);
        number_bound(s@.subrange(0, 4));
        number_bound(s@.subrange(5, 7));
        number_bound(s@.subrange(8, 10));
        number_bound(s@.subrange(11, 13));
        number_bound(s@.subrange(14, 16));
        number_bound(s@.subrange(17, 19));
        number_bound(s@.subrange(20, 23));
    }
    let is_leap = y % 4 == 0 && (y % 100 != 0 || y % 400 == 0);
    let max_day: u64 = if m == 2 {
        if is_leap {
            29
        } else {
            28
        }
    } else if m == 4 || m == 6 || m == 9 || m == 11 {
        30
    } else if 1 <= m && m <= 12 {
        31
    } else {
        0
    };
    if d < 1 || d > max_day || hh > 23 || mm > 59 || ss > 59 {
        return Err(Error::Protocol("bad time"));
    }
    proof {
        four_digit_years(y as int, m as int, d as int);
    }
    if y == 0 && m <= 2 {
        // A count of years from March would start before the year 0.
        proof {
            date_in_year(0, m as int, d as int);
            year_length(0);
        }
        return Err(Error::Protocol("time before epoch"));
    }
    let since = shifted_days(y, m, d);
    let of_day: u64 = (hh * 3600 + mm * 60 + ss) * 1000 + ms;
    if since < 719468 {
        assert(of_day < 86_400_000);
        assert(text_value(s@) == (since - 719468) * 86_400_000 + of_day);
        assert(text_value(s@) < 0);
        return Err(Error::Protocol("time before epoch"));
    }
    let days: u64 = since - 719468;
    Ok(days * 86_400_000 + of_day)
}

/// A date and time whose text is that of a moment.
pub open spec fn shows(
    ms: int,
    t: Seq<char>,
    y: nat,
    m: nat,
    d: nat,
) -> bool {
    let rem = ms % 86_400_000;
    &&& valid_date(y as int, m as int, d as int)
    &&& day_number(y as int, m as int, d as int) == ms / 86_400_000
    &&& t == time_text(
        y,
        m,
        d,
        (rem / 3_600_000) as nat,
        ((rem / 60_000) % 60) as nat,
        ((rem / 1000) % 60) as nat,
        (rem % 1000) as nat,
    )
}

/// The date so many days after the first of January 1970.
fn date_of_days(days: u64) -> (r: (u64, u64, u64))
    requires
        days <= 300_000_000_000,
    ensures
        valid_date(r.0 as int, r.1 as int, r.2 as int),
        day_number(r.0 as int, r.1 as int, r.2 as int) == days,
{
    let z: u64 = days + 719468;
    let era: u64 = z / 146097;
    let doe: u64 = z - era * 146097;
    let yoe: u64 = (doe - doe / 1460 + doe / 36524 - doe / 146096) / 365;
    proof {
        year_of_era(doe as int);
    }
    let doy: u64 = doe - (365 * yoe + yoe / 4 - yoe / 100);
    let mp: u64 = (5 * doy + 2) / 153;
    let d: u64 = doy - (153 * mp + 2) / 5 + 1;
    let m: u64 = if mp < 10 {
        mp + 3
    } else {
        mp - 9
    };
    let y: u64 = if m <= 2 {
        yoe + era * 400 + 1
    } else {
        yoe + era * 400
    };
    proof {
        march_date(era as int, yoe as int, doy as int);
        march_count(y as int, m as int, d as int);
        era_count(era as int, yoe as int);
    }
    (y, m, d)
}

/// Writes a time.
pub fn format_time(ms: u64) -> (r: String)
    ensures
        exists|y: nat, m: nat, d: nat| shows(ms as int, r@, y, m, d),
{
    let (y, m, d) = date_of_days(ms / 86_400_000);
    let rem: u64 = ms % 86_400_000;
    let sec: u64 = rem / 1000;
    let mut out = String::new();
    push_padded(&mut out, y, 4);
    push_char(&mut out, '-');
    push_padded(&mut out, m, 2);
    push_char(&mut out, '-');
    push_padded(&mut out, d, 2);
    push_char(&mut out, 'T');
    push_padded(&mut out, sec / 3600, 2);
    push_char(&mut out, ':');
    push_padded(&mut out, (sec / 60) % 60, 2);
    push_char(&mut out, ':');
    push_padded(&mut out, sec % 60, 2);
    push_char(&mut out, '.');
    push_padded(&mut out, rem % 1000, 3);
    push_char(&mut out, 'Z');
    proof {
        assert(sec as int / 3600 == rem as int / 3_600_000);
        assert(sec as int / 60 == rem as int / 60_000);
        assert(out@ =~= time_text(
            y as nat,
            m as nat,
            d as nat,
            (sec / 3600) as nat,
            ((sec / 60) % 60) as nat,
            (sec % 60) as nat,
            (rem % 1000) as nat,
        ));
        assert(shows(ms as int, out@, y as nat, m as nat, d as nat));
    }
    out
}

/// The year of a 400-year era that a day falls in, by the number of days before it.
proof fn year_of_era(doe: int)
    requires
        0 <= doe < 146097,
    ensures
        ({
            let yoe = (doe - doe / 1460 + doe / 36524 - doe / 146096) / 365;
            let doy = doe - (365 * yoe + yoe / 4 - yoe / 100);
            &&& 0 <= yoe < 400
            &&& 0 <= doy <= 365
            &&& doy == 365 ==> (yoe + 1) % 4 == 0 && ((yoe + 1) % 100 != 0 || yoe == 399)
        }),
{
}

/// A day of a year that begins in March is a date.
proof fn march_date(era: int, yoe: int, doy: int)
    requires
        era >= 0,
        0 <= yoe < 400,
        0 <= doy <= 365,
        doy == 365 ==> (yoe + 1) % 4 == 0 && ((yoe + 1) % 100 != 0 || yoe == 399),
    ensures
        ({
            let mp = (5 * doy + 2) / 153;
            let d = doy - (153 * mp + 2) / 5 + 1;
            let m = if mp < 10 {
                mp + 3
            } else {
                mp - 9
            };
            let y = if m <= 2 {
                yoe + era * 400 + 1
            } else {
                yoe + era * 400
            };
            valid_date(y, m, d)
        }),
{
}

/// The parts of a text with a year of four digits stand where they are looked for.
proof fn text_parts(y: nat, m: nat, d: nat, hh: nat, mm: nat, ss: nat, ms: nat)
    requires
        y < 10000,
        m < 100,
        d < 100,
        hh < 100,
        mm < 100,
        ss < 100,
        ms < 1000,
    ensures
        ({
            let t = time_text(y, m, d, hh, mm, ss, ms);
            &&& time_shape(t)
            &&& t.subrange(0, 4) == padded(y, 4)
            &&& t.subrange(5, 7) == padded(m, 2)
            &&& t.subrange(8, 10) == padded(d, 2)
            &&& t.subrange(11, 13) == padded(hh, 2)
            &&& t.subrange(14, 16) == padded(mm, 2)
            &&& t.subrange(17, 19) == padded(ss, 2)
            &&& t.subrange(20, 23) == padded(ms, 3)
        }),
{
    reveal_with_fuel(ten_to, 5);
    padded_fits(y, 4, 10000);
    padded_fits(m, 2, 100);
    padded_fits(d, 2, 100);
    padded_fits(hh, 2, 100);
    padded_fits(mm, 2, 100);
    padded_fits(ss, 2, 100);
    padded_fits(ms, 3, 1000);
    number_of_padded(y, 4);
    number_of_padded(m, 2);
    number_of_padded(d, 2);
    number_of_padded(hh, 2);
    number_of_padded(mm, 2);
    number_of_padded(ss, 2);
    number_of_padded(ms, 3);
    let t = time_text(y, m, d, hh, mm, ss, ms);
    assert(t.len() == 24);
    assert(t.subrange(0, 4) =~= padded(y, 4));
    assert(t.subrange(5, 7) =~= padded(m, 2));
    assert(t.subrange(8, 10) =~= padded(d, 2));
    assert(t.subrange(11, 13) =~= padded(hh, 2));
    assert(t.subrange(14, 16) =~= padded(mm, 2));
    assert(t.subrange(17, 19) =~= padded(ss, 2));
    assert(t.subrange(20, 23) =~= padded(ms, 3));
    assert(t[4] == '-' && t[7] == '-' && t[10] == 'T' && t[13] == ':' && t[16] == ':' && t[19]
        == '.' && t[23] == 'Z');
    assert forall|i: int| 0 <= i < 24 implies (#[trigger] t[i] as int) < 128 by {
        if 0 <= i < 4 {
            assert(t[i] == padded(y, 4)[i]);
        } else if 5 <= i < 7 {
            assert(t[i] == padded(m, 2)[i - 5]);
        } else if 8 <= i < 10 {
            assert(t[i] == padded(d, 2)[i - 8]);
        } else if 11 <= i < 13 {
            assert(t[i] == padded(hh, 2)[i - 11]);
        } else if 14 <= i < 16 {
            assert(t[i] == padded(mm, 2)[i - 14]);
        } else if 17 <= i < 19 {
            assert(t[i] == padded(ss, 2)[i - 17]);
        } else if 20 <= i < 23 {
            assert(t[i] == padded(ms, 3)[i - 20]);
        }
    }
}

proof fn year_has_four_digits(y: int, m: int, d: int)
    requires
        valid_date(y, m, d),
        0 <= y,
        day_number(y, m, d) <= 2_932_896,
    ensures
        y < 10000,
{
    if y >= 10000 {
        date_in_year(y, m, d);
        years_ascend(10000, y);
        assert(days_before_year(10000) - days_before_year(1970) == 2_932_897);
    }
}

/// A text of known parts reads as the value of those parts.
proof fn text_reads(y: nat, m: nat, d: nat, hh: nat, mm: nat, ss: nat, ms: nat)
    requires
        y < 10000,
        ms < 1000,
        valid_date(y as int, m as int, d as int),
        valid_clock(hh as int, mm as int, ss as int),
    ensures
        ({
            let t = time_text(y, m, d, hh, mm, ss, ms);
            let v = time_value(
                y as int,
                m as int,
                d as int,
                hh as int,
                mm as int,
                ss as int,
                ms as int,
            );
            v >= 0 ==> time_of(t) == Ok::<u64, Error>(v as u64)
        }),
{
    text_parts(y, m, d, hh, mm, ss, ms);
    number_of_padded(y, 4);
    number_of_padded(m, 2);
    number_of_padded(d, 2);
    number_of_padded(hh, 2);
    number_of_padded(mm, 2);
    number_of_padded(ss, 2);
    number_of_padded(ms, 3);
}

/// Days and the parts of a time of day add up to the moment.
proof fn parts_add_up(ms: int, days: int)
    requires
        0 <= ms,
        days == ms / 86_400_000,
    ensures
        ({
            let rem = ms % 86_400_000;
            (days * 86400 + (rem / 3_600_000) * 3600 + ((rem / 60_000) % 60) * 60 + (rem / 1000)
                % 60) * 1000 + rem % 1000 == ms
        }),
{
    clock_parts(ms % 86_400_000);
}

proof fn round_trip_of_date(ms: u64, y: nat, m: nat, d: nat)
    requires
        ms <= LAST_FOUR_DIGIT_MS,
        valid_date(y as int, m as int, d as int),
        day_number(y as int, m as int, d as int) == ms as int / 86_400_000,
    ensures
        ({
            let rem = ms as int % 86_400_000;
            time_of(
                time_text(
                    y,
                    m,
                    d,
                    (rem / 3_600_000) as nat,
                    ((rem / 60_000) % 60) as nat,
                    ((rem / 1000) % 60) as nat,
                    (rem % 1000) as nat,
                ),
            ) == Ok::<u64, Error>(ms)
        }),
{
    let days = day_number(y as int, m as int, d as int);
    let rem = ms as int % 86_400_000;
    clock_parts(rem);
    parts_add_up(ms as int, days);
    year_has_four_digits(y as int, m as int, d as int);
    text_reads(
        y,
        m,
        d,
        (rem / 3_600_000) as nat,
        ((rem / 60_000) % 60) as nat,
        ((rem / 1000) % 60) as nat,
        (rem % 1000) as nat,
    );
}

/// Reading the text of a moment gives the moment, as long as its year has four digits.
pub proof fn time_round_trip(ms: u64, t: Seq<char>)
    requires
        ms <= LAST_FOUR_DIGIT_MS,
        exists|y: nat, m: nat, d: nat| shows(ms as int, t, y, m, d),
    ensures
        time_of(t) == Ok::<u64, Error>(ms),
{
    let (y, m, d) = choose|y: nat, m: nat, d: nat| shows(ms as int, t, y, m, d);
    round_trip_of_date(ms, y, m, d);
}

/// The parts of a time of day add up to it.
proof fn clock_parts(rem: int)
    requires
        0 <= rem < 86_400_000,
    ensures
        valid_clock(rem / 3_600_000, (rem / 60_000) % 60, (rem / 1000) % 60),
        ((rem / 3_600_000) * 3600 + ((rem / 60_000) % 60) * 60 + (rem / 1000) % 60) * 1000 + rem
            % 1000 == rem,
{
    let sec = rem / 1000;
    assert(rem / 60_000 == sec / 60);
    assert(rem / 3_600_000 == sec / 3600);
    assert(sec / 3600 == (sec / 60) / 60);
}

/// A text that reads as a moment is the text of that moment.
pub proof fn time_text_unique(s: Seq<char>, t: Seq<char>)
    requires
        time_of(s) is Ok,
        exists|y: nat, m: nat, d: nat| shows(time_of(s)->Ok_0 as int, t, y, m, d),
    ensures
        s == t,
{
    let ms = text_value(s);
    let (y, m, d) = choose|y: nat, m: nat, d: nat| shows(time_of(s)->Ok_0 as int, t, y, m, d);
    reveal_with_fuel(ten_to, 5);
    number_bound(s.subrange(0, 4));
    number_bound(s.subrange(5, 7));
    number_bound(s.subrange(8, 10));
    number_bound(s.subrange(11, 13));
    number_bound(s.subrange(14, 16));
    number_bound(s.subrange(17, 19));
    number_bound(s.subrange(20, 23));
    let sy = number(s.subrange(0, 4));
    let sm = number(s.subrange(5, 7));
    let sd = number(s.subrange(8, 10));
    let sh = number(s.subrange(11, 13));
    let smin = number(s.subrange(14, 16));
    let ss = number(s.subrange(17, 19));
    let sms = number(s.subrange(20, 23));
    four_digit_years(sy, sm, sd);
    let of_day = (sh * 3600 + smin * 60 + ss) * 1000 + sms;
    assert(0 <= of_day < 86_400_000);
    let days = day_number(sy, sm, sd);
    assert(ms == days * 86_400_000 + of_day);
    assert(ms / 86_400_000 == days && ms % 86_400_000 == of_day);
    dates_differ(sy, sm, sd, y as int, m as int, d as int);
    clock_parts(of_day);
    clock_unique(of_day, sh, smin, ss, sms);
    padded_of_number(s.subrange(0, 4));
    padded_of_number(s.subrange(5, 7));
    padded_of_number(s.subrange(8, 10));
    padded_of_number(s.subrange(11, 13));
    padded_of_number(s.subrange(14, 16));
    padded_of_number(s.subrange(17, 19));
    padded_of_number(s.subrange(20, 23));
    assert(s =~= s.subrange(0, 4) + seq!['-'] + s.subrange(5, 7) + seq!['-'] + s.subrange(8, 10)
        + seq!['T'] + s.subrange(11, 13) + seq![':'] + s.subrange(14, 16) + seq![':'] + s.subrange(
        17,
        19,
    ) + seq!['.'] + s.subrange(20, 23) + seq!['Z']);
}

proof fn clock_unique(rem: int, hh: int, mm: int, ss: int, ms: int)
    requires
        valid_clock(hh, mm, ss),
        0 <= ms < 1000,
        rem == (hh * 3600 + mm * 60 + ss) * 1000 + ms,
    ensures
        rem / 3_600_000 == hh,
        (rem / 60_000) % 60 == mm,
        (rem / 1000) % 60 == ss,
        rem % 1000 == ms,
{
    let sec = hh * 3600 + mm * 60 + ss;
    assert(rem / 1000 == sec);
    assert(rem / 60_000 == hh * 60 + mm);
}

/// Times that can be read lie before the year 10000.
pub proof fn parsed_times_are_small(s: Seq<char>)
    ensures
        time_of(s) matches Ok(ms) ==> ms <= LAST_FOUR_DIGIT_MS,
{
    if time_of(s) is Ok {
        reveal_with_fuel(ten_to, 5);
        number_bound(s.subrange(0, 4));
        number_bound(s.subrange(11, 13));
        number_bound(s.subrange(14, 16));
        number_bound(s.subrange(17, 19));
        number_bound(s.subrange(20, 23));
        four_digit_years(
            number(s.subrange(0, 4)),
            number(s.subrange(5, 7)),
            number(s.subrange(8, 10)),
        );
    }
}

/// Days are counted one after the other from the first of January 1970: from one day of a month to the
/// next, from the last of a month to the first of the next, and from one year to the next. A year has
/// a leap day where it is divisible by four, but of whole centuries only every fourth has one.
pub proof fn days_follow_each_other(y: int, m: int, d: int)
    requires
        1 <= m <= 12,
    ensures
        day_number(1970, 1, 1) == 0,
        day_number(y, m, d + 1) == day_number(y, m, d) + 1,
        m < 12 ==> day_number(y, m + 1, 1) == day_number(y, m, month_days(y, m)) + 1,
        day_number(y + 1, 1, 1) == day_number(y, 12, 31) + 1,
        month_days(y, m) == if m == 2 {
            if (y % 4 == 0 && y % 100 != 0) || y % 400 == 0 {
                29int
            } else {
                28
            }
        } else if m == 4 || m == 6 || m == 9 || m == 11 {
            30
        } else {
            31
        },
{
    reveal_with_fuel(days_before_month, 14);
    year_length(y);
}

/// A time is written as year, month and day, hour, minute and second, and thousandths, and its value
/// counts the thousandths of a second since the first day.
pub proof fn times_count_milliseconds(s: Seq<char>)
    requires
        time_of(s) is Ok,
    ensures
        ({
            let days = day_number(
                number(s.subrange(0, 4)),
                number(s.subrange(5, 7)),
                number(s.subrange(8, 10)),
            );
            time_of(s)->Ok_0 == days * 86_400_000 + number(s.subrange(11, 13)) * 3_600_000 + number(
                s.subrange(14, 16),
            ) * 60_000 + number(s.subrange(17, 19)) * 1000 + number(s.subrange(20, 23))
        }),
{
    parsed_times_are_small(s);
    reveal_with_fuel(ten_to, 5);
    number_bound(s.subrange(0, 4));
    number_bound(s.subrange(11, 13));
    number_bound(s.subrange(14, 16));
    number_bound(s.subrange(17, 19));
    number_bound(s.subrange(20, 23));
    four_digit_years(
        number(s.subrange(0, 4)),
        number(s.subrange(5, 7)),
        number(s.subrange(8, 10)),
    );
}

} // verus!
