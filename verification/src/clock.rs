//! Dates and durations.

use vstd::prelude::*;

use crate::number;
use crate::split;
use crate::text;

verus! {

// ---------------------------------------------------------------------------
// The Gregorian calendar

/// The year is a leap year.
pub open spec fn is_leap(y: int) -> bool {
    y % 4 == 0 && (y % 100 != 0 || y % 400 == 0)
}

/// The days of a year.
pub open spec fn year_len(y: int) -> int {
    if is_leap(y) {
        366
    } else {
        365
    }
}

/// The days of a month.
pub open spec fn month_len(y: int, m: int) -> int {
    if m == 2 {
        if is_leap(y) {
            29
        } else {
            28
        }
    } else if m == 4 || m == 6 || m == 9 || m == 11 {
        30
    } else {
        31
    }
}

/// The day, counted from 1970-01-01, on which a year starts.
pub open spec fn year_start(y: int) -> int
    decreases (if y >= 1970 { y - 1970 } else { 1970 - y }),
{
    if y == 1970 {
        0
    } else if y > 1970 {
        year_start(y - 1) + year_len(y - 1)
    } else {
        year_start(y + 1) - year_len(y)
    }
}

/// The days of a year before a month.
pub open spec fn month_start(y: int, m: int) -> int
    decreases m,
{
    if m <= 1 {
        0
    } else {
        month_start(y, m - 1) + month_len(y, m - 1)
    }
}

/// Year, month and day name a day.
pub open spec fn is_date(y: int, m: int, d: int) -> bool {
    1 <= m <= 12 && 1 <= d <= month_len(y, m)
}

/// The day, counted from 1970-01-01, that a date names.
pub open spec fn day_number(y: int, m: int, d: int) -> int {
    year_start(y) + month_start(y, m) + d - 1
}

/// Leap years before year `y`, counted from year 0.
spec fn leaps(y: int) -> int {
    (y + 3) / 4 - (y + 99) / 100 + (y + 399) / 400
}

proof fn lemma_leaps_step(y: int)
    ensures
        leaps(y + 1) == leaps(y) + (if is_leap(y) {
            1int
        } else {
            0
        }),
{
    lemma_floor_step(y, 4);
    lemma_floor_step(y, 100);
    lemma_floor_step(y, 400);
    assert(y % 100 == 0 ==> y % 4 == 0);
    assert(y % 400 == 0 ==> y % 100 == 0);
}

/// Counting up, the quotient that is rounded up grows behind every multiple.
proof fn lemma_floor_step(y: int, n: int)
    requires
        n == 4 || n == 100 || n == 400,
    ensures
        (y + n) / n == (y + n - 1) / n + (if y % n == 0 {
            1int
        } else {
            0
        }),
{
    if n == 4 {
        assert((y + 4) / 4 == (y + 3) / 4 + (if y % 4 == 0 {
            1int
        } else {
            0
        }));
    } else if n == 100 {
        assert((y + 100) / 100 == (y + 99) / 100 + (if y % 100 == 0 {
            1int
        } else {
            0
        }));
    } else {
        assert((y + 400) / 400 == (y + 399) / 400 + (if y % 400 == 0 {
            1int
        } else {
            0
        }));
    }
}

proof fn lemma_year_start(y: int)
    ensures
        year_start(y) == 365 * (y - 1970) + leaps(y) - leaps(1970),
    decreases (if y >= 1970 { y - 1970 } else { 1970 - y }),
{
    if y > 1970 {
        lemma_year_start(y - 1);
        lemma_leaps_step(y - 1);
    } else if y < 1970 {
        lemma_year_start(y + 1);
        lemma_leaps_step(y);
    }
}

/// Days of a 400 year cycle before its year `y`, where years start in March.
spec fn cycle_start(y: int) -> int {
    365 * y + y / 4 - y / 100
}

/// The year of a day of the cycle is found by a division that leaves out the leap days.
proof fn lemma_year_of_cycle(doe: int, yoe: int)
    requires
        0 <= doe < 146097,
        yoe == (doe - doe / 1460 + doe / 36524 - doe / 146096) / 365,
    ensures
        0 <= yoe < 400,
        cycle_start(yoe) <= doe,
        doe < cycle_start(yoe + 1) + (if yoe == 399 {
            1int
        } else {
            0
        }),
{
    let c = if doe == 146096 {
        3
    } else {
        doe / 36524
    };
    let w = doe - 36524 * c;
    let a = w / 1461;
    let v = w - 1461 * a;
    let b = if v == 1460 {
        3
    } else {
        v / 365
    };
    let t = v - 365 * b;
    let y = 100 * c + 4 * a + b;
    assert(0 <= c < 4 && 0 <= w <= 36524);
    assert(0 <= a < 25 && 0 <= v <= 1460);
    assert(0 <= b < 4 && 0 <= t <= 365);
    assert(t == 365 ==> b == 3);
    let u = 24 * c + a + 365 * b + t;
    assert(doe == 1460 * (25 * c + a) + u);
    assert(0 <= u < 2920);
    let q = if u >= 1460 {
        1int
    } else {
        0
    };
    assert(doe / 1460 == 25 * c + a + q);
    assert(doe / 36524 - doe / 146096 == c);
    assert(doe - doe / 1460 + doe / 36524 - doe / 146096 == 365 * y + (t - q));
    assert(0 <= t - q < 365);
    assert(yoe == y);
    assert(y / 4 == 25 * c + a);
    assert(y / 100 == c);
    assert((y + 1) / 4 == 25 * c + a + (if b == 3 {
        1int
    } else {
        0
    }));
    assert((y + 1) / 100 == c + (if a == 24 && b == 3 {
        1int
    } else {
        0
    }));
}

/// The days of a year that starts in March before its month `mp`, counted from March as 0.
spec fn march_start(mp: int) -> int {
    (153 * mp + 2) / 5
}

/// Dates, seen from a year that starts in March.
proof fn lemma_from_march(yy: int, mp: int, d: int)
    requires
        0 <= mp < 12,
    ensures
        ({
            let m = if mp < 10 {
                mp + 3
            } else {
                mp - 9
            };
            let y = if m <= 2 {
                yy + 1
            } else {
                yy
            };
            day_number(y, m, d) == year_start(yy) + 59 + (if is_leap(yy) {
                1int
            } else {
                0
            }) + march_start(mp) + d - 1
        }),
{
    reveal_with_fuel(month_start, 13);
    assert(year_start(yy + 1) == year_start(yy) + year_len(yy)) by {
        if yy + 1 <= 1970 {
        } else {
        }
    }
    assert(mp == 0 || mp == 1 || mp == 2 || mp == 3 || mp == 4 || mp == 5 || mp == 6 || mp == 7
        || mp == 8 || mp == 9 || mp == 10 || mp == 11);
}

/// The month and the day of a day of a year that starts in March.
proof fn lemma_month_of_year(doy: int, mp: int)
    requires
        0 <= doy <= 365,
        mp == (5 * doy + 2) / 153,
    ensures
        0 <= mp < 12,
        march_start(mp) <= doy,
        mp < 11 ==> doy < march_start(mp + 1),
{
}

/// The lengths of the months, counted from March.
proof fn lemma_march_lens(y: int, mp: int)
    requires
        0 <= mp < 11,
    ensures
        march_start(mp + 1) - march_start(mp) == month_len(
            y,
            if mp < 10 {
                mp + 3
            } else {
                mp - 9
            },
        ),
{
    assert(mp == 0 || mp == 1 || mp == 2 || mp == 3 || mp == 4 || mp == 5 || mp == 6 || mp == 7
        || mp == 8 || mp == 9 || mp == 10);
}

/// The start of a year, counted in cycles of 400 years.
proof fn lemma_cycle(yoe: int, era: int)
    requires
        0 <= yoe < 400,
    ensures
        year_start(yoe + era * 400) + 59 + (if is_leap(yoe + era * 400) {
            1int
        } else {
            0
        }) == era * 146097 + cycle_start(yoe) - 719468,
{
    let yy = yoe + era * 400;
    lemma_year_start(yy);
    lemma_leaps_step(yy);
    assert((yy + 4) / 4 == yoe / 4 + 100 * era + 1);
    assert((yy + 100) / 100 == yoe / 100 + 4 * era + 1);
    assert((yy + 400) / 400 == era + 1);
}

/// What the date of day `doe` of cycle `era` is.
proof fn lemma_civil(era: int, doe: int, yoe: int, doy: int, mp: int)
    requires
        0 <= doe < 146097,
        yoe == (doe - doe / 1460 + doe / 36524 - doe / 146096) / 365,
        doy == doe - cycle_start(yoe),
        mp == (5 * doy + 2) / 153,
    ensures
        0 <= yoe < 400,
        0 <= doy <= 365,
        0 <= mp < 12,
        ({
            let d = doy - march_start(mp) + 1;
            let m = if mp < 10 {
                mp + 3
            } else {
                mp - 9
            };
            let y = yoe + era * 400 + if m <= 2 {
                1int
            } else {
                0
            };
            is_date(y, m, d) && day_number(y, m, d) == era * 146097 + doe - 719468
        }),
{
    lemma_year_of_cycle(doe, yoe);
    assert(cycle_start(yoe + 1) - cycle_start(yoe) <= 366);
    assert(0 <= doy <= 365) by {
        lemma_last_day(yoe, era);
    }
    lemma_month_of_year(doy, mp);
    let yy = yoe + era * 400;
    let d = doy - march_start(mp) + 1;
    lemma_from_march(yy, mp, d);
    lemma_cycle(yoe, era);
    if mp < 11 {
        lemma_march_lens(yy + if mp < 10 {
            0int
        } else {
            1
        }, mp);
    } else {
        lemma_last_day(yoe, era);
        assert(march_start(11) == 337);
        assert(doy == 365 ==> is_leap(yy + 1));
    }
}

/// Year, month and day of a day that is counted from 1970-01-01.
pub fn civil_from_days(z: i64) -> (r: (i64, u32, u32))
    requires
        z + 719_468 <= i64::MAX,
    ensures
        is_date(r.0 as int, r.1 as int, r.2 as int),
        day_number(r.0 as int, r.1 as int, r.2 as int) == z,
{
    let z: i64 = z + 719_468;
    let era: i64 = if z >= 0 {
        z / 146_097
    } else {
        -((-(z + 1)) / 146_097) - 1
    };
    let doe: i64 = z - era * 146_097;
    let yoe: i64 = (doe - doe / 1460 + doe / 36_524 - doe / 146_096) / 365;
    proof {
        lemma_year_of_cycle(doe as int, yoe as int);
    }
    let doy: i64 = doe - (365 * yoe + yoe / 4 - yoe / 100);
    proof {
        lemma_civil(era as int, doe as int, yoe as int, doy as int, (5 * doy as int + 2) / 153);
    }
    let mp: i64 = (5 * doy + 2) / 153;
    let d: i64 = doy - (153 * mp + 2) / 5 + 1;
    let m: i64 = if mp < 10 {
        mp + 3
    } else {
        mp - 9
    };
    let yy: i64 = yoe + era * 400;
    let y: i64 = if m <= 2 {
        yy + 1
    } else {
        yy
    };
    (y, m as u32, d as u32)
}

/// A year that starts in March has a 366th day only where the next calendar year is a leap year.
proof fn lemma_last_day(yoe: int, era: int)
    requires
        0 <= yoe < 400,
    ensures
        is_leap(yoe + era * 400 + 1) <==> (cycle_start(yoe + 1) + (if yoe == 399 {
            1int
        } else {
            0
        }) - cycle_start(yoe) == 366),
{
}

proof fn lemma_month_fits(y: int, m: int)
    requires
        1 <= m <= 12,
    ensures
        0 <= month_start(y, m),
        month_start(y, m) + month_len(y, m) <= year_len(y),
{
    reveal_with_fuel(month_start, 13);
    assert(m == 1 || m == 2 || m == 3 || m == 4 || m == 5 || m == 6 || m == 7 || m == 8 || m == 9
        || m == 10 || m == 11 || m == 12);
}

proof fn lemma_months_grow(y: int, a: int, b: int)
    requires
        1 <= a < b <= 12,
    ensures
        month_start(y, a) + month_len(y, a) <= month_start(y, b),
    decreases b - a,
{
    if a + 1 < b {
        lemma_months_grow(y, a, b - 1);
    }
}

proof fn lemma_years_grow(a: int, b: int)
    requires
        a < b,
    ensures
        year_start(a) + year_len(a) <= year_start(b),
    decreases b - a,
{
    assert(year_start(b) == year_start(b - 1) + year_len(b - 1));
    if a < b - 1 {
        lemma_years_grow(a, b - 1);
    }
}

proof fn lemma_later(y1: int, m1: int, d1: int, y2: int, m2: int, d2: int)
    requires
        is_date(y1, m1, d1),
        is_date(y2, m2, d2),
        y1 < y2 || (y1 == y2 && m1 < m2),
    ensures
        day_number(y1, m1, d1) < day_number(y2, m2, d2),
{
    lemma_month_fits(y1, m1);
    lemma_month_fits(y2, m2);
    if y1 < y2 {
        lemma_years_grow(y1, y2);
    } else {
        lemma_months_grow(y1, m1, m2);
    }
}

/// No two dates name the same day.
pub proof fn law_dates_are_distinct(y1: int, m1: int, d1: int, y2: int, m2: int, d2: int)
    requires
        is_date(y1, m1, d1),
        is_date(y2, m2, d2),
        day_number(y1, m1, d1) == day_number(y2, m2, d2),
    ensures
        y1 == y2 && m1 == m2 && d1 == d2,
{
    if y1 < y2 || (y1 == y2 && m1 < m2) {
        lemma_later(y1, m1, d1, y2, m2, d2);
    } else if y2 < y1 || (y1 == y2 && m2 < m1) {
        lemma_later(y2, m2, d2, y1, m1, d1);
    }
}

// ---------------------------------------------------------------------------
// Time stamps

/// The text `YYYY-MM-DD HH:MM:SS` of a date and a second of the day.
pub open spec fn stamp(y: nat, m: nat, d: nat, second: nat) -> Seq<char> {
    number::padded(y, 4) + "-"@ + number::padded(m, 2) + "-"@ + number::padded(d, 2) + " "@
        + number::padded(second / 3600, 2) + ":"@ + number::padded((second % 3600) / 60, 2) + ":"@
        + number::padded(second % 60, 2)
}

/// The text is the time stamp of the date that the day of `secs` is.
pub open spec fn is_stamp(s: Seq<char>, secs: nat) -> bool {
    exists|y: nat, m: nat, d: nat|
        is_date(y as int, m as int, d as int) && day_number(y as int, m as int, d as int) == secs
            / 86400 && s == #[trigger] stamp(y, m, d, secs % 86400)
}

/// The time stamp, in UTC, of a number of seconds since 1970-01-01.
pub fn utc_timestamp(secs: u64) -> (r: String)
    ensures
        is_stamp(r@, secs as nat),
{
    let days: i64 = (secs / 86_400) as i64;
    let rem: u64 = secs % 86_400;
    let (y, m, d) = civil_from_days(days);
    proof {
        lemma_month_fits(y as int, m as int);
        if y < 1970 {
            lemma_years_grow(y as int, 1970);
        }
    }
    let mut out: String = number::padded_text(y as u64, 4);
    out.append("-");
    out.append(number::padded_text(m as u64, 2).as_str());
    out.append("-");
    out.append(number::padded_text(d as u64, 2).as_str());
    out.append(" ");
    out.append(number::padded_text(rem / 3600, 2).as_str());
    out.append(":");
    out.append(number::padded_text((rem % 3600) / 60, 2).as_str());
    out.append(":");
    out.append(number::padded_text(rem % 60, 2).as_str());
    assert(out@ == stamp(y as nat, m as nat, d as nat, (secs % 86400) as nat));
    out
}

/// A number of seconds has one time stamp.
pub proof fn law_stamp_is_unique(a: Seq<char>, b: Seq<char>, secs: nat)
    requires
        is_stamp(a, secs),
        is_stamp(b, secs),
    ensures
        a == b,
{
    let (y1, m1, d1) = choose|y: nat, m: nat, d: nat|
        is_date(y as int, m as int, d as int) && day_number(y as int, m as int, d as int) == secs
            / 86400 && a == #[trigger] stamp(y, m, d, secs % 86400);
    let (y2, m2, d2) = choose|y: nat, m: nat, d: nat|
        is_date(y as int, m as int, d as int) && day_number(y as int, m as int, d as int) == secs
            / 86400 && b == #[trigger] stamp(y, m, d, secs % 86400);
    law_dates_are_distinct(y1 as int, m1 as int, d1 as int, y2 as int, m2 as int, d2 as int);
}

// ---------------------------------------------------------------------------
// Durations

/// A number and its unit, where the number is not zero.
pub open spec fn unit_part(n: nat, unit: Seq<char>) -> Seq<Seq<char>> {
    if n > 0 {
        seq![number::decimal(n) + unit]
    } else {
        seq![]
    }
}

/// Days, hours, minutes and seconds, such as `1d 2h 3m 4s`. Zero parts are left out, but a
/// duration of zero is `0s`.
pub open spec fn duration_text(secs: nat) -> Seq<char> {
    let parts = unit_part(secs / 86400, "d"@) + unit_part((secs % 86400) / 3600, "h"@) + unit_part(
        (secs % 3600) / 60,
        "m"@,
    ) + unit_part(secs % 60, "s"@);
    if parts.len() == 0 {
        "0s"@
    } else {
        split::joined(parts, " "@)
    }
}

fn push_part(parts: &mut Vec<String>, n: u64, unit: &str)
    ensures
        text::texts(final(parts)@) == text::texts(old(parts)@) + unit_part(n as nat, unit@),
{
    let ghost done = parts@;
    if n > 0 {
        let mut part: String = number::decimal_text(n);
        part.append(unit);
        parts.push(part);
    }
    assert(text::texts(parts@) =~= text::texts(done) + unit_part(n as nat, unit@));
}

/// A duration, for reading.
pub fn human_duration(secs: u64) -> (r: String)
    ensures
        r@ == duration_text(secs as nat),
{
    let mut parts: Vec<String> = Vec::new();
    push_part(&mut parts, secs / 86_400, "d");
    push_part(&mut parts, (secs % 86_400) / 3600, "h");
    push_part(&mut parts, (secs % 3600) / 60, "m");
    push_part(&mut parts, secs % 60, "s");
    proof {
        assert(text::texts(parts@).len() == parts@.len());
        assert(text::texts(parts@) =~= unit_part((secs / 86_400) as nat, "d"@) + unit_part(
            ((secs % 86_400) / 3600) as nat,
            "h"@,
        ) + unit_part(((secs % 3600) / 60) as nat, "m"@) + unit_part((secs % 60) as nat, "s"@));
    }
    if parts.len() == 0 {
        return "0s".to_owned();
    }
    split::join(&parts, " ")
}

/// The parts of a duration add up to it, and no part is as great as one of the next unit.
pub proof fn law_duration_adds_up(secs: nat)
    ensures
        (secs / 86400) * 86400 + ((secs % 86400) / 3600) * 3600 + ((secs % 3600) / 60) * 60 + secs
            % 60 == secs,
        (secs % 86400) / 3600 < 24,
        (secs % 3600) / 60 < 60,
{
}

/// A time stamp reads `YYYY-MM-DD HH:MM:SS`, and its numbers are those of the date and of the time
/// of day.
pub proof fn law_stamp_reads_back(y: nat, m: nat, d: nat, second: nat)
    requires
        y <= 9999,
        m <= 12,
        d <= 31,
        second < 86400,
    ensures
        ({
            let s = stamp(y, m, d, second);
            &&& s.len() == 19
            &&& s[4] == '-' && s[7] == '-' && s[10] == ' ' && s[13] == ':' && s[16] == ':'
            &&& number::number(s.subrange(0, 4), 10, 9999) == Some(y)
            &&& number::number(s.subrange(5, 7), 10, 12) == Some(m)
            &&& number::number(s.subrange(8, 10), 10, 31) == Some(d)
            &&& number::number(s.subrange(11, 13), 10, 23) matches Some(hour)
                && number::number(s.subrange(14, 16), 10, 59) matches Some(minute)
                && number::number(s.subrange(17, 19), 10, 59) matches Some(sec) && hour * 3600
                + minute * 60 + sec == second
        }),
{
    let s = stamp(y, m, d, second);
    let a = number::padded(y, 4);
    let b = number::padded(m, 2);
    let c = number::padded(d, 2);
    let e = number::padded(second / 3600, 2);
    let f = number::padded((second % 3600) / 60, 2);
    let g = number::padded(second % 60, 2);
    reveal_strlit("-");
    reveal_strlit(" ");
    reveal_strlit(":");
    number::lemma_decimal_length(y);
    number::lemma_decimal_length(m);
    number::lemma_decimal_length(d);
    number::lemma_decimal_length(second / 3600);
    number::lemma_decimal_length((second % 3600) / 60);
    number::lemma_decimal_length(second % 60);
    number::law_padded_reads_back(y, 4, 9999);
    number::law_padded_reads_back(m, 2, 12);
    number::law_padded_reads_back(d, 2, 31);
    number::law_padded_reads_back(second / 3600, 2, 23);
    number::law_padded_reads_back((second % 3600) / 60, 2, 59);
    number::law_padded_reads_back(second % 60, 2, 59);
    assert(s.subrange(0, 4) =~= a);
    assert(s.subrange(5, 7) =~= b);
    assert(s.subrange(8, 10) =~= c);
    assert(s.subrange(11, 13) =~= e);
    assert(s.subrange(14, 16) =~= f);
    assert(s.subrange(17, 19) =~= g);
}

/// The seconds that a part of a duration stands for: a number and its unit.
pub open spec fn part_secs(part: Seq<char>) -> nat {
    let n = match number::number(part.drop_last(), 10, u64::MAX as nat) {
        Some(n) => n,
        None => 0,
    };
    if part.last() == 'd' {
        n * 86400
    } else if part.last() == 'h' {
        n * 3600
    } else if part.last() == 'm' {
        n * 60
    } else {
        n
    }
}

/// The seconds that the parts of a duration stand for.
pub open spec fn total_secs(parts: Seq<Seq<char>>) -> nat
    decreases parts.len(),
{
    if parts.len() == 0 {
        0
    } else {
        total_secs(parts.drop_last()) + part_secs(parts.last())
    }
}

/// A part of a duration is less than one of the next unit.
pub open spec fn is_reduced(part: Seq<char>) -> bool {
    &&& part.last() == 'h' ==> part_secs(part) < 86400
    &&& part.last() == 'm' ==> part_secs(part) < 3600
    &&& part.last() == 's' ==> part_secs(part) < 60
    &&& part.last() == 'd' || part.last() == 'h' || part.last() == 'm' || part.last() == 's'
}

proof fn lemma_unit_part(n: nat, unit: Seq<char>)
    requires
        n <= u64::MAX,
        unit.len() == 1,
        unit[0] != ' ',
    ensures
        total_secs(unit_part(n, unit)) == n * (if unit[0] == 'd' {
            86400nat
        } else if unit[0] == 'h' {
            3600
        } else if unit[0] == 'm' {
            60
        } else {
            1
        }),
        forall|i: int|
            0 <= i < unit_part(n, unit).len() ==> (#[trigger] unit_part(n, unit)[i]) == number::decimal(n)
                + unit && !unit_part(n, unit)[i].contains(' ') && unit_part(n, unit)[i].last()
                == unit[0] && part_secs(unit_part(n, unit)[i]) == total_secs(unit_part(n, unit)),
{
    let parts = unit_part(n, unit);
    if n > 0 {
        let part = number::decimal(n) + unit;
        assert(part.drop_last() =~= number::decimal(n));
        assert(part.last() == unit[0]);
        number::law_decimal_reads_back(n, u64::MAX as nat);
        assert(parts.drop_last() =~= seq![]);
        assert(total_secs(parts.drop_last()) == 0);
        assert(parts.last() == part);
        assert(total_secs(parts) == part_secs(part));
        number::lemma_decimal_chars(n);
        assert forall|k: int| 0 <= k < part.len() implies part[k] != ' ' by {
            if k < number::decimal(n).len() {
                assert(part[k] == number::decimal(n)[k]);
            }
        }
    } else {
        assert(total_secs(parts) == 0);
    }
}

proof fn lemma_total_joined(a: Seq<Seq<char>>, b: Seq<Seq<char>>)
    ensures
        total_secs(a + b) == total_secs(a) + total_secs(b),
    decreases b.len(),
{
    if b.len() == 0 {
        assert(a + b =~= a);
    } else {
        assert((a + b).drop_last() =~= a + b.drop_last());
        assert((a + b).last() == b.last());
        lemma_total_joined(a, b.drop_last());
    }
}

/// A duration is written as numbers with their units, which add up to it; no number is as great as
/// one of the next unit.
pub proof fn law_duration_reads_back(secs: nat)
    requires
        secs <= u64::MAX,
    ensures
        total_secs(split::split(duration_text(secs), " "@)) == secs,
        forall|i: int|
            0 <= i < split::split(duration_text(secs), " "@).len() ==> is_reduced(
                #[trigger] split::split(duration_text(secs), " "@)[i],
            ),
{
    let d = unit_part(secs / 86400, "d"@);
    let h = unit_part((secs % 86400) / 3600, "h"@);
    let m = unit_part((secs % 3600) / 60, "m"@);
    let s = unit_part(secs % 60, "s"@);
    let parts = d + h + m + s;
    reveal_strlit("d");
    reveal_strlit("h");
    reveal_strlit("m");
    reveal_strlit("s");
    reveal_strlit(" ");
    reveal_strlit("0s");
    lemma_unit_part(secs / 86400, "d"@);
    lemma_unit_part((secs % 86400) / 3600, "h"@);
    lemma_unit_part((secs % 3600) / 60, "m"@);
    lemma_unit_part(secs % 60, "s"@);
    lemma_total_joined(d, h);
    lemma_total_joined(d + h, m);
    lemma_total_joined(d + h + m, s);
    law_duration_adds_up(secs);
    if parts.len() == 0 {
        assert(total_secs(parts) == 0);
        let zero = seq!["0s"@];
        assert(!"0s"@.contains(' '));
        assert(split::joined(zero, " "@) == "0s"@);
        split::lemma_split_joined(zero, " "@);
        assert("0s"@.drop_last() =~= number::decimal(0));
        number::law_decimal_reads_back(0, u64::MAX as nat);
        assert(zero.drop_last() =~= seq![]);
        assert(total_secs(zero.drop_last()) == 0);
        assert(zero.last() == "0s"@);
        assert(total_secs(zero) == part_secs("0s"@));
    } else {
        assert forall|i: int| 0 <= i < parts.len() implies !(#[trigger] parts[i]).contains(' ')
            && is_reduced(parts[i]) by {
            if i < d.len() {
                assert(parts[i] == d[i]);
            } else if i < d.len() + h.len() {
                assert(parts[i] == h[i - d.len()]);
            } else if i < d.len() + h.len() + m.len() {
                assert(parts[i] == m[i - d.len() - h.len()]);
            } else {
                assert(parts[i] == s[i - d.len() - h.len() - m.len()]);
            }
        }
        split::lemma_split_joined(parts, " "@);
    }
}

/// The calendar: a day follows the day before it, a month starts the day after the last one of the
/// month before, a year the day after the 31st of December, and day 0 is the first of January 1970.
/// February has 29 days every fourth year, but not in a full century unless 400 divides it.
pub proof fn law_calendar(y: int, m: int, d: int)
    requires
        1 <= m <= 12,
    ensures
        day_number(1970, 1, 1) == 0,
        day_number(y, m, d + 1) == day_number(y, m, d) + 1,
        m < 12 ==> day_number(y, m + 1, 1) == day_number(y, m, month_len(y, m)) + 1,
        day_number(y + 1, 1, 1) == day_number(y, 12, 31) + 1,
        month_len(y, m) == (if m == 2 {
            if y % 400 == 0 || (y % 4 == 0 && y % 100 != 0) {
                29int
            } else {
                28int
            }
        } else if m == 4 || m == 6 || m == 9 || m == 11 {
            30int
        } else {
            31int
        }),
{
    reveal_with_fuel(month_start, 13);
    assert(year_start(y + 1) == year_start(y) + year_len(y));
}

}
