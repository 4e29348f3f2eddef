//! Calendar arithmetic and the `YYYY-MM-DD HH:MM` text form used by the
//! date and time picker.
use vstd::prelude::*;
use crate::text::{
    chars_of, format_padded, lemma_parse_padded, lemma_split_concat, lemma_split_no_sep,
    padded, parse_i32, parse_i32_spec, push_all, split_chars, split_on,
};

verus! {

/// Quotient of Rust's `/` on signed integers, which rounds toward zero.
pub open spec fn tdiv(a: int, b: int) -> int {
    if a >= 0 {
        a / b
    } else {
        -((-a) / b)
    }
}

/// Remainder of Rust's `%` on signed integers: it takes the sign of `a`.
pub open spec fn trem(a: int, b: int) -> int {
    a - b * tdiv(a, b)
}

pub open spec fn is_leap_year_spec(year: int) -> bool {
    (year % 4 == 0 && year % 100 != 0) || year % 400 == 0
}

/// Whether `year` is a leap year of the Gregorian calendar.
pub fn is_leap_year(year: i32) -> (b: bool)
    ensures
        b == is_leap_year_spec(year as int),
{
    (year % 4 == 0 && year % 100 != 0) || (year % 400 == 0)
}

/// The length of a month; a month number outside 1..=12 counts as 30 days.
pub open spec fn days_in_month_spec(year: int, month: int) -> int {
    if month == 1 || month == 3 || month == 5 || month == 7 || month == 8 || month == 10
        || month == 12 {
        31
    } else if month == 4 || month == 6 || month == 9 || month == 11 {
        30
    } else if month == 2 {
        if is_leap_year_spec(year) {
            29
        } else {
            28
        }
    } else {
        30
    }
}

/// The number of days of `month` in `year`.
pub fn days_in_month(year: i32, month: i32) -> (n: i32)
    ensures
        n == days_in_month_spec(year as int, month as int),
        28 <= n <= 31,
        month == 2 ==> (n == 29 <==> is_leap_year_spec(year as int)),
{
    match month {
        1 | 3 | 5 | 7 | 8 | 10 | 12 => 31,
        4 | 6 | 9 | 11 => 30,
        2 => {
            if is_leap_year(year) {
                29
            } else {
                28
            }
        },
        _ => 30,
    }
}

/// The per-month term of Sakamoto's weekday formula.
pub open spec fn month_offset(month: int) -> int {
    if month == 1 {
        0
    } else if month == 2 {
        3
    } else if month == 3 {
        2
    } else if month == 4 {
        5
    } else if month == 5 {
        0
    } else if month == 6 {
        3
    } else if month == 7 {
        5
    } else if month == 8 {
        1
    } else if month == 9 {
        4
    } else if month == 10 {
        6
    } else if month == 11 {
        2
    } else {
        4
    }
}

/// January and February count as months of the year before.
pub open spec fn weekday_year(year: int, month: int) -> int {
    if month < 3 {
        year - 1
    } else {
        year
    }
}

/// Leap days and whole years up to `y`, as Sakamoto's formula counts them.
pub open spec fn year_term(y: int) -> int {
    y + tdiv(y, 4) - tdiv(y, 100) + tdiv(y, 400)
}

pub open spec fn weekday_sum(year: int, month: int, day: int) -> int {
    year_term(weekday_year(year, month)) + month_offset(month) + day
}

/// The weekday Sakamoto's formula gives: 0 is Sunday, 6 is Saturday (a
/// negative remainder for dates whose sum is negative).
pub open spec fn weekday(year: int, month: int, day: int) -> int {
    trem(weekday_sum(year, month, day), 7)
}

pub open spec fn fits_i32(v: int) -> bool {
    i32::MIN <= v <= i32::MAX
}

/// Every intermediate sum of the formula fits in an `i32`.
pub open spec fn weekday_fits(year: int, month: int, day: int) -> bool {
    let y = weekday_year(year, month);
    &&& fits_i32(y)
    &&& fits_i32(y + tdiv(y, 4))
    &&& fits_i32(y + tdiv(y, 4) - tdiv(y, 100))
    &&& fits_i32(year_term(y))
    &&& fits_i32(year_term(y) + month_offset(month))
    &&& fits_i32(weekday_sum(year, month, day))
}

fn month_offset_of(month: i32) -> (t: i32)
    requires
        1 <= month <= 12,
    ensures
        t == month_offset(month as int),
{
    match month {
        1 => 0,
        2 => 3,
        3 => 2,
        4 => 5,
        5 => 0,
        6 => 3,
        7 => 5,
        8 => 1,
        9 => 4,
        10 => 6,
        11 => 2,
        _ => 4,
    }
}

/// The weekday of a date by Sakamoto's algorithm: 0 for Sunday through 6
/// for Saturday.
pub fn day_of_week(y: i32, m: i32, d: i32) -> (w: i32)
    requires
        1 <= m <= 12,
        weekday_fits(y as int, m as int, d as int),
    ensures
        w == weekday(y as int, m as int, d as int),
        y >= 1 && d >= 0 ==> 0 <= w < 7,
{
    let mut y = y;
    if m < 3 {
        y -= 1;
    }
    let t = month_offset_of(m);
    let s = y + y / 4 - y / 100 + y / 400 + t + d;
    proof {
        if y >= 0 && d >= 0 {
            assert(s >= 0);
        }
    }
    s % 7
}

pub open spec fn previous_month_spec(year: int, month: int) -> (int, int) {
    if month == 1 {
        (year - 1, 12)
    } else {
        (year, month - 1)
    }
}

pub open spec fn next_month_spec(year: int, month: int) -> (int, int) {
    if month == 12 {
        (year + 1, 1)
    } else {
        (year, month + 1)
    }
}

/// The month shown after pressing "previous" on the calendar.
pub fn previous_month(year: i32, month: i32) -> (r: (i32, i32))
    requires
        month == 1 ==> year > i32::MIN,
        month > i32::MIN,
    ensures
        (r.0 as int, r.1 as int) == previous_month_spec(year as int, month as int),
{
    if month == 1 {
        (year - 1, 12)
    } else {
        (year, month - 1)
    }
}

/// The month shown after pressing "next" on the calendar.
pub fn next_month(year: i32, month: i32) -> (r: (i32, i32))
    requires
        month == 12 ==> year < i32::MAX,
        month < i32::MAX,
    ensures
        (r.0 as int, r.1 as int) == next_month_spec(year as int, month as int),
{
    if month == 12 {
        (year + 1, 1)
    } else {
        (year, month + 1)
    }
}

/// Stepping a month back and then forward again (or forward and back)
/// returns to the month one started from.
pub proof fn law_month_steps_undo(year: int, month: int)
    requires
        1 <= month <= 12,
    ensures
        ({
            let p = previous_month_spec(year, month);
            next_month_spec(p.0, p.1)
        }) == (year, month),
        ({
            let n = next_month_spec(year, month);
            previous_month_spec(n.0, n.1)
        }) == (year, month),
{
}

proof fn lemma_year_term_step(y: int)
    requires
        y >= 1,
    ensures
        year_term(y) - year_term(y - 1) == 1 + (if is_leap_year_spec(y) {
            1int
        } else {
            0int
        }),
{
    assert(y / 4 - (y - 1) / 4 == (if y % 4 == 0 {
        1int
    } else {
        0int
    }));
    assert(y / 100 - (y - 1) / 100 == (if y % 100 == 0 {
        1int
    } else {
        0int
    }));
    assert(y / 400 - (y - 1) / 400 == (if y % 400 == 0 {
        1int
    } else {
        0int
    }));
    if y % 400 == 0 {
        assert(y % 100 == 0);
        assert(y % 4 == 0);
    } else if y % 100 == 0 {
        assert(y % 4 == 0);
    }
}

/// The first day of the next month falls on the weekday after the last day
/// of this one, across the end of February in leap and common years and
/// across the turn of the year alike.
pub proof fn law_weekday_continues_into_next_month(year: int, month: int)
    requires
        year >= 1,
        1 <= month <= 12,
    ensures
        ({
            let n = next_month_spec(year, month);
            weekday(n.0, n.1, 1)
        }) == (weekday(year, month, days_in_month_spec(year, month)) + 1) % 7,
{
    let last = days_in_month_spec(year, month);
    let n = next_month_spec(year, month);
    let a = weekday_sum(year, month, last);
    let b = weekday_sum(n.0, n.1, 1);
    let yy = weekday_year(year, month);
    assert(yy >= 0);
    assert(year_term(yy) >= 0);
    assert(a >= 0);
    assert(weekday_year(n.0, n.1) >= 0);
    assert(b >= 0);
    if month == 2 {
        lemma_year_term_step(year);
        assert(b - a == 1 - 28 + 0);
    } else {
        assert(weekday_year(n.0, n.1) == yy);
        assert(b - a == month_offset(n.1) - month_offset(month) + 1 - last);
    }
    assert((b - a) % 7 == 1);
    assert(trem(a, 7) == a % 7);
    assert(trem(b, 7) == b % 7);
    assert(b % 7 == (a % 7 + 1) % 7) by (nonlinear_arith)
        requires
            a >= 0,
            b >= 0,
            (b - a) % 7 == 1,
    ;
}

/// The text form `YYYY-MM-DD HH:MM`, each field zero-padded as
/// `format!("{:04}-{:02}-{:02} {:02}:{:02}")` pads it.
pub open spec fn format_datetime_spec(y: i32, m: i32, d: i32, h: i32, min: i32) -> Seq<char> {
    padded(y as int, 4) + seq!['-'] + padded(m as int, 2) + seq!['-'] + padded(d as int, 2)
        + seq![' '] + padded(h as int, 2) + seq![':'] + padded(min as int, 2)
}

/// Writes a picked date and time as `YYYY-MM-DD HH:MM`.
pub fn format_datetime(y: i32, m: i32, d: i32, h: i32, min: i32) -> (s: String)
    ensures
        s@ == format_datetime_spec(y, m, d, h, min),
{
    let mut out = String::new();
    push_all(&mut out, &format_padded(y, 4));
    push_all(&mut out, &vec!['-']);
    push_all(&mut out, &format_padded(m, 2));
    push_all(&mut out, &vec!['-']);
    push_all(&mut out, &format_padded(d, 2));
    push_all(&mut out, &vec![' ']);
    push_all(&mut out, &format_padded(h, 2));
    push_all(&mut out, &vec![':']);
    push_all(&mut out, &format_padded(min, 2));
    assert(out@ =~= format_datetime_spec(y, m, d, h, min));
    out
}

/// What `parse_datetime` reads: exactly one space, two dashes before it and
/// one colon after it, and five decimal `i32`s between them.
pub open spec fn parse_datetime_spec(s: Seq<char>) -> Option<(i32, i32, i32, i32, i32)> {
    let parts = split_on(s, ' ');
    if parts.len() != 2 {
        None
    } else {
        let dp = split_on(parts[0], '-');
        let tp = split_on(parts[1], ':');
        if dp.len() != 3 || tp.len() != 2 {
            None
        } else {
            match (
                parse_i32_spec(dp[0]),
                parse_i32_spec(dp[1]),
                parse_i32_spec(dp[2]),
                parse_i32_spec(tp[0]),
                parse_i32_spec(tp[1]),
            ) {
                (Some(y), Some(m), Some(d), Some(h), Some(mi)) => Some((y, m, d, h, mi)),
                _ => None,
            }
        }
    }
}

/// Reads `YYYY-MM-DD HH:MM` into year, month, day, hour and minute.
pub fn parse_datetime(s: &str) -> (r: Option<(i32, i32, i32, i32, i32)>)
    ensures
        r == parse_datetime_spec(s@),
{
    let chars = chars_of(s);
    let parts = split_chars(&chars, ' ');
    if parts.len() != 2 {
        return None;
    }
    let date_parts = split_chars(&parts[0], '-');
    let time_parts = split_chars(&parts[1], ':');
    if date_parts.len() != 3 || time_parts.len() != 2 {
        return None;
    }
    let y = match parse_i32(&date_parts[0]) {
        Some(v) => v,
        None => return None,
    };
    let m = match parse_i32(&date_parts[1]) {
        Some(v) => v,
        None => return None,
    };
    let d = match parse_i32(&date_parts[2]) {
        Some(v) => v,
        None => return None,
    };
    let h = match parse_i32(&time_parts[0]) {
        Some(v) => v,
        None => return None,
    };
    let mi = match parse_i32(&time_parts[1]) {
        Some(v) => v,
        None => return None,
    };
    Some((y, m, d, h, mi))
}

proof fn lemma_concat_lacks(a: Seq<char>, b: Seq<char>, c: char)
    requires
        !a.contains(c),
        !b.contains(c),
    ensures
        !(a + b).contains(c),
{
    if (a + b).contains(c) {
        let k = choose|k: int| 0 <= k < (a + b).len() && (a + b)[k] == c;
        if k < a.len() {
            assert(a[k] == c);
        } else {
            assert(b[k - a.len()] == c);
        }
    }
}

/// A date with non-negative year, month and day, written and read back,
/// gives the same five numbers.
#[verifier::spinoff_prover]
#[verifier::rlimit(50)]
pub proof fn law_parse_reads_back_format(y: i32, m: i32, d: i32, h: i32, min: i32)
    requires
        y >= 0,
        m >= 0,
        d >= 0,
    ensures
        parse_datetime_spec(format_datetime_spec(y, m, d, h, min)) == Some((y, m, d, h, min)),
{
    let py = padded(y as int, 4);
    let pm = padded(m as int, 2);
    let pd = padded(d as int, 2);
    let ph = padded(h as int, 2);
    let pmin = padded(min as int, 2);
    lemma_parse_padded(y, 4);
    lemma_parse_padded(m, 2);
    lemma_parse_padded(d, 2);
    lemma_parse_padded(h, 2);
    lemma_parse_padded(min, 2);
    let dash: Seq<char> = seq!['-'];
    let colon: Seq<char> = seq![':'];
    assert(!dash.contains(' ')) by {
        if dash.contains(' ') {
            assert(dash[0] == '-');
        }
    }
    assert(!colon.contains(' ')) by {
        if colon.contains(' ') {
            assert(colon[0] == ':');
        }
    }
    let ym = py + seq!['-'] + pm;
    let date = ym + seq!['-'] + pd;
    let time = ph + seq![':'] + pmin;
    lemma_concat_lacks(py, dash, ' ');
    lemma_concat_lacks(py + dash, pm, ' ');
    lemma_concat_lacks(ym, dash, ' ');
    lemma_concat_lacks(ym + dash, pd, ' ');
    lemma_concat_lacks(ph, colon, ' ');
    lemma_concat_lacks(ph + colon, pmin, ' ');
    assert(format_datetime_spec(y, m, d, h, min) =~= date + seq![' '] + time);
    lemma_split_concat(date, ' ', time);
    lemma_split_no_sep(date, ' ');
    lemma_split_no_sep(time, ' ');
    let parts = split_on(date + seq![' '] + time, ' ');
    assert(parts =~= seq![date, time]);
    lemma_split_concat(ym, '-', pd);
    lemma_split_concat(py, '-', pm);
    lemma_split_no_sep(py, '-');
    lemma_split_no_sep(pm, '-');
    lemma_split_no_sep(pd, '-');
    assert(split_on(date, '-') =~= seq![py, pm, pd]);
    lemma_split_concat(ph, ':', pmin);
    lemma_split_no_sep(ph, ':');
    lemma_split_no_sep(pmin, ':');
    assert(split_on(time, ':') =~= seq![ph, pmin]);
}

/// The English name of month `m` (1 to 12), `Unknown` for any other number.
pub open spec fn month_name_spec(m: i32) -> Seq<char> {
    match m {
        1 => "January"@,
        2 => "February"@,
        3 => "March"@,
        4 => "April"@,
        5 => "May"@,
        6 => "June"@,
        7 => "July"@,
        8 => "August"@,
        9 => "September"@,
        10 => "October"@,
        11 => "November"@,
        12 => "December"@,
        _ => "Unknown"@,
    }
}

/// The name the calendar heading shows for month `m`.
pub fn month_name(m: i32) -> (s: &'static str)
    ensures
        s@ == month_name_spec(m),
{
    match m {
        1 => "January",
        2 => "February",
        3 => "March",
        4 => "April",
        5 => "May",
        6 => "June",
        7 => "July",
        8 => "August",
        9 => "September",
        10 => "October",
        11 => "November",
        12 => "December",
        _ => "Unknown",
    }
}

/// The Gregorian month lengths, month by month: thirty days have
/// September, April, June and November; February has 29 in a leap year
/// (divisible by 4, and not by 100 unless by 400) and 28 otherwise; the
/// rest have 31. A year has 365 days, or 366 in a leap year.
pub proof fn law_gregorian_month_lengths(year: int)
    ensures
        days_in_month_spec(year, 1) == 31,
        days_in_month_spec(year, 2) == (if (year % 4 == 0 && year % 100 != 0) || year % 400 == 0 {
            29int
        } else {
            28int
        }),
        days_in_month_spec(year, 3) == 31,
        days_in_month_spec(year, 4) == 30,
        days_in_month_spec(year, 5) == 31,
        days_in_month_spec(year, 6) == 30,
        days_in_month_spec(year, 7) == 31,
        days_in_month_spec(year, 8) == 31,
        days_in_month_spec(year, 9) == 30,
        days_in_month_spec(year, 10) == 31,
        days_in_month_spec(year, 11) == 30,
        days_in_month_spec(year, 12) == 31,
        days_in_month_spec(year, 1) + days_in_month_spec(year, 2) + days_in_month_spec(year, 3)
            + days_in_month_spec(year, 4) + days_in_month_spec(year, 5) + days_in_month_spec(year, 6)
            + days_in_month_spec(year, 7) + days_in_month_spec(year, 8) + days_in_month_spec(year, 9)
            + days_in_month_spec(year, 10) + days_in_month_spec(year, 11) + days_in_month_spec(year, 12) == (if (
        year % 4 == 0 && year % 100 != 0) || year % 400 == 0 {
            366int
        } else {
            365int
        }),
{
}

/// The days of a common year before the first of month `m`.
pub open spec fn days_before_in_common_year(m: int) -> int {
    if m <= 1 {
        0
    } else if m == 2 {
        31
    } else if m == 3 {
        59
    } else if m == 4 {
        90
    } else if m == 5 {
        120
    } else if m == 6 {
        151
    } else if m == 7 {
        181
    } else if m == 8 {
        212
    } else if m == 9 {
        243
    } else if m == 10 {
        273
    } else if m == 11 {
        304
    } else {
        334
    }
}

proof fn lemma_mod_shift(a: int, b: int, x: int, t: int)
    requires
        a >= 0,
        x >= 0,
        b == a + x + 7 * t,
    ensures
        b % 7 == (a % 7 + x) % 7,
{
    assert(b % 7 == (a % 7 + x) % 7) by (nonlinear_arith)
        requires
            a >= 0,
            x >= 0,
            b == a + x + 7 * t,
    ;
}

/// The weekday moves on by one for each day counted from the first of
/// January: the weekday of `d` `m` `y` is that of 1 January of `y` moved on
/// by the days before it in the year (with the leap day once February is
/// over).
pub proof fn law_weekday_counts_days(y: int, m: int, d: int)
    requires
        y >= 1,
        1 <= m <= 12,
        d >= 1,
    ensures
        weekday(y, m, d) == (weekday(y, 1, 1) + days_before_in_common_year(m) + (if m > 2 && ((y % 4 == 0 && y % 100
            != 0) || y % 400 == 0) {
            1int
        } else {
            0int
        }) + d - 1) % 7,
{
    let a = weekday_sum(y, 1, 1);
    let b = weekday_sum(y, m, d);
    let leap: int = if (y % 4 == 0 && y % 100 != 0) || y % 400 == 0 {
        1
    } else {
        0
    };
    let x = days_before_in_common_year(m) + (if m > 2 {
        leap
    } else {
        0
    }) + d - 1;
    assert(year_term(y - 1) >= 0);
    assert(year_term(y) >= 0);
    assert(a >= 0);
    assert(b >= 0);
    lemma_year_term_step(y);
    let t = (b - a - x) / 7;
    if m == 1 {
        assert(b - a - x == 0);
    } else if m == 2 {
        assert(b - a - x == -28);
    } else if m == 3 {
        assert(b - a - x == -56);
    } else if m == 4 {
        assert(b - a - x == -84);
    } else if m == 5 {
        assert(b - a - x == -119);
    } else if m == 6 {
        assert(b - a - x == -147);
    } else if m == 7 {
        assert(b - a - x == -175);
    } else if m == 8 {
        assert(b - a - x == -210);
    } else if m == 9 {
        assert(b - a - x == -238);
    } else if m == 10 {
        assert(b - a - x == -266);
    } else if m == 11 {
        assert(b - a - x == -301);
    } else {
        assert(b - a - x == -329);
    }
    assert(b == a + x + 7 * t);
    lemma_mod_shift(a, b, x, t);
    assert(trem(a, 7) == a % 7);
    assert(trem(b, 7) == b % 7);
}

/// From one first of January to the next the weekday moves on by the
/// length of the year (365 days, or 366 in a leap year), and 1 January 2000
/// was a Saturday.
pub proof fn law_weekday_new_year(y: int)
    requires
        y >= 1,
    ensures
        weekday(y + 1, 1, 1) == (weekday(y, 1, 1) + (if (y % 4 == 0 && y % 100 != 0) || y % 400 == 0 {
            366int
        } else {
            365int
        })) % 7,
        weekday(2000, 1, 1) == 6,
{
    let a = weekday_sum(y, 1, 1);
    let b = weekday_sum(y + 1, 1, 1);
    let n: int = if (y % 4 == 0 && y % 100 != 0) || y % 400 == 0 {
        366
    } else {
        365
    };
    assert(year_term(y - 1) >= 0);
    assert(a >= 0);
    lemma_year_term_step(y);
    assert(b - a - n == -364);
    lemma_mod_shift(a, b, n, -52);
    assert(trem(a, 7) == a % 7);
    assert(b >= 0);
    assert(trem(b, 7) == b % 7);
    assert(1999int / 4 == 499);
    assert(1999int / 100 == 19);
    assert(1999int / 400 == 4);
    assert(weekday_sum(2000, 1, 1) == 2484);
    assert(2484int % 7 == 6);
}

} // verus!
