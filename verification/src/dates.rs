//! Calendar dates of days since the Unix epoch, and the timestamps that name backups.
use vstd::prelude::*;
use crate::text::{
    digits_value, is_digit, lemma_decimal_digits_read_back, lemma_zero_padded_read_back,
    pad_decimal, push_char, zero_padded,
};

verus! {

/// Gregorian leap-year rule.
pub open spec fn is_leap_year(y: int) -> bool {
    y % 4 == 0 && (y % 100 != 0 || y % 400 == 0)
}

/// Number of days in month `m` (1 = January) of year `y`.
pub open spec fn days_in_month(y: int, m: int) -> int {
    if m == 2 {
        if is_leap_year(y) { 29 } else { 28 }
    } else if m == 4 || m == 6 || m == 9 || m == 11 {
        30
    } else {
        31
    }
}

/// A day `d` of month `m` of year `y` exists in the proleptic Gregorian calendar.
pub open spec fn is_valid_date(y: int, m: int, d: int) -> bool {
    &&& 1 <= m <= 12
    &&& 1 <= d <= days_in_month(y, m)
}

/// Count of leap years strictly before year `y`, up to a constant offset
/// (the offset cancels in differences).
pub open spec fn leap_years_before(y: int) -> int {
    (y - 1) / 4 - (y - 1) / 100 + (y - 1) / 400
}

/// Days of year `y` that precede the first day of month `m`.
pub open spec fn days_before_month(y: int, m: int) -> int {
    let base = if m == 1 {
        0int
    } else if m == 2 {
        31
    } else if m == 3 {
        59
    } else if m == 4 {
        90
    } else if m == 5 {
        120
    } else if m == 6 {
        151
    } else if m == 7 {
        181
    } else if m == 8 {
        212
    } else if m == 9 {
        243
    } else if m == 10 {
        273
    } else if m == 11 {
        304
    } else {
        334
    };
    if m > 2 && is_leap_year(y) { base + 1 } else { base }
}

/// Number of days from 1970-01-01 to the date `y-m-d` (negative before it).
pub open spec fn day_number(y: int, m: int, d: int) -> int {
    365 * (y - 1970) + leap_years_before(y) - leap_years_before(1970) + days_before_month(y, m) + d
        - 1
}

/// Start of year `k` of a 400-year era counted from March 1st.
spec fn era_year_start(k: int) -> int {
    365 * k + k / 4 - k / 100
}

/// The year-of-era formula finds the March-based year that holds day `doe` of an era.
proof fn lemma_year_of_era(doe: int)
    requires
        0 <= doe <= 146096,
    ensures
        ({
            let yoe = (doe - doe / 1460 + doe / 36524 - doe / 146096) / 365;
            &&& 0 <= yoe <= 399
            &&& era_year_start(yoe) <= doe
            &&& doe - era_year_start(yoe) <= 364 + (if is_leap_year(yoe + 1) { 1int } else { 0 })
        }),
{
    let c = doe / 36524;
    let yoe = (doe - doe / 1460 + doe / 36524 - doe / 146096) / 365;
    if doe == 146096 {
        assert(yoe == 399);
    } else {
        let rc = doe - 36524 * c;
        let q = rc / 1461;
        let rq = rc - 1461 * q;
        assert(0 <= c <= 3);
        assert(0 <= rc <= 36523);
        assert(0 <= q <= 24);
        assert(0 <= rq <= 1460);
        assert(q == 24 ==> rq <= 1459);
        assert(doe == 36524 * c + 1461 * q + rq);
        let e1 = (24 * c + q + rq) / 1460;
        assert(0 <= 24 * c + q + rq <= 1556);
        assert(0 <= e1 <= 1);
        assert(doe == 1460 * (25 * c + q) + (24 * c + q + rq));
        assert(doe / 1460 == 25 * c + q + e1);
        assert(doe / 146096 == 0);
        let n = doe - doe / 1460 + doe / 36524 - doe / 146096;
        assert(n == 36500 * c + 1460 * q + rq - e1);
        assert(rq >= 1364 ==> e1 == 1 || rq <= 1459);
        let r = (rq - e1) / 365;
        assert(0 <= r <= 3);
        assert(n == 365 * (100 * c + 4 * q) + (rq - e1));
        assert(yoe == 100 * c + 4 * q + r);
        assert(yoe / 4 == 25 * c + q);
        assert(yoe / 100 == c);
        assert(era_year_start(yoe) == 36524 * c + 1461 * q + 365 * r);
    }
}

/// Days from March 1st to the first day of the `mp`-th month counted from March.
spec fn march_month_start(mp: int) -> int {
    (153 * mp + 2) / 5
}

/// The month-of-year formula picks the month that holds day `doy` counted from March 1st.
proof fn lemma_month_of_year(doy: int)
    requires
        0 <= doy <= 365,
    ensures
        ({
            let mp = (5 * doy + 2) / 153;
            &&& 0 <= mp <= 11
            &&& march_month_start(mp) <= doy
            &&& mp < 11 ==> doy < march_month_start(mp + 1)
        }),
{
}

/// Calendar month of the `mp`-th month counted from March, and where it starts in a
/// common (non-leap) year.
proof fn lemma_month_table(mp: int)
    requires
        0 <= mp <= 11,
    ensures
        ({
            let m = if mp < 10 { mp + 3 } else { mp - 9 };
            &&& 1 <= m <= 12
            &&& mp < 10 ==> 59 + march_month_start(mp) == days_before_month(1, m)
            &&& mp == 10 ==> march_month_start(mp) == 306 && m == 1
            &&& mp == 11 ==> march_month_start(mp) == 337 && m == 2
            &&& mp < 11 ==> march_month_start(mp + 1) - march_month_start(mp) == days_in_month(1, m)
        }),
{
    if mp == 0 {
    } else if mp == 1 {
    } else if mp == 2 {
    } else if mp == 3 {
    } else if mp == 4 {
    } else if mp == 5 {
    } else if mp == 6 {
    } else if mp == 7 {
    } else if mp == 8 {
    } else if mp == 9 {
    } else if mp == 10 {
    } else {
    }
}

/// Month tables of any year differ from those of a common year only by the leap day.
proof fn lemma_month_in_year(y: int, m: int)
    requires
        1 <= m <= 12,
    ensures
        days_before_month(y, m) == days_before_month(1, m) + (if m > 2 && is_leap_year(y) {
            1int
        } else {
            0
        }),
        m != 2 ==> days_in_month(y, m) == days_in_month(1, m),
{
}

/// The calendar date computed from a day count through March-based eras.
pub closed spec fn date_of_day(n: int) -> (int, int, int) {
    let z = n + 719468;
    let era = z / 146097;
    let doe = z - era * 146097;
    let yoe = (doe - doe / 1460 + doe / 36524 - doe / 146096) / 365;
    let doy = doe - era_year_start(yoe);
    let mp = (5 * doy + 2) / 153;
    let d = doy - march_month_start(mp) + 1;
    let m = if mp < 10 { mp + 3 } else { mp - 9 };
    let y = yoe + era * 400 + (if m <= 2 { 1int } else { 0 });
    (y, m, d)
}

/// The date `date_of_day(n)` is a real calendar date, lying `n` days after 1970-01-01;
/// from 1970 on its year is at least 1970.
#[verifier::rlimit(50)]
#[verifier::spinoff_prover]
pub proof fn lemma_date_of_day(n: int)
    ensures
        ({
            let (y, m, d) = date_of_day(n);
            &&& is_valid_date(y, m, d)
            &&& day_number(y, m, d) == n
            &&& n >= 0 ==> y >= 1970
        }),
{
    let z = n + 719468;
    let era = z / 146097;
    let doe = z - era * 146097;
    lemma_year_of_era(doe);
    let yoe = (doe - doe / 1460 + doe / 36524 - doe / 146096) / 365;
    let doy = doe - era_year_start(yoe);
    lemma_month_of_year(doy);
    let mp = (5 * doy + 2) / 153;
    let big_y = yoe + era * 400;
    assert((big_y + 1) / 4 == (yoe + 1) / 4 + 100 * era);
    assert((big_y + 1) / 100 == (yoe + 1) / 100 + 4 * era);
    assert((big_y + 1) / 400 == (yoe + 1) / 400 + era);
    assert(is_leap_year(big_y + 1) == is_leap_year(yoe + 1));
    assert(big_y / 4 == yoe / 4 + 100 * era);
    assert(big_y / 100 == yoe / 100 + 4 * era);
    assert(big_y / 400 == era);
    assert(leap_years_before(big_y + 1) == yoe / 4 - yoe / 100 + 97 * era);
    assert(leap_years_before(1970) == 477);
    assert(leap_years_before(big_y + 1) - leap_years_before(big_y) == (if is_leap_year(big_y) {
        1int
    } else {
        0
    }));
    lemma_month_table(mp);
    let m = if mp < 10 { mp + 3 } else { mp - 9 };
    let y = big_y + (if m <= 2 { 1int } else { 0 });
    lemma_month_in_year(y, m);
    assert(n >= 0 ==> era >= 4);
}

/// Calendar date (year, month, day) of the day `days` days after 1970-01-01.
pub fn days_to_date(days: i64) -> (date: (i64, i64, i64))
    requires
        days <= i64::MAX - 719468,
    ensures
        is_valid_date(date.0 as int, date.1 as int, date.2 as int),
        day_number(date.0 as int, date.1 as int, date.2 as int) == days,
        days >= 0 ==> date.0 >= 1970,
        (date.0 as int, date.1 as int, date.2 as int) == date_of_day(days as int),
{
    let z = days + 719468;
    let era = if z >= 0 { z } else { z - 146096 } / 146097;
    proof {
        assert(era == (z as int) / 146097);
    }
    let doe = z - era * 146097;
    proof {
        assert(0 <= doe <= 146096);
        lemma_year_of_era(doe as int);
        lemma_date_of_day(days as int);
    }
    let yoe = (doe - doe / 1460 + doe / 36524 - doe / 146096) / 365;
    let y = yoe + era * 400;
    let doy = doe - (365 * yoe + yoe / 4 - yoe / 100);
    let mp = (5 * doy + 2) / 153;
    let d = doy - (153 * mp + 2) / 5 + 1;
    let m = if mp < 10 { mp + 3 } else { mp - 9 };
    let y = if m <= 2 { y + 1 } else { y };
    (y, m, d)
}

/// `YYYY-MM-DD_HH-MM-SS`, each field zero-padded (the year to at least four digits).
pub open spec fn date_time_text(y: nat, mo: nat, d: nat, h: nat, mi: nat, s: nat) -> Seq<char> {
    zero_padded(y, 4) + seq!['-'] + zero_padded(mo, 2) + seq!['-'] + zero_padded(d, 2) + seq!['_']
        + zero_padded(h, 2) + seq!['-'] + zero_padded(mi, 2) + seq!['-'] + zero_padded(s, 2)
}

/// The `YYYY-MM-DD_HH-MM-SS` (UTC) name of the instant `secs` seconds after the Unix epoch.
pub open spec fn timestamp_text(secs: nat) -> Seq<char> {
    let date = date_of_day((secs / 86400) as int);
    let t = secs % 86400;
    date_time_text(date.0 as nat, date.1 as nat, date.2 as nat, t / 3600, (t % 3600) / 60, t % 60)
}

/// A backup name reads back as its instant: it is `YYYY-MM-DD_HH-MM-SS` with digits in every
/// field; the fields spell a valid date and a time of day, and that date and time are
/// exactly `secs` seconds after 1970-01-01 00:00:00 UTC.
#[verifier::rlimit(50)]
#[verifier::spinoff_prover]
pub proof fn lemma_timestamp_reads_back(secs: nat)
    ensures
        ({
            let t = timestamp_text(secs);
            let n = t.len() as int;
            let year = digits_value(t.take(n - 15));
            let month = digits_value(t.subrange(n - 14, n - 12));
            let day = digits_value(t.subrange(n - 11, n - 9));
            let hour = digits_value(t.subrange(n - 8, n - 6));
            let minute = digits_value(t.subrange(n - 5, n - 3));
            let second = digits_value(t.subrange(n - 2, n));
            &&& n >= 19
            &&& t[n - 15] == '-' && t[n - 12] == '-' && t[n - 9] == '_'
            &&& t[n - 6] == '-' && t[n - 3] == '-'
            &&& forall|i: int|
                0 <= i < n && i != n - 15 && i != n - 12 && i != n - 9 && i != n - 6 && i != n
                    - 3 ==> is_digit(#[trigger] t[i])
            &&& is_valid_date(year, month, day)
            &&& hour < 24 && minute < 60 && second < 60
            &&& secs == 86400 * day_number(year, month, day) + 3600 * hour + 60 * minute + second
        }),
{
    let days = (secs / 86400) as int;
    lemma_date_of_day(days);
    let date = date_of_day(days);
    let tt = secs % 86400;
    let h = tt / 3600;
    let mi = (tt % 3600) / 60;
    let sc = tt % 60;
    let (yv, mv, dv) = (date.0 as nat, date.1 as nat, date.2 as nat);
    let y = zero_padded(yv, 4);
    let m = zero_padded(mv, 2);
    let d = zero_padded(dv, 2);
    let hh = zero_padded(h, 2);
    let mm = zero_padded(mi, 2);
    let ss = zero_padded(sc, 2);
    lemma_zero_padded_read_back(yv, 4);
    lemma_decimal_digits_read_back(mv);
    lemma_decimal_digits_read_back(dv);
    lemma_decimal_digits_read_back(h);
    lemma_decimal_digits_read_back(mi);
    lemma_decimal_digits_read_back(sc);
    lemma_zero_padded_read_back(mv, 2);
    lemma_zero_padded_read_back(dv, 2);
    lemma_zero_padded_read_back(h, 2);
    lemma_zero_padded_read_back(mi, 2);
    lemma_zero_padded_read_back(sc, 2);
    let t = timestamp_text(secs);
    assert(t == y + seq!['-'] + m + seq!['-'] + d + seq!['_'] + hh + seq!['-'] + mm + seq!['-'] + ss);
    let l = y.len() as int;
    let n = t.len() as int;
    assert(n == l + 15);
    assert(t.take(n - 15) =~= y);
    assert(t.subrange(n - 14, n - 12) =~= m);
    assert(t.subrange(n - 11, n - 9) =~= d);
    assert(t.subrange(n - 8, n - 6) =~= hh);
    assert(t.subrange(n - 5, n - 3) =~= mm);
    assert(t.subrange(n - 2, n) =~= ss);
    assert forall|i: int|
        0 <= i < n && i != n - 15 && i != n - 12 && i != n - 9 && i != n - 6 && i != n - 3 implies is_digit(
        #[trigger] t[i],
    ) by {
        if i < l {
            assert(t[i] == y[i]);
        } else if i < l + 3 {
            assert(t[i] == m[i - l - 1]);
        } else if i < l + 6 {
            assert(t[i] == d[i - l - 4]);
        } else if i < l + 9 {
            assert(t[i] == hh[i - l - 7]);
        } else if i < l + 12 {
            assert(t[i] == mm[i - l - 10]);
        } else {
            assert(t[i] == ss[i - l - 13]);
        }
    }
    assert(secs == 86400 * days + tt);
    assert(tt == 3600 * h + 60 * mi + sc);
}

/// Appends `t` to `s`.
pub(crate) fn push_str(s: &mut String, t: &str)
    ensures
        final(s)@ == old(s)@ + t@,
{
    s.append(t);
}

/// The `YYYY-MM-DD_HH-MM-SS` name (UTC) of the instant `secs` seconds after the Unix epoch;
/// backup folders are named so.
pub fn timestamp_name(secs: u64) -> (res: String)
    ensures
        res@ == timestamp_text(secs as nat),
{
    let days = secs / 86400;
    let time_secs = secs % 86400;
    let hours = time_secs / 3600;
    let minutes = (time_secs % 3600) / 60;
    let seconds = time_secs % 60;
    let (year, month, day) = days_to_date(days as i64);
    proof {
        lemma_date_of_day(days as int);
    }
    let mut res = pad_decimal(year as u64, 4);
    push_char(&mut res, '-');
    push_str(&mut res, &pad_decimal(month as u64, 2));
    push_char(&mut res, '-');
    push_str(&mut res, &pad_decimal(day as u64, 2));
    push_char(&mut res, '_');
    push_str(&mut res, &pad_decimal(hours, 2));
    push_char(&mut res, '-');
    push_str(&mut res, &pad_decimal(minutes, 2));
    push_char(&mut res, '-');
    push_str(&mut res, &pad_decimal(seconds, 2));
    res
}

/// Seconds since the Unix epoch on the system clock (`SystemTime::now`), 0 for a clock
/// set before the epoch. Nothing is stated of the value: it is the current time.
#[verifier::external_body]
fn unix_now_secs() -> u64 {
    std::time::SystemTime::now().duration_since(std::time::UNIX_EPOCH).map(|d| d.as_secs()).unwrap_or(0)
}

/// The name of the current instant, as `timestamp_name` writes it.
pub fn chrono_now_string() -> (res: String)
    ensures
        exists|secs: u64| res@ == timestamp_text(secs as nat),
{
    let secs = unix_now_secs();
    timestamp_name(secs)
}

} // verus!
