//! Calendar arithmetic for timestamps: Unix seconds to a UTC calendar
//! date, and a small strftime-style formatter over it.

use vstd::prelude::*;

use crate::decimal::{
    all_digits, digits_value, lemma_digits_concat, lemma_digits_lead, lemma_digits_zero, lemma_pow10_mono,
    pow10,
};
use crate::text::{
    chars_of, decimal_digits, digit_char, int_text, int_text_padded, lemma_decimal_digits_value, push_char,
    push_i64, push_i64_padded, push_str,
};

verus! {

// ---------------------------------------------------------------------------
// The proleptic Gregorian calendar, stated directly.
// ---------------------------------------------------------------------------

/// A year is a leap year when divisible by 4, except centuries that are not
/// divisible by 400.
pub open spec fn is_leap_year(y: int) -> bool {
    y % 4 == 0 && (y % 100 != 0 || y % 400 == 0)
}

/// Number of days in month `m` (1 = January) of year `y`.
pub open spec fn days_in_month(y: int, m: int) -> int {
    if m == 2 {
        if is_leap_year(y) { 29 } else { 28 }
    } else if m == 4 || m == 6 || m == 9 || m == 11 {
        30
    } else {
        31
    }
}

/// Number of days in the months of year `y` that precede month `m`
/// (`m == 13` gives the length of the whole year).
pub open spec fn days_before_month(y: int, m: int) -> int {
    let leap_day: int = if m > 2 && is_leap_year(y) { 1 } else { 0 };
    let common: int = if m <= 1 { 0 }
        else if m == 2 { 31 }
        else if m == 3 { 59 }
        else if m == 4 { 90 }
        else if m == 5 { 120 }
        else if m == 6 { 151 }
        else if m == 7 { 181 }
        else if m == 8 { 212 }
        else if m == 9 { 243 }
        else if m == 10 { 273 }
        else if m == 11 { 304 }
        else if m == 12 { 334 }
        else { 365 };
    common + leap_day
}

/// Number of leap years among the years `1 ..= y - 1` (negated count of the
/// leap years in `y ..= 0` when `y <= 0`).
pub open spec fn leap_years_before(y: int) -> int {
    (y - 1) / 4 - (y - 1) / 100 + (y - 1) / 400
}

/// Days from 1970-01-01 to January 1st of year `y` (negative before 1970).
pub open spec fn days_before_year(y: int) -> int {
    365 * (y - 1970) + leap_years_before(y) - leap_years_before(1970)
}

/// Days from 1970-01-01 to the given calendar date.
pub open spec fn days_from_civil(y: int, m: int, d: int) -> int {
    days_before_year(y) + days_before_month(y, m) + d - 1
}

/// A calendar date that exists.
pub open spec fn is_valid_date(y: int, m: int, d: int) -> bool {
    1 <= m <= 12 && 1 <= d <= days_in_month(y, m)
}

/// Calendar date / time-of-day broken out of a Unix timestamp (UTC).
#[derive(Debug, Clone, Copy, PartialEq, Eq)]
pub struct CalDate {
    pub year: i64,
    pub month: u8,
    pub day: u8,
    pub hour: u8,
    pub minute: u8,
    pub second: u8,
}

impl CalDate {
    /// The date names a real day and the time of day is in range.
    pub open spec fn is_valid(self) -> bool {
        &&& is_valid_date(self.year as int, self.month as int, self.day as int)
        &&& self.hour < 24
        &&& self.minute < 60
        &&& self.second < 60
    }

    /// Unix seconds denoted by this date and time of day.
    pub open spec fn unix_seconds(self) -> int {
        days_from_civil(self.year as int, self.month as int, self.day as int) * 86_400
            + self.hour * 3600 + self.minute * 60 + self.second
    }
}

// ---------------------------------------------------------------------------
// Laws of the calendar model.
// ---------------------------------------------------------------------------

/// Consecutive years are 365 days apart, 366 when the first is a leap year.
pub proof fn lemma_year_length(y: int)
    ensures
        days_before_year(y + 1) - days_before_year(y) == if is_leap_year(y) { 366int } else { 365int },
{
}

/// Consecutive months are as far apart as the first month is long.
pub proof fn lemma_month_length(y: int, m: int)
    requires
        1 <= m <= 12,
    ensures
        days_before_month(y, m + 1) - days_before_month(y, m) == days_in_month(y, m),
        days_before_month(y, 13) == days_before_year(y + 1) - days_before_year(y),
{
    lemma_year_length(y);
}

proof fn lemma_days_before_year_monotone(a: int, b: int)
    requires
        a <= b,
    ensures
        days_before_year(a) <= days_before_year(b),
{
}

proof fn lemma_date_within_year(y: int, m: int, d: int)
    requires
        is_valid_date(y, m, d),
    ensures
        days_before_year(y) <= days_from_civil(y, m, d) < days_before_year(y + 1),
        days_before_month(y, m) <= days_from_civil(y, m, d) - days_before_year(y)
            < days_before_month(y, m + 1),
{
    lemma_year_length(y);
}

/// Distinct valid calendar dates name distinct days.
pub proof fn lemma_days_from_civil_injective(y1: int, m1: int, d1: int, y2: int, m2: int, d2: int)
    requires
        is_valid_date(y1, m1, d1),
        is_valid_date(y2, m2, d2),
        days_from_civil(y1, m1, d1) == days_from_civil(y2, m2, d2),
    ensures
        y1 == y2,
        m1 == m2,
        d1 == d2,
{
    lemma_date_within_year(y1, m1, d1);
    lemma_date_within_year(y2, m2, d2);
    if y1 < y2 {
        lemma_days_before_year_monotone(y1 + 1, y2);
    } else if y2 < y1 {
        lemma_days_before_year_monotone(y2 + 1, y1);
    }
    assert(y1 == y2);
    if m1 < m2 {
        assert(days_before_month(y1, m1 + 1) <= days_before_month(y1, m2));
    } else if m2 < m1 {
        assert(days_before_month(y1, m2 + 1) <= days_before_month(y1, m1));
    }
}

/// A Unix timestamp names exactly one valid calendar date and time of day.
pub proof fn lemma_cal_date_unique(a: CalDate, b: CalDate)
    requires
        a.is_valid(),
        b.is_valid(),
        a.unix_seconds() == b.unix_seconds(),
    ensures
        a == b,
{
    let da = days_from_civil(a.year as int, a.month as int, a.day as int);
    let db = days_from_civil(b.year as int, b.month as int, b.day as int);
    let ta = a.hour * 3600 + a.minute * 60 + a.second;
    let tb = b.hour * 3600 + b.minute * 60 + b.second;
    vstd::arithmetic::div_mod::lemma_fundamental_div_mod_converse(a.unix_seconds(), 86400, da, ta);
    vstd::arithmetic::div_mod::lemma_fundamental_div_mod_converse(a.unix_seconds(), 86400, db, tb);
    vstd::arithmetic::div_mod::lemma_fundamental_div_mod_converse(ta, 3600, a.hour as int, a.minute * 60 + a.second);
    vstd::arithmetic::div_mod::lemma_fundamental_div_mod_converse(ta, 3600, b.hour as int, b.minute * 60 + b.second);
    vstd::arithmetic::div_mod::lemma_fundamental_div_mod_converse(a.minute * 60 + a.second, 60, a.minute as int, a.second as int);
    vstd::arithmetic::div_mod::lemma_fundamental_div_mod_converse(a.minute * 60 + a.second, 60, b.minute as int, b.second as int);
    lemma_days_from_civil_injective(
        a.year as int, a.month as int, a.day as int,
        b.year as int, b.month as int, b.day as int,
    );
}

/// The calendar date and time of day that a Unix timestamp names.
pub open spec fn cal_date_of(unix_secs: int) -> CalDate {
    choose|c: CalDate| c.is_valid() && c.unix_seconds() == unix_secs
}

/// A valid calendar date is the one its own timestamp names.
pub proof fn lemma_cal_date_of(c: CalDate)
    requires
        c.is_valid(),
    ensures
        cal_date_of(c.unix_seconds()) == c,
{
    assert(c.is_valid() && c.unix_seconds() == c.unix_seconds());
    lemma_cal_date_unique(c, cal_date_of(c.unix_seconds()));
}

// ---------------------------------------------------------------------------
// Hinnant's `civil_from_days`, proved against the model.
// ---------------------------------------------------------------------------

/// Day of the era at which March-based year `yoe` of a 400-year era starts.
spec fn era_year_start(yoe: int) -> int {
    365 * yoe + yoe / 4 - yoe / 100
}

proof fn lemma_year_of_era_bounds(doe: int)
    requires
        0 <= doe <= 146096,
    ensures
        ({
            let yoe = (doe - doe / 1460 + doe / 36524 - doe / 146096) / 365;
            &&& 0 <= yoe <= 399
            &&& era_year_start(yoe) <= doe
            &&& doe < era_year_start(yoe + 1) + (if yoe == 399 { 1int } else { 0int })
        }),
{
}

proof fn lemma_year_of_era(doe: int)
    requires
        0 <= doe <= 146096,
    ensures
        ({
            let yoe = (doe - doe / 1460 + doe / 36524 - doe / 146096) / 365;
            &&& 0 <= yoe <= 399
            &&& era_year_start(yoe) <= doe
            &&& doe - era_year_start(yoe) < 365 + if is_leap_year(yoe + 1) { 1int } else { 0int }
        }),
{
    lemma_year_of_era_bounds(doe);
    let yoe = (doe - doe / 1460 + doe / 36524 - doe / 146096) / 365;
    lemma_era_year_length(yoe);
}

proof fn lemma_era_year_length(yoe: int)
    requires
        0 <= yoe <= 399,
    ensures
        era_year_start(yoe + 1) + (if yoe == 399 { 1int } else { 0int }) - era_year_start(yoe)
            == 365 + if is_leap_year(yoe + 1) { 1int } else { 0int },
{
}

proof fn lemma_month_of_year(doy: int)
    requires
        0 <= doy <= 365,
    ensures
        ({
            let mp = (5 * doy + 2) / 153;
            &&& 0 <= mp <= 11
            &&& (153 * mp + 2) / 5 <= doy
            &&& mp < 11 ==> doy < (153 * (mp + 1) + 2) / 5
        }),
{
}

/// Shifting a value by whole eras of 400 years shifts its quotient by 4, 100
/// and 400 in step and leaves its remainders alone.
proof fn lemma_shift_by_eras(era: int, x: int, d: int)
    requires
        d == 4 || d == 100 || d == 400,
    ensures
        (400 * era + x) / d == (400int / d) * era + x / d,
        (400 * era + x) % d == x % d,
{
    let q = (400int / d) * era + x / d;
    let r = x % d;
    assert(x == (x / d) * d + r) by {
        vstd::arithmetic::div_mod::lemma_fundamental_div_mod(x, d);
    }
    assert(400 * era + x == q * d + r) by (nonlinear_arith)
        requires
            x == (x / d) * d + r,
            q == (400int / d) * era + x / d,
            d == 4 || d == 100 || d == 400,
    ;
    vstd::arithmetic::div_mod::lemma_fundamental_div_mod_converse(400 * era + x, d, q, r);
}

/// The March-based year `400 * era + yoe` starts `59 + leap` days after
/// January 1st of that year.
proof fn lemma_march_first(era: int, yoe: int)
    requires
        0 <= yoe <= 399,
    ensures
        days_before_year(400 * era + yoe) + 59 + (if is_leap_year(400 * era + yoe) { 1int } else { 0int })
            == era * 146097 + era_year_start(yoe) - 719468,
        is_leap_year(400 * era + yoe + 1) == is_leap_year(yoe + 1),
        is_leap_year(400 * era + yoe) == is_leap_year(yoe),
{
    lemma_shift_by_eras(era, yoe - 1, 4);
    lemma_shift_by_eras(era, yoe - 1, 100);
    lemma_shift_by_eras(era, yoe - 1, 400);
    lemma_shift_by_eras(era, yoe, 4);
    lemma_shift_by_eras(era, yoe, 100);
    lemma_shift_by_eras(era, yoe, 400);
    lemma_shift_by_eras(era, yoe + 1, 4);
    lemma_shift_by_eras(era, yoe + 1, 100);
    lemma_shift_by_eras(era, yoe + 1, 400);
    assert(leap_years_before(400 * era + yoe) == 97 * era + leap_years_before(yoe));
    assert(leap_years_before(yoe) + (if is_leap_year(yoe) { 1int } else { 0int })
        == yoe / 4 - yoe / 100);
}

/// The calendar date that Hinnant's `civil_from_days` computes for a day
/// count, as a triple `(year, month, day)`.
spec fn civil_from_days(days: int) -> (int, int, int) {
    let z = days + 719468;
    let era = z / 146097;
    let doe = z % 146097;
    let yoe = (doe - doe / 1460 + doe / 36524 - doe / 146096) / 365;
    let doy = doe - era_year_start(yoe);
    let mp = (5 * doy + 2) / 153;
    let d = doy - (153 * mp + 2) / 5 + 1;
    let m = if mp < 10 { mp + 3 } else { mp - 9 };
    let y = yoe + era * 400 + if m <= 2 { 1int } else { 0int };
    (y, m, d)
}

proof fn lemma_civil_from_days(days: int)
    ensures
        is_valid_date(civil_from_days(days).0, civil_from_days(days).1, civil_from_days(days).2),
        days_from_civil(civil_from_days(days).0, civil_from_days(days).1, civil_from_days(days).2)
            == days,
{
    let z = days + 719468;
    let era = z / 146097;
    let doe = z % 146097;
    vstd::arithmetic::div_mod::lemma_fundamental_div_mod(z, 146097);
    lemma_year_of_era(doe);
    let yoe = (doe - doe / 1460 + doe / 36524 - doe / 146096) / 365;
    let doy = doe - era_year_start(yoe);
    lemma_month_of_year(doy);
    let mp = (5 * doy + 2) / 153;
    lemma_march_first(era, yoe);
    let y0 = 400 * era + yoe;
    lemma_year_length(y0);
    assert(era * 400 == 400 * era);
    assert(z == 146097 * era + doe);
}

/// Floor division and non-negative remainder of `x` by a positive `d`.
fn floor_div_mod(x: i64, d: i64) -> (r: (i64, i64))
    requires
        d > 0,
    ensures
        r.0 == x / d,
        r.1 == x % d,
{
    if x >= 0 {
        (x / d, x % d)
    } else {
        let t = -(x + 1);
        let q = t / d;
        let m = t % d;
        proof {
            assert(t == q * d + m) by (nonlinear_arith)
                requires
                    t >= 0,
                    d > 0,
                    q == t / d,
                    m == t % d,
            ;
            assert(x == (-q - 1) * d + (d - 1 - m)) by (nonlinear_arith)
                requires
                    t == q * d + m,
                    t == -(x + 1),
            ;
            vstd::arithmetic::div_mod::lemma_fundamental_div_mod_converse(
                x as int,
                d as int,
                (-q - 1) as int,
                (d - 1 - m) as int,
            );
        }
        (-q - 1, d - 1 - m)
    }
}

/// Convert Unix `unix_secs` (UTC) into a calendar date, using Howard
/// Hinnant's `civil_from_days` algorithm over the proleptic Gregorian
/// calendar.
#[verifier::spinoff_prover]
pub fn cal_date_utc(unix_secs: i64) -> (r: CalDate)
    ensures
        r.is_valid(),
        r.unix_seconds() == unix_secs,
        r == cal_date_of(unix_secs as int),
{
    let (days, day_secs) = floor_div_mod(unix_secs, 86_400);
    let hour = (day_secs / 3600) as u8;
    let minute = ((day_secs % 3600) / 60) as u8;
    let second = (day_secs % 60) as u8;

    let z = days + 719_468;
    let (era, doe) = floor_div_mod(z, 146_097);
    proof {
        lemma_year_of_era(doe as int);
    }
    let yoe = (doe - doe / 1_460 + doe / 36_524 - doe / 146_096) / 365;
    let doy = doe - (365 * yoe + yoe / 4 - yoe / 100);
    proof {
        lemma_month_of_year(doy as int);
    }
    let mp = (5 * doy + 2) / 153;
    let day = (doy - (153 * mp + 2) / 5 + 1) as u8;
    let month = (if mp < 10 { mp + 3 } else { mp - 9 }) as u8;
    let mut year = yoe + era * 400;
    if month <= 2 {
        year = year + 1;
    }
    proof {
        lemma_civil_from_days(days as int);
        assert(unix_secs == days * 86_400 + day_secs) by {
            vstd::arithmetic::div_mod::lemma_fundamental_div_mod(unix_secs as int, 86_400);
        }
    }
    let r = CalDate { year, month, day, hour, minute, second };
    proof {
        lemma_cal_date_of(r);
    }
    r
}

// ---------------------------------------------------------------------------
// strftime subset.
// ---------------------------------------------------------------------------

/// Default timestamp format for batch output: ISO 8601 UTC.
pub const DEFAULT_TS_FORMAT: &'static str = "%Y-%m-%dT%H:%M:%SZ";

/// Expansion of the specifier `%t` for date `c` of timestamp `secs`.
/// Unknown specifiers pass through verbatim.
pub open spec fn strftime_token(t: char, c: CalDate, secs: int) -> Seq<char> {
    if t == 'Y' {
        int_text_padded(c.year as int, 4)
    } else if t == 'm' {
        int_text_padded(c.month as int, 2)
    } else if t == 'd' {
        int_text_padded(c.day as int, 2)
    } else if t == 'H' {
        int_text_padded(c.hour as int, 2)
    } else if t == 'M' {
        int_text_padded(c.minute as int, 2)
    } else if t == 'S' {
        int_text_padded(c.second as int, 2)
    } else if t == 'T' {
        int_text_padded(c.hour as int, 2) + ":"@ + int_text_padded(c.minute as int, 2) + ":"@
            + int_text_padded(c.second as int, 2)
    } else if t == 'F' {
        int_text_padded(c.year as int, 4) + "-"@ + int_text_padded(c.month as int, 2) + "-"@
            + int_text_padded(c.day as int, 2)
    } else if t == 's' {
        int_text(secs)
    } else if t == 'z' {
        "+0000"@
    } else if t == 'Z' {
        "UTC"@
    } else if t == '%' {
        "%"@
    } else {
        seq!['%', t]
    }
}

/// `fmt` with each `%` specifier expanded for date `c` of timestamp
/// `secs`; a trailing bare `%` stays a `%`.
pub open spec fn strftime_text(fmt: Seq<char>, c: CalDate, secs: int) -> Seq<char>
    decreases fmt.len(),
{
    if fmt.len() == 0 {
        Seq::empty()
    } else if fmt[0] != '%' {
        seq![fmt[0]] + strftime_text(fmt.drop_first(), c, secs)
    } else if fmt.len() == 1 {
        "%"@
    } else {
        strftime_token(fmt[1], c, secs) + strftime_text(fmt.skip(2), c, secs)
    }
}

fn push_token(out: &mut String, t: char, cal: &CalDate, unix_secs: i64)
    ensures
        final(out)@ == old(out)@ + strftime_token(t, *cal, unix_secs as int),
{
    proof {
        reveal_strlit(":");
        reveal_strlit("-");
    }
    if t == 'Y' {
        push_i64_padded(out, cal.year, 4);
    } else if t == 'm' {
        push_i64_padded(out, cal.month as i64, 2);
    } else if t == 'd' {
        push_i64_padded(out, cal.day as i64, 2);
    } else if t == 'H' {
        push_i64_padded(out, cal.hour as i64, 2);
    } else if t == 'M' {
        push_i64_padded(out, cal.minute as i64, 2);
    } else if t == 'S' {
        push_i64_padded(out, cal.second as i64, 2);
    } else if t == 'T' {
        push_i64_padded(out, cal.hour as i64, 2);
        push_str(out, ":");
        push_i64_padded(out, cal.minute as i64, 2);
        push_str(out, ":");
        push_i64_padded(out, cal.second as i64, 2);
    } else if t == 'F' {
        push_i64_padded(out, cal.year, 4);
        push_str(out, "-");
        push_i64_padded(out, cal.month as i64, 2);
        push_str(out, "-");
        push_i64_padded(out, cal.day as i64, 2);
    } else if t == 's' {
        push_i64(out, unix_secs);
    } else if t == 'z' {
        push_str(out, "+0000");
    } else if t == 'Z' {
        push_str(out, "UTC");
    } else if t == '%' {
        push_str(out, "%");
    } else {
        push_char(out, '%');
        push_char(out, t);
        assert(old(out)@.push('%').push(t) == old(out)@ + seq!['%', t]);
    }
}

/// Format a Unix timestamp with a small strftime subset: `%Y %m %d %H %M
/// %S` (zero-padded), `%T` (`HH:MM:SS`), `%F` (`YYYY-MM-DD`), `%s` (the
/// seconds), `%z` (`+0000`), `%Z` (`UTC`) and `%%`. Unknown specifiers pass
/// through verbatim, and a trailing bare `%` renders as `%`.
pub fn format_strftime(fmt: &str, unix_secs: i64) -> (s: String)
    ensures
        s@ == strftime_text(fmt@, cal_date_of(unix_secs as int), unix_secs as int),
{
    let cal = cal_date_utc(unix_secs);
    let v = chars_of(fmt);
    let n = v.len();
    let mut out = String::new();
    let mut i: usize = 0;
    assert(v@.skip(0) == v@);
    while i < n
        invariant
            n == v@.len(),
            v@ == fmt@,
            i <= n,
            cal == cal_date_of(unix_secs as int),
            out@ + strftime_text(v@.skip(i as int), cal, unix_secs as int) == strftime_text(
                v@,
                cal,
                unix_secs as int,
            ),
        decreases n - i,
    {
        let ghost rest = v@.skip(i as int);
        let c = v[i];
        assert(rest[0] == c);
        if c != '%' {
            assert(rest.drop_first() == v@.skip(i + 1));
            push_char(&mut out, c);
            i = i + 1;
        } else if i + 1 == n {
            push_char(&mut out, '%');
            proof {
                reveal_strlit("%");
                assert(v@.skip(n as int).len() == 0);
            }
            i = i + 1;
        } else {
            assert(rest[1] == v@[i + 1]);
            assert(rest.skip(2) == v@.skip(i + 2));
            push_token(&mut out, v[i + 1], &cal, unix_secs);
            i = i + 2;
        }
    }
    assert(v@.skip(n as int).len() == 0);
    out
}


/// A number below 100 written with `int_text_padded(v, 2)` is two decimal
/// digits whose value is `v`.
proof fn lemma_two_digit_text(v: int)
    requires
        0 <= v < 100,
    ensures
        int_text_padded(v, 2).len() == 2,
        all_digits(int_text_padded(v, 2)),
        digits_value(int_text_padded(v, 2)) == v,
{
    let t = int_text_padded(v, 2);
    let hi = if v < 10 { '0' } else { digit_char(v / 10) };
    let lo = digit_char(v % 10);
    if v < 10 {
        assert(decimal_digits(v as nat) == seq![digit_char(v)]);
        assert(t =~= seq!['0', lo]);
    } else {
        assert(decimal_digits((v / 10) as nat) == seq![digit_char(v / 10)]);
        assert(decimal_digits(v as nat) == seq![digit_char(v / 10)].push(lo));
        assert(t =~= seq![hi, lo]);
    }
    assert(t.drop_last() =~= seq![hi]);
    assert(seq![hi].drop_last() =~= Seq::<char>::empty());
    assert(digits_value(seq![hi]) == digits_value(Seq::<char>::empty()) * 10 + (hi as int - '0' as int));
    assert(hi as int - '0' as int == v / 10) by {
        if v >= 10 {
            let q = v / 10;
            assert(0 <= q < 10);
        }
    }
    assert(lo as int - '0' as int == v % 10);
}

/// A year from 0 to 9999 is written by `%Y` as four decimal digits whose
/// value is the year.
pub proof fn lemma_strftime_year_four_digits(c: CalDate, secs: int)
    requires
        0 <= c.year <= 9999,
    ensures
        strftime_token('Y', c, secs).len() == 4,
        all_digits(strftime_token('Y', c, secs)),
        digits_value(strftime_token('Y', c, secs)) == c.year,
{
    let n = c.year as nat;
    let dd = decimal_digits(n);
    lemma_decimal_digits_value(n);
    if n > 0 {
        lemma_digits_lead(dd);
        if dd.len() > 4 {
            lemma_pow10_mono(4, (dd.len() - 1) as nat);
            reveal_with_fuel(pow10, 5);
        }
    } else {
        assert(dd == seq![digit_char(0)]);
    }
    assert(dd.len() <= 4);
    let t = strftime_token('Y', c, secs);
    if dd.len() < 4 {
        let zeros = Seq::new((4 - dd.len()) as nat, |i: int| '0');
        assert(t == zeros + dd);
        lemma_digits_concat(zeros, dd);
        assert(all_digits(zeros));
        lemma_digits_zero(zeros);
        assert forall|i: int| 0 <= i < t.len() implies crate::decimal::is_digit_char(#[trigger] t[i]) by {
            if i >= zeros.len() {
                assert(t[i] == dd[i - zeros.len()]);
            }
        }
    }
}

/// Every numeric field of a formatted timestamp is exactly two decimal
/// digits whose value is the field: `%m` the month, `%d` the day, `%H` the
/// hour, `%M` the minute and `%S` the second; `%T` is `%H:%M:%S` and `%F`
/// ends in `-%m-%d`.
pub proof fn lemma_strftime_fields_two_digits(c: CalDate, secs: int)
    requires
        c.is_valid(),
    ensures
        forall|t: char|
            (t == 'm' || t == 'd' || t == 'H' || t == 'M' || t == 'S') ==> {
                let f = #[trigger] strftime_token(t, c, secs);
                &&& f.len() == 2
                &&& all_digits(f)
                &&& digits_value(f) == (if t == 'm' {
                    c.month as int
                } else if t == 'd' {
                    c.day as int
                } else if t == 'H' {
                    c.hour as int
                } else if t == 'M' {
                    c.minute as int
                } else {
                    c.second as int
                })
            },
        strftime_token('T', c, secs) == strftime_token('H', c, secs) + ":"@ + strftime_token('M', c, secs)
            + ":"@ + strftime_token('S', c, secs),
        strftime_token('F', c, secs) == strftime_token('Y', c, secs) + "-"@ + strftime_token('m', c, secs)
            + "-"@ + strftime_token('d', c, secs),
{
    lemma_two_digit_text(c.month as int);
    lemma_two_digit_text(c.day as int);
    lemma_two_digit_text(c.hour as int);
    lemma_two_digit_text(c.minute as int);
    lemma_two_digit_text(c.second as int);
}

} // verus!
