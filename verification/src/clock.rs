//! Expiry timestamps in SQLite's `YYYY-MM-DD HH:MM:SS` form, computed from
//! Unix seconds with the proleptic Gregorian calendar.
use vstd::prelude::*;
use crate::text::{dec, dec_padded, digits_value, is_digit, lemma_dec_digits, lemma_dec_len, push_decimal_padded};

verus! {

/// A leap year of the Gregorian calendar.
pub open spec fn is_leap(y: int) -> bool {
    (y % 4 == 0 && y % 100 != 0) || y % 400 == 0
}

/// Days in month `m` (1-based) of year `y`.
pub open spec fn days_in_month(y: int, m: int) -> int {
    if m == 2 {
        if is_leap(y) { 29 } else { 28 }
    } else if m == 4 || m == 6 || m == 9 || m == 11 {
        30
    } else {
        31
    }
}

/// Days in the months of year `y` before month `m`.
pub open spec fn days_before_month(y: int, m: int) -> int {
    let base: int = if m == 1 { 0 }
        else if m == 2 { 31 }
        else if m == 3 { 59 }
        else if m == 4 { 90 }
        else if m == 5 { 120 }
        else if m == 6 { 151 }
        else if m == 7 { 181 }
        else if m == 8 { 212 }
        else if m == 9 { 243 }
        else if m == 10 { 273 }
        else if m == 11 { 304 }
        else { 334 };
    if m > 2 && is_leap(y) { base + 1 } else { base }
}

/// Leap years in `1..=n`.
pub open spec fn leaps_through(n: int) -> int {
    n / 4 - n / 100 + n / 400
}

/// Days from 1970-01-01 to January 1st of year `y` (`y >= 1970`).
pub open spec fn days_before_year(y: int) -> int {
    365 * (y - 1970) + leaps_through(y - 1) - leaps_through(1969)
}

/// `(y, m, d)` is a valid date on or after 1970-01-01 that lies `days` days
/// after 1970-01-01.
pub open spec fn is_date_of(days: int, y: int, m: int, d: int) -> bool {
    &&& y >= 1970
    &&& 1 <= m <= 12
    &&& 1 <= d <= days_in_month(y, m)
    &&& days_before_year(y) + days_before_month(y, m) + d - 1 == days
}

/// The text of a timestamp: `YYYY-MM-DD HH:MM:SS`, each field zero-padded.
pub open spec fn datetime_text(y: nat, mo: nat, d: nat, h: nat, mi: nat, s: nat) -> Seq<char> {
    dec_padded(y, 4) + "-"@ + dec_padded(mo, 2) + "-"@ + dec_padded(d, 2) + " "@
        + dec_padded(h, 2) + ":"@ + dec_padded(mi, 2) + ":"@ + dec_padded(s, 2)
}

/// Whether `days_to_ymd` is defined for `days` (its intermediate sums fit
/// in a `u32`).
pub open spec fn day_in_range(days: int) -> bool {
    0 <= days <= u32::MAX - 719468
}

/// The formatted timestamp of `secs` seconds after the Unix epoch, for the
/// date `(y, m, d)` of its day.
pub open spec fn timestamp_of(secs: nat, y: nat, m: nat, d: nat) -> Seq<char> {
    let tod = secs % 86400;
    datetime_text(y, m, d, tod / 3600, (tod % 3600) / 60, tod % 60)
}


/// Days from 0000-03-01 to March 1st of year `y` (`y >= 0`).
pub open spec fn march_days(y: int) -> int {
    365 * y + y / 4 - y / 100 + y / 400
}

/// The facts about one 400-year cycle that the conversion rests on: the
/// year of the era stays below 400, the day of the (March-based) year
/// below 366, and day 365 occurs only when the following year is a leap
/// year.
proof fn lemma_cycle(doe: u32)
    requires
        doe <= 146096,
    ensures
        doe / 1460 <= doe,
        doe / 146096 <= doe - doe / 1460 + doe / 36524,
        (doe - doe / 1460 + doe / 36524 - doe / 146096) / 365 <= 399,
        ({
            let yoe = (doe - doe / 1460 + doe / 36524 - doe / 146096) / 365;
            &&& 365 * yoe + yoe / 4 - yoe / 100 <= doe
            &&& doe - (365 * yoe + yoe / 4 - yoe / 100) <= 365
            &&& doe - (365 * yoe + yoe / 4 - yoe / 100) == 365 ==> ((yoe + 1) % 4 == 0 && ((yoe + 1)
                % 100 != 0 || (yoe + 1) % 400 == 0))
        }),
{
    assert(doe <= 146096 ==> doe / 1460 <= doe) by (bit_vector);
    assert(doe <= 146096 ==> doe / 146096 <= doe - doe / 1460 + doe / 36524) by (bit_vector);
    assert(doe <= 146096 ==> (doe - doe / 1460 + doe / 36524 - doe / 146096) / 365 <= 399) by (bit_vector);
    assert(doe <= 146096 ==> 365 * ((doe - doe / 1460 + doe / 36524 - doe / 146096) / 365) + ((doe
        - doe / 1460 + doe / 36524 - doe / 146096) / 365) / 4 - ((doe - doe / 1460 + doe / 36524 - doe
        / 146096) / 365) / 100 <= doe) by (bit_vector);
    assert(doe <= 146096 ==> doe - (365 * ((doe - doe / 1460 + doe / 36524 - doe / 146096) / 365)
        + ((doe - doe / 1460 + doe / 36524 - doe / 146096) / 365) / 4 - ((doe - doe / 1460 + doe
        / 36524 - doe / 146096) / 365) / 100) <= 365) by (bit_vector);
    assert(doe <= 146096 && doe - (365 * ((doe - doe / 1460 + doe / 36524 - doe / 146096) / 365)
        + ((doe - doe / 1460 + doe / 36524 - doe / 146096) / 365) / 4 - ((doe - doe / 1460 + doe
        / 36524 - doe / 146096) / 365) / 100) == 365 ==> ((((doe - doe / 1460 + doe / 36524 - doe
        / 146096) / 365) + 1) % 4 == 0 && ((((doe - doe / 1460 + doe / 36524 - doe / 146096) / 365)
        + 1) % 100 != 0 || (((doe - doe / 1460 + doe / 36524 - doe / 146096) / 365) + 1) % 400
        == 0))) by (bit_vector);
}

/// Month and day within a March-based year of 365 or 366 days.
proof fn lemma_month(doy: u32)
    requires
        doy <= 365,
    ensures
        (5 * doy + 2) / 153 <= 11,
        (153 * ((5 * doy + 2) / 153) + 2) / 5 <= doy,
        ({
            let mp = (5 * doy + 2) / 153;
            let d = doy - (153 * mp + 2) / 5 + 1;
            &&& 1 <= d <= 31
            &&& (mp == 1 || mp == 3 || mp == 6 || mp == 8) ==> d <= 30
            &&& mp == 11 ==> d <= 29
            &&& (mp == 11 && d == 29) ==> doy == 365
        }),
{
    assert(doy <= 365 ==> (5 * doy + 2) / 153 <= 11) by (bit_vector);
    assert(doy <= 365 ==> (153 * ((5 * doy + 2) / 153) + 2) / 5 <= doy) by (bit_vector);
    assert(doy <= 365 ==> doy - (153 * ((5 * doy + 2) / 153) + 2) / 5 + 1 <= 31) by (bit_vector);
    assert(doy <= 365 && (((5 * doy + 2) / 153) == 1 || ((5 * doy + 2) / 153) == 3 || ((5 * doy + 2)
        / 153) == 6 || ((5 * doy + 2) / 153) == 8) ==> doy - (153 * ((5 * doy + 2) / 153) + 2) / 5
        + 1 <= 30) by (bit_vector);
    assert(doy <= 365 && (5 * doy + 2) / 153 == 11 ==> doy - (153 * ((5 * doy + 2) / 153) + 2) / 5
        + 1 <= 29) by (bit_vector);
    assert(doy <= 365 && (5 * doy + 2) / 153 == 11 && doy - (153 * ((5 * doy + 2) / 153) + 2) / 5
        + 1 == 29 ==> doy == 365) by (bit_vector);
}

/// Leap years are the years that add a day between consecutive March 1sts.
proof fn lemma_march_days_step(y: int)
    requires
        y >= 1,
    ensures
        march_days(y) == march_days(y - 1) + 365 + if is_leap(y) { 1int } else { 0int },
{
}

/// Whether a year is a leap year depends only on its place in the
/// 400-year cycle.
proof fn lemma_leap_cycle(era: int, yoe: int)
    requires
        era >= 0,
        0 <= yoe,
    ensures
        is_leap(400 * era + yoe) == is_leap(yoe),
{
}

/// Days to March 1st of a year, split into whole 400-year eras and the
/// remaining years.
proof fn lemma_march_days_era(era: int, yoe: int)
    requires
        era >= 0,
        0 <= yoe <= 399,
    ensures
        march_days(400 * era + yoe) == 146097 * era + 365 * yoe + yoe / 4 - yoe / 100,
{
    assert((400 * era + yoe) / 4 == 100 * era + yoe / 4);
    assert((400 * era + yoe) / 100 == 4 * era + yoe / 100);
    assert((400 * era + yoe) / 400 == era);
}

/// January 1st of year `y` lies 306 days after March 1st of the year before.
proof fn lemma_year_start(y: int)
    requires
        y >= 1,
    ensures
        days_before_year(y) == march_days(y - 1) + 306 - 719468,
{
}

proof fn lemma_march_days_monotone(a: int, b: int)
    requires
        0 <= a <= b,
    ensures
        march_days(a) <= march_days(b),
    decreases b - a,
{
    if a < b {
        lemma_march_days_monotone(a, b - 1);
        lemma_march_days_step(b);
    }
}

/// Puts the pieces of one conversion together: `days` since 1970-01-01
/// written as a position in a 400-year era, a March-based year and a month
/// of it is the civil date the conversion returns.
proof fn lemma_assemble(days: int, era: int, yoe: int, doy: int, mp: int, d: int)
    requires
        days >= 0,
        era >= 0,
        0 <= yoe <= 399,
        0 <= doy <= 365,
        doy == 365 ==> is_leap(yoe + 1),
        days + 719468 == 146097 * era + 365 * yoe + yoe / 4 - yoe / 100 + doy,
        0 <= mp <= 11,
        doy == (153 * mp + 2) / 5 + d - 1,
        1 <= d <= 31,
        (mp == 1 || mp == 3 || mp == 6 || mp == 8) ==> d <= 30,
        mp == 11 ==> d <= 29,
        (mp == 11 && d == 29) ==> doy == 365,
    ensures
        ({
            let m = if mp < 10 { mp + 3 } else { mp - 9 };
            let y = if m <= 2 { 400 * era + yoe + 1 } else { 400 * era + yoe };
            is_date_of(days, y, m, d)
        }),
{
    let big_y = 400 * era + yoe;
    lemma_march_days_era(era, yoe);
    assert(days + 719468 == march_days(big_y) + doy);
    let m = if mp < 10 { mp + 3 } else { mp - 9 };
    lemma_leap_cycle(era, yoe + 1);
    if big_y <= 1968 {
        lemma_march_days_monotone(big_y, 1968);
        assert(false);
    }
    if big_y == 1969 {
        assert(mp >= 10);
    }
    if mp < 10 {
        lemma_year_start(big_y);
        lemma_march_days_step(big_y);
        assert(days_before_month(big_y, m) == 59 + (if is_leap(big_y) { 1int } else { 0int })
            + (153 * mp + 2) / 5);
    } else {
        lemma_year_start(big_y + 1);
        assert(days_before_month(big_y + 1, m) + 306 == (153 * mp + 2) / 5);
    }
}

/// The calendar date `days` days after 1970-01-01, as `(year, month, day)`.
pub fn days_to_ymd(days: u32) -> (r: (u32, u32, u32))
    requires
        day_in_range(days as int),
    ensures
        is_date_of(days as int, r.0 as int, r.1 as int, r.2 as int),
{
    let z = days + 719468;
    let era = z / 146097;
    let doe = z - era * 146097;
    proof {
        lemma_cycle(doe);
    }
    let yoe = (doe - doe / 1460 + doe / 36524 - doe / 146096) / 365;
    let y = yoe + era * 400;
    let doy = doe - (365 * yoe + yoe / 4 - yoe / 100);
    proof {
        lemma_month(doy);
    }
    let mp = (5 * doy + 2) / 153;
    let d = doy - (153 * mp + 2) / 5 + 1;
    let m = if mp < 10 { mp + 3 } else { mp - 9 };
    let y = if m <= 2 { y + 1 } else { y };
    proof {
        lemma_assemble(days as int, era as int, yoe as int, doy as int, mp as int, d as int);
    }
    (y, m, d)
}

/// `text` is the timestamp of `secs` seconds after the Unix epoch, the day
/// taken modulo 2^32 as a `u32` day count.
pub open spec fn formats_time(secs: nat, text: Seq<char>) -> bool {
    exists|y: nat, m: nat, d: nat|
        #![trigger timestamp_of(secs, y, m, d)]
        is_date_of(((secs / 86400) as u32) as int, y as int, m as int, d as int)
            && text == timestamp_of(secs, y, m, d)
}

/// Formats `secs` seconds after the Unix epoch as `YYYY-MM-DD HH:MM:SS`.
pub fn chrono_from_secs(secs: u64) -> (r: String)
    requires
        day_in_range(((secs / 86400) as u32) as int),
    ensures
        formats_time(secs as nat, r@),
{
    let days = secs / 86400;
    let time_of_day = secs % 86400;
    let h = time_of_day / 3600;
    let m = (time_of_day % 3600) / 60;
    let sec = time_of_day % 60;
    let (year, month, day) = days_to_ymd(days as u32);
    let mut out = String::new();
    push_decimal_padded(&mut out, year as u64, 4);
    out.append("-");
    push_decimal_padded(&mut out, month as u64, 2);
    out.append("-");
    push_decimal_padded(&mut out, day as u64, 2);
    out.append(" ");
    push_decimal_padded(&mut out, h, 2);
    out.append(":");
    push_decimal_padded(&mut out, m, 2);
    out.append(":");
    push_decimal_padded(&mut out, sec, 2);
    assert(out@ =~= timestamp_of(secs as nat, year as nat, month as nat, day as nat));
    out
}

/// An expiry `timeout_minutes` after `now_secs` can be formatted: the
/// arithmetic fits in a `u64` and the day count in the calendar's range.
pub open spec fn expiry_in_range(now_secs: nat, timeout_minutes: nat) -> bool {
    &&& timeout_minutes * 60 <= u64::MAX
    &&& now_secs + timeout_minutes * 60 <= u64::MAX
    &&& day_in_range((((now_secs + timeout_minutes * 60) / 86400) as u32) as int)
}

/// The timestamp `timeout_minutes` after `now_secs` (seconds since the
/// Unix epoch).
pub fn expires_at_from(now_secs: u64, timeout_minutes: u64) -> (r: String)
    requires
        expiry_in_range(now_secs as nat, timeout_minutes as nat),
    ensures
        formats_time((now_secs + timeout_minutes * 60) as nat, r@),
{
    chrono_from_secs(now_secs + timeout_minutes * 60)
}

/// Calls `SystemTime::now` and returns the whole seconds since the Unix
/// epoch (zero for a clock set before it). The value is the time of the
/// call, so nothing is stated of it.
#[verifier::external_body]
fn unix_now_secs() -> (r: u64) {
    std::time::SystemTime::now().duration_since(std::time::UNIX_EPOCH).unwrap_or_default().as_secs()
}

/// What an expiry `timeout_minutes` after `now_secs` comes to: its
/// timestamp when that moment can be formatted, none otherwise.
pub open spec fn expiry_outcome(now_secs: nat, timeout_minutes: nat, r: Option<String>) -> bool {
    match r {
        Some(t) => expiry_in_range(now_secs, timeout_minutes) && formats_time(now_secs + timeout_minutes * 60, t@),
        None => !expiry_in_range(now_secs, timeout_minutes),
    }
}

/// The timestamp `timeout_minutes` after `now_secs`, or none when that
/// moment lies beyond what the calendar conversion covers.
pub fn expiry_after(now_secs: u64, timeout_minutes: u64) -> (r: Option<String>)
    requires
        timeout_minutes * 60 <= u64::MAX,
    ensures
        expiry_outcome(now_secs as nat, timeout_minutes as nat, r),
{
    let span = timeout_minutes * 60;
    if span > u64::MAX - now_secs {
        return None;
    }
    let future = now_secs + span;
    let day = future / 86400;
    let day32 = day as u32;
    if day32 > u32::MAX - 719468 {
        return None;
    }
    assert(expiry_in_range(now_secs as nat, timeout_minutes as nat));
    Some(expires_at_from(now_secs, timeout_minutes))
}

/// The timestamp `timeout_minutes` from now, or none when that moment lies
/// beyond what the calendar conversion covers.
pub fn expires_at_string(timeout_minutes: u64) -> (r: Option<String>)
    requires
        timeout_minutes * 60 <= u64::MAX,
    ensures
        exists|now: nat| now <= u64::MAX && #[trigger] expiry_outcome(now, timeout_minutes as nat, r),
{
    let now = unix_now_secs();
    let r = expiry_after(now, timeout_minutes);
    assert(expiry_outcome(now as nat, timeout_minutes as nat, r));
    r
}

/// `text` is the timestamp of `secs` followed by ` UTC`.
pub open spec fn utc_text(secs: nat, text: Seq<char>) -> bool {
    exists|t: Seq<char>| #[trigger] formats_time(secs, t) && text == t + " UTC"@
}

/// Formats `secs` seconds after the Unix epoch as `YYYY-MM-DD HH:MM:SS UTC`.
pub fn utc_timestamp(secs: u64) -> (r: String)
    requires
        day_in_range(((secs / 86400) as u32) as int),
    ensures
        utc_text(secs as nat, r@),
{
    let t = chrono_from_secs(secs);
    let ghost tv = t@;
    let mut out = t;
    out.append(" UTC");
    assert(formats_time(secs as nat, tv));
    out
}

/// What formatting the moment `secs` comes to: its timestamp with ` UTC`
/// when its day lies in the calendar's range, none otherwise.
pub open spec fn utc_outcome(secs: nat, r: Option<String>) -> bool {
    match r {
        Some(t) => day_in_range(((secs / 86400) as u32) as int) && utc_text(secs, t@),
        None => !day_in_range(((secs / 86400) as u32) as int),
    }
}

/// `secs` as `YYYY-MM-DD HH:MM:SS UTC`, or none when its day lies beyond
/// what the calendar conversion covers.
pub fn utc_timestamp_checked(secs: u64) -> (r: Option<String>)
    ensures
        utc_outcome(secs as nat, r),
{
    let day32 = (secs / 86400) as u32;
    if day32 > u32::MAX - 719468 {
        return None;
    }
    Some(utc_timestamp(secs))
}

/// The current time as `YYYY-MM-DD HH:MM:SS UTC`, or none when the clock
/// reads beyond what the calendar conversion covers.
pub fn format_utc_now() -> (r: Option<String>)
    ensures
        exists|now: nat| now <= u64::MAX && #[trigger] utc_outcome(now, r),
{
    let now = unix_now_secs();
    let r = utc_timestamp_checked(now);
    assert(utc_outcome(now as nat, r));
    r
}

/// Expiry of a login session: one day from now, or none when that moment
/// lies beyond what the calendar conversion covers.
pub fn session_expires_at() -> (r: Option<String>)
    ensures
        exists|now: nat| now <= u64::MAX && #[trigger] expiry_outcome(now, 1440, r),
{
    expires_at_string(60 * 24)
}


proof fn lemma_year_step(y: int)
    requires
        y >= 1970,
    ensures
        days_before_year(y + 1) == days_before_year(y) + 365 + if is_leap(y) { 1int } else { 0int },
{
}

proof fn lemma_year_monotone(a: int, b: int)
    requires
        1970 <= a < b,
    ensures
        days_before_year(a + 1) <= days_before_year(b),
    decreases b - a,
{
    if a + 1 < b {
        lemma_year_monotone(a, b - 1);
        lemma_year_step(b - 1);
    }
}

/// The day of the year of a valid date is within the year, and a later
/// month starts after every day of an earlier one.
proof fn lemma_day_in_year(y: int, m1: int, d1: int, m2: int)
    requires
        1 <= m1 <= 12,
        1 <= d1 <= days_in_month(y, m1),
        1 <= m2 <= 12,
    ensures
        days_before_month(y, m1) + d1 - 1 < 365 + if is_leap(y) { 1int } else { 0int },
        m1 < m2 ==> days_before_month(y, m1) + d1 - 1 < days_before_month(y, m2),
{
}

/// `a` and `b` agree before position `i`, and `a` has the lower character
/// there.
pub open spec fn lt_at(a: Seq<char>, b: Seq<char>, i: int) -> bool {
    &&& 0 <= i < a.len()
    &&& i < b.len()
    &&& a.take(i) == b.take(i)
    &&& (a[i] as int) < (b[i] as int)
}

/// `a` sorts before `b` when text is compared character by character, a
/// proper prefix first: the order in which SQLite compares text values.
pub open spec fn text_lt(a: Seq<char>, b: Seq<char>) -> bool {
    ||| exists|i: int| #[trigger] lt_at(a, b, i)
    ||| (a.len() < b.len() && b.take(a.len() as int) == a)
}

proof fn lemma_lt_append(a: Seq<char>, b: Seq<char>, ra: Seq<char>, rb: Seq<char>, i: int)
    requires
        lt_at(a, b, i),
    ensures
        lt_at(a + ra, b + rb, i),
{
    assert((a + ra).take(i) =~= a.take(i));
    assert((b + rb).take(i) =~= b.take(i));
}

proof fn lemma_lt_after_equal(p: Seq<char>, a: Seq<char>, b: Seq<char>, i: int)
    requires
        lt_at(a, b, i),
    ensures
        lt_at(p + a, p + b, p.len() + i),
{
    assert((p + a).take(p.len() + i) =~= p + a.take(i));
    assert((p + b).take(p.len() + i) =~= p + b.take(i));
}

/// Of two digit strings of one length, the one of lower value sorts first,
/// and equal values are equal strings.
proof fn lemma_digits_order(a: Seq<char>, b: Seq<char>)
    requires
        a.len() == b.len(),
        forall|j: int| 0 <= j < a.len() ==> is_digit(#[trigger] a[j]),
        forall|j: int| 0 <= j < b.len() ==> is_digit(#[trigger] b[j]),
    ensures
        digits_value(a) == digits_value(b) ==> a == b,
        digits_value(a) < digits_value(b) ==> exists|i: int| #[trigger] lt_at(a, b, i),
    decreases a.len(),
{
    if a.len() == 0 {
        assert(a =~= b);
    } else {
        let a1 = a.drop_last();
        let b1 = b.drop_last();
        assert forall|j: int| 0 <= j < a1.len() implies is_digit(#[trigger] a1[j]) by {
            assert(a1[j] == a[j]);
        }
        assert forall|j: int| 0 <= j < b1.len() implies is_digit(#[trigger] b1[j]) by {
            assert(b1[j] == b[j]);
        }
        lemma_digits_order(a1, b1);
        let n = a.len() - 1;
        assert(is_digit(a[n]) && is_digit(b[n]));
        let da = a.last() as int - 48;
        let db = b.last() as int - 48;
        assert(digits_value(a) == digits_value(a1) * 10 + da);
        assert(digits_value(b) == digits_value(b1) * 10 + db);
        if digits_value(a1) < digits_value(b1) {
            let i = choose|i: int| #[trigger] lt_at(a1, b1, i);
            assert(a.take(i) =~= a1.take(i));
            assert(b.take(i) =~= b1.take(i));
            assert(a[i] == a1[i] && b[i] == b1[i]);
            assert(lt_at(a, b, i));
        } else if digits_value(a1) == digits_value(b1) {
            if digits_value(a) < digits_value(b) {
                assert(a.take(n) =~= a1);
                assert(b.take(n) =~= b1);
                assert(lt_at(a, b, n));
            }
            if digits_value(a) == digits_value(b) {
                assert(a =~= a1.push(a.last()));
                assert(b =~= b1.push(b.last()));
            }
        }
    }
}

/// A run of `0` characters has the value zero.
proof fn lemma_zeros_value(k: nat)
    ensures
        digits_value(Seq::new(k, |i: int| '0')) == 0,
    decreases k,
{
    if k > 0 {
        lemma_zeros_value((k - 1) as nat);
        assert(Seq::new(k, |i: int| '0').drop_last() =~= Seq::new((k - 1) as nat, |i: int| '0'));
    }
}

/// Leading zeros leave a digit string's value unchanged.
proof fn lemma_zeros_prefix_value(k: nat, d: Seq<char>)
    ensures
        digits_value(Seq::new(k, |i: int| '0') + d) == digits_value(d),
    decreases d.len(),
{
    let z = Seq::new(k, |i: int| '0');
    if d.len() == 0 {
        assert(z + d =~= z);
        lemma_zeros_value(k);
    } else {
        lemma_zeros_prefix_value(k, d.drop_last());
        assert((z + d).drop_last() =~= z + d.drop_last());
        assert((z + d).last() == d.last());
    }
}

/// A number below `10^w` (`w` of two or four) is written in exactly `w`
/// digits.
proof fn lemma_padded_digits(n: nat, w: nat)
    requires
        (w == 2 && n < 100) || (w == 4 && n < 10000),
    ensures
        dec_padded(n, w).len() == w,
        forall|j: int| 0 <= j < w ==> is_digit(#[trigger] dec_padded(n, w)[j]),
        digits_value(dec_padded(n, w)) == n,
{
    lemma_dec_len(n);
    lemma_dec_digits(n);
    let d = dec(n);
    if d.len() < w {
        let k = (w - d.len()) as nat;
        let z = Seq::new(k, |i: int| '0');
        lemma_zeros_prefix_value(k, d);
        assert forall|j: int| 0 <= j < w implies is_digit(#[trigger] dec_padded(n, w)[j]) by {
            if j >= k {
                assert(dec_padded(n, w)[j] == d[j - k]);
            }
        }
    }
}

/// Two numbers below `10^w`, written in `w` digits, sort as the numbers do.
proof fn lemma_field_order(n1: nat, n2: nat, w: nat)
    requires
        (w == 2 && n1 < 100 && n2 < 100) || (w == 4 && n1 < 10000 && n2 < 10000),
        n1 < n2,
    ensures
        exists|i: int| #[trigger] lt_at(dec_padded(n1, w), dec_padded(n2, w), i),
{
    lemma_padded_digits(n1, w);
    lemma_padded_digits(n2, w);
    lemma_digits_order(dec_padded(n1, w), dec_padded(n2, w));
}

/// The first `k` pieces of `ps`, joined.
pub open spec fn join_first(ps: Seq<Seq<char>>, k: nat) -> Seq<char>
    decreases k,
{
    if k == 0 {
        Seq::empty()
    } else {
        join_first(ps, (k - 1) as nat) + ps[k - 1]
    }
}

/// The pieces of a timestamp's text, in order.
pub open spec fn stamp_pieces(y: nat, mo: nat, d: nat, h: nat, mi: nat, s: nat) -> Seq<Seq<char>> {
    seq![dec_padded(y, 4), "-"@, dec_padded(mo, 2), "-"@, dec_padded(d, 2), " "@,
        dec_padded(h, 2), ":"@, dec_padded(mi, 2), ":"@, dec_padded(s, 2)]
}

proof fn lemma_stamp_pieces(y: nat, mo: nat, d: nat, h: nat, mi: nat, s: nat)
    ensures
        datetime_text(y, mo, d, h, mi, s) == join_first(stamp_pieces(y, mo, d, h, mi, s), 11),
{
    reveal_with_fuel(join_first, 12);
    let ps = stamp_pieces(y, mo, d, h, mi, s);
    assert(join_first(ps, 11) =~= datetime_text(y, mo, d, h, mi, s));
}

/// Equal leading pieces join to equal texts.
proof fn lemma_join_first_eq(ps1: Seq<Seq<char>>, ps2: Seq<Seq<char>>, k: nat)
    requires
        k <= ps1.len(),
        k <= ps2.len(),
        forall|j: int| 0 <= j < k ==> ps1[j] == ps2[j],
    ensures
        join_first(ps1, k) == join_first(ps2, k),
    decreases k,
{
    if k > 0 {
        lemma_join_first_eq(ps1, ps2, (k - 1) as nat);
    }
}

/// Once the joined pieces differ, joining more keeps the first in front.
proof fn lemma_join_first_lt(ps1: Seq<Seq<char>>, ps2: Seq<Seq<char>>, k: nat, n: nat, j: int)
    requires
        k <= n,
        lt_at(join_first(ps1, k), join_first(ps2, k), j),
    ensures
        lt_at(join_first(ps1, n), join_first(ps2, n), j),
    decreases n - k,
{
    if k < n {
        lemma_join_first_lt(ps1, ps2, k, (n - 1) as nat, j);
        lemma_lt_append(join_first(ps1, (n - 1) as nat), join_first(ps2, (n - 1) as nat), ps1[n - 1], ps2[n - 1], j);
    }
}

/// Texts made of pieces sort by the first piece in which they differ.
proof fn lemma_pieces_order(ps1: Seq<Seq<char>>, ps2: Seq<Seq<char>>, f: nat, n: nat, i: int)
    requires
        f < n,
        n <= ps1.len(),
        n <= ps2.len(),
        forall|j: int| 0 <= j < f ==> ps1[j] == ps2[j],
        lt_at(ps1[f as int], ps2[f as int], i),
    ensures
        exists|j: int| #[trigger] lt_at(join_first(ps1, n), join_first(ps2, n), j),
{
    lemma_join_first_eq(ps1, ps2, f);
    let p = join_first(ps1, f);
    lemma_lt_after_equal(p, ps1[f as int], ps2[f as int], i);
    assert(join_first(ps1, f + 1) == p + ps1[f as int]);
    assert(join_first(ps2, f + 1) == p + ps2[f as int]);
    lemma_join_first_lt(ps1, ps2, f + 1, n, p.len() + i);
}

/// A timestamp whose fields come earlier, compared from the year down to
/// the second, sorts before the other.
proof fn lemma_stamp_order(
    y1: nat, mo1: nat, d1: nat, h1: nat, mi1: nat, s1: nat,
    y2: nat, mo2: nat, d2: nat, h2: nat, mi2: nat, s2: nat,
)
    requires
        y1 < 10000 && y2 < 10000,
        mo1 < 100 && mo2 < 100 && d1 < 100 && d2 < 100,
        h1 < 100 && h2 < 100 && mi1 < 100 && mi2 < 100 && s1 < 100 && s2 < 100,
        y1 < y2 || (y1 == y2 && (mo1 < mo2 || (mo1 == mo2 && (d1 < d2 || (d1 == d2 && (h1 < h2
            || (h1 == h2 && (mi1 < mi2 || (mi1 == mi2 && s1 < s2))))))))),
    ensures
        text_lt(datetime_text(y1, mo1, d1, h1, mi1, s1), datetime_text(y2, mo2, d2, h2, mi2, s2)),
{
    let ps1 = stamp_pieces(y1, mo1, d1, h1, mi1, s1);
    let ps2 = stamp_pieces(y2, mo2, d2, h2, mi2, s2);
    lemma_stamp_pieces(y1, mo1, d1, h1, mi1, s1);
    lemma_stamp_pieces(y2, mo2, d2, h2, mi2, s2);
    let (f, a, b, w): (nat, nat, nat, nat) = if y1 != y2 {
        (0, y1, y2, 4)
    } else if mo1 != mo2 {
        (2, mo1, mo2, 2)
    } else if d1 != d2 {
        (4, d1, d2, 2)
    } else if h1 != h2 {
        (6, h1, h2, 2)
    } else if mi1 != mi2 {
        (8, mi1, mi2, 2)
    } else {
        (10, s1, s2, 2)
    };
    lemma_field_order(a, b, w);
    let i = choose|i: int| #[trigger] lt_at(dec_padded(a, w), dec_padded(b, w), i);
    assert(ps1[f as int] == dec_padded(a, w) && ps2[f as int] == dec_padded(b, w));
    assert forall|j: int| 0 <= j < f implies ps1[j] == ps2[j] by {}
    lemma_pieces_order(ps1, ps2, f, 11, i);
}

/// A day count has only one calendar date: the date `days_to_ymd` returns
/// is the date of that day.
pub proof fn law_date_unique(days: int, y1: int, m1: int, d1: int, y2: int, m2: int, d2: int)
    requires
        is_date_of(days, y1, m1, d1),
        is_date_of(days, y2, m2, d2),
    ensures
        y1 == y2 && m1 == m2 && d1 == d2,
{
    lemma_day_in_year(y1, m1, d1, m2);
    lemma_day_in_year(y2, m2, d2, m1);
    if y1 < y2 {
        lemma_year_step(y1);
        lemma_year_monotone(y1, y2);
    } else if y2 < y1 {
        lemma_year_step(y2);
        lemma_year_monotone(y2, y1);
    }
}


/// Of two days, the later one has the later date.
proof fn lemma_date_order(days1: int, y1: int, m1: int, d1: int, days2: int, y2: int, m2: int, d2: int)
    requires
        is_date_of(days1, y1, m1, d1),
        is_date_of(days2, y2, m2, d2),
        days1 < days2,
    ensures
        y1 < y2 || (y1 == y2 && (m1 < m2 || (m1 == m2 && d1 < d2))),
{
    lemma_day_in_year(y1, m1, d1, m2);
    lemma_day_in_year(y2, m2, d2, m1);
    if y2 < y1 {
        lemma_year_step(y2);
        lemma_year_monotone(y2, y1);
    }
}

/// Days before 10000-01-01 have dates of at most four-digit years.
proof fn lemma_four_digit_year(days: int, y: int, m: int, d: int)
    requires
        is_date_of(days, y, m, d),
        days < 2932897,
    ensures
        y < 10000,
{
    if y > 10000 {
        lemma_year_monotone(9999, y);
    }
}

/// The hour, minute and second of a time of day are within their ranges.
proof fn lemma_time_fields(t: int)
    requires
        0 <= t < 86400,
    ensures
        t / 3600 < 24,
        (t % 3600) / 60 < 60,
        t % 60 < 60,
{
}

/// Of two times of one day, the later one has the later hour, minute and
/// second, compared in that order.
proof fn lemma_time_order(t1: int, t2: int)
    requires
        0 <= t1 < t2 < 86400,
    ensures
        t1 / 3600 < t2 / 3600 || (t1 / 3600 == t2 / 3600 && ((t1 % 3600) / 60 < (t2 % 3600) / 60
            || ((t1 % 3600) / 60 == (t2 % 3600) / 60 && t1 % 60 < t2 % 60))),
{
}

/// Of two moments before the year 10000, the later one has the later date
/// and time of day, compared field by field from the year down.
proof fn lemma_moment_order(a: nat, b: nat, y1: nat, m1: nat, d1: nat, y2: nat, m2: nat, d2: nat)
    requires
        is_date_of(((a / 86400) as u32) as int, y1 as int, m1 as int, d1 as int),
        is_date_of(((b / 86400) as u32) as int, y2 as int, m2 as int, d2 as int),
        a < b,
        b < 253402300800,
    ensures
        y1 < 10000 && y2 < 10000 && m1 <= 12 && m2 <= 12 && d1 <= 31 && d2 <= 31,
        ({
            let (t1, t2) = (a % 86400, b % 86400);
            let (h1, mi1, s1) = (t1 / 3600, (t1 % 3600) / 60, t1 % 60);
            let (h2, mi2, s2) = (t2 / 3600, (t2 % 3600) / 60, t2 % 60);
            &&& h1 < 24 && h2 < 24 && mi1 < 60 && mi2 < 60 && s1 < 60 && s2 < 60
            &&& y1 < y2 || (y1 == y2 && (m1 < m2 || (m1 == m2 && (d1 < d2 || (d1 == d2 && (h1 < h2
                || (h1 == h2 && (mi1 < mi2 || (mi1 == mi2 && s1 < s2)))))))))
        }),
{
    let days1 = a / 86400;
    let days2 = b / 86400;
    let t1 = a % 86400;
    let t2 = b % 86400;
    assert(days1 <= days2 < 2932897 && a == 86400 * days1 + t1 && b == 86400 * days2 + t2
        && t1 < 86400 && t2 < 86400) by (nonlinear_arith)
        requires
            a < b,
            b < 253402300800,
            days1 == a / 86400,
            days2 == b / 86400,
            t1 == a % 86400,
            t2 == b % 86400,
    ;
    assert(((a / 86400) as u32) as int == days1);
    assert(((b / 86400) as u32) as int == days2);
    lemma_four_digit_year(days1 as int, y1 as int, m1 as int, d1 as int);
    lemma_four_digit_year(days2 as int, y2 as int, m2 as int, d2 as int);
    if days1 < days2 {
        lemma_date_order(days1 as int, y1 as int, m1 as int, d1 as int, days2 as int, y2 as int, m2 as int, d2 as int);
    } else {
        law_date_unique(days1 as int, y1 as int, m1 as int, d1 as int, y2 as int, m2 as int, d2 as int);
        lemma_time_order(t1 as int, t2 as int);
    }
    lemma_time_fields(t1 as int);
    lemma_time_fields(t2 as int);
}

/// Timestamps sort as the moments they stand for: of two moments before
/// the year 10000, the earlier one's text sorts first when compared
/// character by character, as SQLite compares text.
pub proof fn law_timestamps_sort(a: nat, ta: Seq<char>, b: nat, tb: Seq<char>)
    requires
        formats_time(a, ta),
        formats_time(b, tb),
        a < b,
        b < 253402300800,
    ensures
        text_lt(ta, tb),
{
    let (y1, m1, d1): (nat, nat, nat) = choose|y: nat, m: nat, d: nat|
        #![trigger timestamp_of(a, y, m, d)]
        is_date_of(((a / 86400) as u32) as int, y as int, m as int, d as int) && ta == timestamp_of(a, y, m, d);
    let (y2, m2, d2): (nat, nat, nat) = choose|y: nat, m: nat, d: nat|
        #![trigger timestamp_of(b, y, m, d)]
        is_date_of(((b / 86400) as u32) as int, y as int, m as int, d as int) && tb == timestamp_of(b, y, m, d);
    lemma_moment_order(a, b, y1, m1, d1, y2, m2, d2);
    let t1 = a % 86400;
    let t2 = b % 86400;
    lemma_stamp_order(y1, m1, d1, t1 / 3600, (t1 % 3600) / 60, t1 % 60,
        y2, m2, d2, t2 / 3600, (t2 % 3600) / 60, t2 % 60);
}

} // verus!
