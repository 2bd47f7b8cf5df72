//! Response and request finalisation: the `Date` line in IMF-fixdate form,
//! and the fields a message gets before it is written.

use vstd::prelude::*;
use crate::hsts::{HSTSPolicy, policy_text};
use crate::models::{Headers, Message, spec_major};
use crate::text::{lower_seq, push_char};

verus! {

/// Whether `year` of the proleptic Gregorian calendar is a leap year.
pub open spec fn is_leap_year(year: int) -> bool {
    year % 4 == 0 && (year % 100 != 0 || year % 400 == 0)
}

/// The days in `month` (1 to 12) of `year`.
pub open spec fn month_length(year: int, month: int) -> int {
    if month == 2 {
        if is_leap_year(year) { 29 } else { 28 }
    } else if month == 4 || month == 6 || month == 9 || month == 11 {
        30
    } else {
        31
    }
}

/// The days of a common year before the first of `month`.
pub open spec fn common_days_before(month: int) -> int {
    if month <= 1 { 0 }
    else if month == 2 { 31 }
    else if month == 3 { 59 }
    else if month == 4 { 90 }
    else if month == 5 { 120 }
    else if month == 6 { 151 }
    else if month == 7 { 181 }
    else if month == 8 { 212 }
    else if month == 9 { 243 }
    else if month == 10 { 273 }
    else if month == 11 { 304 }
    else { 334 }
}

/// The days of `year` before the first of `month`.
pub open spec fn days_before_month(year: int, month: int) -> int {
    common_days_before(month) + if month > 2 && is_leap_year(year) { 1int } else { 0int }
}

/// How many leap years there are from year 1 up to, not including, `year`
/// (negative before year 1).
pub open spec fn leap_years_before(year: int) -> int {
    (year - 1) / 4 - (year - 1) / 100 + (year - 1) / 400
}

/// The days from 1970-01-01 to the first of January of `year`.
pub open spec fn days_before_year(year: int) -> int {
    365 * (year - 1970) + leap_years_before(year) - leap_years_before(1970)
}

/// The day number, counted from 1970-01-01, of a civil date.
pub open spec fn days_from_civil(year: int, month: int, day: int) -> int {
    days_before_year(year) + days_before_month(year, month) + day - 1
}

/// Whether `(year, month, day)` names a day of the proleptic Gregorian calendar.
pub open spec fn valid_date(year: int, month: int, day: int) -> bool {
    1 <= month <= 12 && 1 <= day <= month_length(year, month)
}

/// Within an era of 400 March-based years, the year that day `doe` falls in,
/// and where that year starts.
proof fn lemma_year_of_era(doe: u32)
    requires
        doe < 146097,
    ensures
        ({
            let yoe = (doe - doe / 1460 + doe / 36524 - doe / 146096) / 365;
            &&& yoe < 400
            &&& 365 * yoe + yoe / 4 - yoe / 100 <= doe
            &&& doe < 365 * (yoe + 1) + (yoe + 1) / 4 - (yoe + 1) / 100 + (yoe + 1) / 400
        }),
{
    assert((doe - doe / 1460 + doe / 36524 - doe / 146096) / 365 < 400) by (bit_vector)
        requires
            doe < 146097,
    ;
    assert(365 * ((doe - doe / 1460 + doe / 36524 - doe / 146096) / 365) + ((doe - doe / 1460 + doe / 36524 - doe / 146096) / 365) / 4 - ((doe - doe / 1460 + doe / 36524 - doe / 146096) / 365) / 100 <= doe) by (bit_vector)
        requires
            doe < 146097,
    ;
    assert(doe < 365 * ((doe - doe / 1460 + doe / 36524 - doe / 146096) / 365 + 1) + ((doe - doe / 1460 + doe / 36524 - doe / 146096) / 365 + 1) / 4 - ((doe - doe / 1460 + doe / 36524 - doe / 146096) / 365 + 1) / 100 + ((doe - doe / 1460 + doe / 36524 - doe / 146096) / 365 + 1) / 400) by (bit_vector)
        requires
            doe < 146097,
    ;
}

/// Within a March-based year, the month that day `doy` falls in (0 for
/// March), and where that month starts.
proof fn lemma_month_of_year(doy: u32)
    requires
        doy < 366,
    ensures
        (5 * doy + 2) / 153 < 12,
        (153 * ((5 * doy + 2) / 153) + 2) / 5 <= doy,
        doy < (153 * ((5 * doy + 2) / 153 + 1) + 2) / 5,
{
    assert((5 * doy + 2) / 153 < 12) by (bit_vector)
        requires
            doy < 366,
    ;
    assert((153 * ((5 * doy + 2) / 153) + 2) / 5 <= doy) by (bit_vector)
        requires
            doy < 366,
    ;
    assert(doy < (153 * ((5 * doy + 2) / 153 + 1) + 2) / 5) by (bit_vector)
        requires
            doy < 366,
    ;
}

/// Leap years counted across whole eras of 400 years.
proof fn lemma_leap_years_of_era(era: int, yoe: int)
    requires
        0 <= yoe < 400,
    ensures
        leap_years_before(400 * era + yoe + 1) == 97 * era + yoe / 4 - yoe / 100,
        is_leap_year(400 * era + yoe + 1) == ((yoe + 1) % 4 == 0 && ((yoe + 1) % 100 != 0 || yoe == 399)),
        leap_years_before(1970) == 477,
{
    assert((400 * era + yoe) / 4 == 100 * era + yoe / 4) by (nonlinear_arith)
        requires
            0 <= yoe < 400,
    ;
    assert((400 * era + yoe) / 100 == 4 * era + yoe / 100) by (nonlinear_arith)
        requires
            0 <= yoe < 400,
    ;
    assert((400 * era + yoe) / 400 == era) by (nonlinear_arith)
        requires
            0 <= yoe < 400,
    ;
    assert((400 * era + yoe + 1) % 4 == (yoe + 1) % 4) by (nonlinear_arith)
        requires
            0 <= yoe < 400,
    ;
    assert((400 * era + yoe + 1) % 100 == (yoe + 1) % 100) by (nonlinear_arith)
        requires
            0 <= yoe < 400,
    ;
    assert((400 * era + yoe + 1) % 400 == (yoe + 1) % 400) by (nonlinear_arith)
        requires
            0 <= yoe < 400,
    ;
}

/// The start of month `mp` (0 for March) within a March-based year.
spec fn march_days_before(mp: int) -> int {
    (153 * mp + 2) / 5
}

/// Each leap year adds one to the count of leap years before the next.
proof fn lemma_leap_step(year: int)
    ensures
        leap_years_before(year + 1) == leap_years_before(year) + if is_leap_year(year) { 1int } else { 0int },
{
    assert(year / 4 - (year - 1) / 4 == if year % 4 == 0 { 1int } else { 0int }) by (nonlinear_arith);
    assert(year / 100 - (year - 1) / 100 == if year % 100 == 0 { 1int } else { 0int }) by (nonlinear_arith);
    assert(year / 400 - (year - 1) / 400 == if year % 400 == 0 { 1int } else { 0int }) by (nonlinear_arith);
    assert(year % 400 == 0 ==> year % 100 == 0 && year % 4 == 0) by (nonlinear_arith);
    assert(year % 100 == 0 ==> year % 4 == 0) by (nonlinear_arith);
}

/// The length of March-based year `yoe` of an era.
proof fn lemma_year_length(yoe: int)
    requires
        0 <= yoe < 400,
    ensures
        365 * (yoe + 1) + (yoe + 1) / 4 - (yoe + 1) / 100 + (yoe + 1) / 400 - (365 * yoe + yoe / 4 - yoe / 100)
            == 365 + if (yoe + 1) % 4 == 0 && ((yoe + 1) % 100 != 0 || yoe == 399) { 1int } else { 0int },
{
}

/// The civil date of day `doy` of March-based year `yoe` of `era` agrees with
/// the calendar's own count of days.
proof fn lemma_civil_date(era: int, yoe: int, doy: int, mp: int)
    requires
        0 <= yoe < 400,
        0 <= doy,
        doy < 365 * (yoe + 1) + (yoe + 1) / 4 - (yoe + 1) / 100 + (yoe + 1) / 400 - (365 * yoe + yoe / 4 - yoe / 100),
        0 <= mp < 12,
        march_days_before(mp) <= doy < march_days_before(mp + 1),
    ensures
        ({
            let day = doy - march_days_before(mp) + 1;
            let month = if mp < 10 { mp + 3 } else { mp - 9 };
            let year = 400 * era + yoe + if month <= 2 { 1int } else { 0int };
            &&& valid_date(year, month, day)
            &&& days_from_civil(year, month, day) == 146097 * era + 365 * yoe + yoe / 4 - yoe / 100 + doy - 719468
        }),
{
    let y = 400 * era + yoe;
    lemma_leap_years_of_era(era, yoe);
    lemma_leap_step(y);
    lemma_year_length(yoe);
    assert(march_days_before(0) == 0);
    assert(march_days_before(1) == 31);
    assert(march_days_before(2) == 61);
    assert(march_days_before(3) == 92);
    assert(march_days_before(4) == 122);
    assert(march_days_before(5) == 153);
    assert(march_days_before(6) == 184);
    assert(march_days_before(7) == 214);
    assert(march_days_before(8) == 245);
    assert(march_days_before(9) == 275);
    assert(march_days_before(10) == 306);
    assert(march_days_before(11) == 337);
    assert(march_days_before(12) == 367);
    let day = doy - march_days_before(mp) + 1;
    if mp < 10 {
        let month = mp + 3;
        assert(common_days_before(month) == march_days_before(mp) + 59);
        assert(day <= month_length(y, month));
        assert(days_before_year(y) == 365 * (y - 1970) + leap_years_before(y) - 477);
    } else {
        let month = mp - 9;
        assert(common_days_before(month) + 306 == march_days_before(mp));
        assert(day <= month_length(y + 1, month));
        assert(days_before_year(y + 1) == 365 * (y + 1 - 1970) + leap_years_before(y + 1) - 477);
    }
}

/// The civil date of day number `days`, counted from 1970-01-01, in the
/// proleptic Gregorian calendar: `(year, month, day)`.
#[verifier::spinoff_prover]
pub fn civil_from_days(days: i64) -> (date: (i64, u32, u32))
    requires
        days <= i64::MAX - 719468,
    ensures
        valid_date(date.0 as int, date.1 as int, date.2 as int),
        days_from_civil(date.0 as int, date.1 as int, date.2 as int) == days,
{
    let z: i64 = days + 719468;
    assert(i64::MIN + 146096 <= z);
    let era: i64 = if z >= 0 {
        (z as u64 / 146097) as i64
    } else {
        0 - (((146095 - z) as u64 + 1) / 146097) as i64
    };
    proof {
        lemma_era_split(z as int, era as int);
    }
    let doe: u32 = (z - era * 146097) as u32;
    proof {
        lemma_year_of_era(doe);
    }
    let yoe: u32 = (doe - doe / 1460 + doe / 36524 - doe / 146096) / 365;
    let doy: u32 = doe - (365 * yoe + yoe / 4 - yoe / 100);
    proof {
        lemma_month_of_year(doy);
    }
    let mp: u32 = (5 * doy + 2) / 153;
    let day: u32 = doy - (153 * mp + 2) / 5 + 1;
    let month: u32 = if mp < 10 { mp + 3 } else { mp - 9 };
    let year: i64 = yoe as i64 + era * 400;
    let date = (year + if month <= 2 { 1 } else { 0 }, month, day);
    proof {
        lemma_civil_date(era as int, yoe as int, doy as int, mp as int);
    }
    date
}

/// Splits a day count into whole eras of 146097 days and a remainder.
proof fn lemma_era_split(z: int, era: int)
    requires
        i64::MIN + 146096 <= z <= i64::MAX,
        z >= 0 ==> era == z / 146097,
        z < 0 ==> era == -((146096 - z) / 146097),
    ensures
        0 <= z - era * 146097 < 146097,
        -100000000000000 < era < 100000000000000,
{
    assert(0 <= z - era * 146097 < 146097) by (nonlinear_arith)
        requires
            z >= 0 ==> era == z / 146097,
            z < 0 ==> era == -((146096 - z) / 146097),
    ;
    assert(-100000000000000 < era < 100000000000000) by (nonlinear_arith)
        requires
            0 <= z - era * 146097 < 146097,
            i64::MIN + 146096 <= z <= i64::MAX,
    ;
}

/// The days of `year`.
pub open spec fn year_length(year: int) -> int {
    if is_leap_year(year) { 366 } else { 365 }
}

/// A year's first day comes a year's length after the previous one's.
proof fn lemma_days_before_year_step(year: int)
    ensures
        days_before_year(year + 1) == days_before_year(year) + year_length(year),
{
    lemma_leap_step(year);
}

/// A later year starts after the whole of an earlier one.
proof fn lemma_days_before_year_order(a: int, b: int)
    requires
        a < b,
    ensures
        days_before_year(a) + year_length(a) <= days_before_year(b),
    decreases b - a,
{
    lemma_days_before_year_step(a);
    if a + 1 < b {
        lemma_days_before_year_order(a + 1, b);
        lemma_days_before_year_step(a + 1);
    }
}

/// A valid date falls within its own year.
proof fn lemma_day_of_year(year: int, month: int, day: int)
    requires
        valid_date(year, month, day),
    ensures
        0 <= days_before_month(year, month) + day - 1 < year_length(year),
{
}

/// Within one year, a later month starts after the whole of an earlier one.
proof fn lemma_month_order(year: int, a: int, b: int)
    requires
        1 <= a < b <= 12,
    ensures
        days_before_month(year, a) + month_length(year, a) <= days_before_month(year, b),
{
}

/// A day number names one date only: two valid dates with the same day
/// number are the same date.
pub proof fn lemma_civil_unique(a: (int, int, int), b: (int, int, int))
    requires
        valid_date(a.0, a.1, a.2),
        valid_date(b.0, b.1, b.2),
        days_from_civil(a.0, a.1, a.2) == days_from_civil(b.0, b.1, b.2),
    ensures
        a == b,
{
    lemma_day_of_year(a.0, a.1, a.2);
    lemma_day_of_year(b.0, b.1, b.2);
    if a.0 < b.0 {
        lemma_days_before_year_order(a.0, b.0);
    } else if b.0 < a.0 {
        lemma_days_before_year_order(b.0, a.0);
    } else if a.1 < b.1 {
        lemma_month_order(a.0, a.1, b.1);
    } else if b.1 < a.1 {
        lemma_month_order(a.0, b.1, a.1);
    }
}

/// The civil date of day number `days`, counted from 1970-01-01.
pub open spec fn civil_date(days: int) -> (int, int, int) {
    choose|date: (int, int, int)| valid_date(date.0, date.1, date.2) && days_from_civil(date.0, date.1, date.2) == days
}

/// The length of an IMF-fixdate, such as `Sun, 06 Nov 1994 08:49:37 GMT`.
pub const DATE_LENGTH: usize = 29;

/// The abbreviated name of day `weekday` of the week, Sunday being 0.
pub open spec fn day_name(weekday: int) -> Seq<u8> {
    if weekday == 0 { seq![83u8, 117u8, 110u8] }
    else if weekday == 1 { seq![77u8, 111u8, 110u8] }
    else if weekday == 2 { seq![84u8, 117u8, 101u8] }
    else if weekday == 3 { seq![87u8, 101u8, 100u8] }
    else if weekday == 4 { seq![84u8, 104u8, 117u8] }
    else if weekday == 5 { seq![70u8, 114u8, 105u8] }
    else { seq![83u8, 97u8, 116u8] }
}

/// The abbreviated name of `month`, January being 1.
pub open spec fn month_name(month: int) -> Seq<u8> {
    if month == 1 { seq![74u8, 97u8, 110u8] }
    else if month == 2 { seq![70u8, 101u8, 98u8] }
    else if month == 3 { seq![77u8, 97u8, 114u8] }
    else if month == 4 { seq![65u8, 112u8, 114u8] }
    else if month == 5 { seq![77u8, 97u8, 121u8] }
    else if month == 6 { seq![74u8, 117u8, 110u8] }
    else if month == 7 { seq![74u8, 117u8, 108u8] }
    else if month == 8 { seq![65u8, 117u8, 103u8] }
    else if month == 9 { seq![83u8, 101u8, 112u8] }
    else if month == 10 { seq![79u8, 99u8, 116u8] }
    else if month == 11 { seq![78u8, 111u8, 118u8] }
    else { seq![68u8, 101u8, 99u8] }
}

/// The last two decimal digits of `value`, as ASCII.
pub open spec fn two_digit_text(value: int) -> Seq<u8> {
    seq![(48 + value / 10 % 10) as u8, (48 + value % 10) as u8]
}

/// `year` held to the four-digit range.
pub open spec fn clamp_year(year: int) -> int {
    if year < 0 { 0 } else if year > 9999 { 9999 } else { year }
}

/// The IMF-fixdate of `seconds` after the Unix epoch, as ASCII octets.
pub open spec fn imf_fixdate(seconds: int) -> Seq<u8> {
    let days = seconds / 86400;
    let rest = seconds % 86400;
    let date = civil_date(days);
    let year = clamp_year(date.0);
    day_name((days + 4) % 7) + seq![44u8, 32u8] + two_digit_text(date.2) + seq![32u8] + month_name(date.1)
        + seq![32u8] + two_digit_text(year / 100) + two_digit_text(year) + seq![32u8]
        + two_digit_text(rest / 3600) + seq![58u8] + two_digit_text(rest % 3600 / 60) + seq![58u8]
        + two_digit_text(rest % 60) + seq![32u8, 71u8, 77u8, 84u8]
}

/// The IMF-fixdate of `seconds` after the Unix epoch, as text.
pub open spec fn date_text(seconds: int) -> Seq<char> {
    imf_fixdate(seconds).map_values(|b: u8| b as char)
}

/// The last two decimal digits of `value`, as ASCII.
fn digit_pair(value: u64) -> (pair: (u8, u8))
    ensures
        seq![pair.0, pair.1] == two_digit_text(value as int),
{
    ((48 + value / 10 % 10) as u8, (48 + value % 10) as u8)
}

/// Writes the last two decimal digits of `value` to the front of `out`.
pub fn two_digits(value: u64, out: &mut [u8])
    requires
        old(out)@.len() >= 2,
    ensures
        final(out)@ == two_digit_text(value as int) + old(out)@.skip(2),
{
    let (tens, units) = digit_pair(value);
    out[0] = tens;
    out[1] = units;
    assert(out@ =~= two_digit_text(value as int) + old(out)@.skip(2));
}

/// The abbreviated name of day `weekday` of the week, Sunday being 0.
fn day_name_octets(weekday: u64) -> (name: (u8, u8, u8))
    requires
        weekday < 7,
    ensures
        seq![name.0, name.1, name.2] == day_name(weekday as int),
{
    match weekday {
        0 => (83u8, 117u8, 110u8),
        1 => (77u8, 111u8, 110u8),
        2 => (84u8, 117u8, 101u8),
        3 => (87u8, 101u8, 100u8),
        4 => (84u8, 104u8, 117u8),
        5 => (70u8, 114u8, 105u8),
        _ => (83u8, 97u8, 116u8),
    }
}

/// The abbreviated name of `month`, January being 1.
fn month_name_octets(month: u32) -> (name: (u8, u8, u8))
    requires
        1 <= month <= 12,
    ensures
        seq![name.0, name.1, name.2] == month_name(month as int),
{
    match month {
        1 => (74u8, 97u8, 110u8),
        2 => (70u8, 101u8, 98u8),
        3 => (77u8, 97u8, 114u8),
        4 => (65u8, 112u8, 114u8),
        5 => (77u8, 97u8, 121u8),
        6 => (74u8, 117u8, 110u8),
        7 => (74u8, 117u8, 108u8),
        8 => (65u8, 117u8, 103u8),
        9 => (83u8, 101u8, 112u8),
        10 => (79u8, 99u8, 116u8),
        11 => (78u8, 111u8, 118u8),
        _ => (68u8, 101u8, 99u8),
    }
}

/// Writes the IMF-fixdate of `unix_seconds` after the Unix epoch.
#[verifier::spinoff_prover]
#[verifier::rlimit(50)]
pub fn write_http_date(unix_seconds: u64, out: &mut [u8; 29])
    ensures
        final(out)@ == imf_fixdate(unix_seconds as int),
{
    let days: i64 = (unix_seconds / 86400) as i64;
    let seconds: u64 = unix_seconds % 86400;
    let weekday: u64 = (days as u64 + 4) % 7;
    let (year, month, day) = civil_from_days(days);
    proof {
        let date = civil_date(days as int);
        lemma_civil_unique((year as int, month as int, day as int), date);
    }
    let year: u64 = if year < 0 { 0 } else if year > 9999 { 9999 } else { year as u64 };
    let (d0, d1, d2) = day_name_octets(weekday);
    let (m0, m1, m2) = month_name_octets(month);
    let (day_tens, day_units) = digit_pair(day as u64);
    let (c_tens, c_units) = digit_pair(year / 100);
    let (y_tens, y_units) = digit_pair(year);
    let (h_tens, h_units) = digit_pair(seconds / 3600);
    let (n_tens, n_units) = digit_pair(seconds % 3600 / 60);
    let (s_tens, s_units) = digit_pair(seconds % 60);
    out[0] = d0;
    out[1] = d1;
    out[2] = d2;
    out[3] = 44u8;
    out[4] = 32u8;
    out[5] = day_tens;
    out[6] = day_units;
    out[7] = 32u8;
    out[8] = m0;
    out[9] = m1;
    out[10] = m2;
    out[11] = 32u8;
    out[12] = c_tens;
    out[13] = c_units;
    out[14] = y_tens;
    out[15] = y_units;
    out[16] = 32u8;
    out[17] = h_tens;
    out[18] = h_units;
    out[19] = 58u8;
    out[20] = n_tens;
    out[21] = n_units;
    out[22] = 58u8;
    out[23] = s_tens;
    out[24] = s_units;
    out[25] = 32u8;
    out[26] = 71u8;
    out[27] = 77u8;
    out[28] = 84u8;
    assert(out@ =~= imf_fixdate(unix_seconds as int));
}

/// A string of the characters these octets stand for, one each.
fn octets_to_string(octets: &[u8]) -> (out: String)
    ensures
        out@ == octets@.map_values(|b: u8| b as char),
{
    let mut out = String::new();
    let mut i: usize = 0;
    while i < octets.len()
        invariant
            i <= octets.len(),
            out@ == octets@.take(i as int).map_values(|b: u8| b as char),
        decreases octets.len() - i,
    {
        push_char(&mut out, octets[i] as char);
        assert(octets@.take(i + 1).map_values(|b: u8| b as char) =~= octets@.take(i as int).map_values(|b: u8| b as char).push(octets@[i as int] as char));
        i = i + 1;
    }
    assert(octets@.take(octets.len() as int) == octets@);
    out
}

/// The IMF-fixdate of `unix_seconds` after the Unix epoch, such as
/// `Sun, 06 Nov 1994 08:49:37 GMT`.
pub fn http_date(unix_seconds: u64) -> (out: String)
    ensures
        out@ == date_text(unix_seconds as int),
{
    let mut out = [0u8; 29];
    write_http_date(unix_seconds, &mut out);
    octets_to_string(&out)
}

/// The system clock's reading, as an opaque instant.
#[verifier::external_type_specification]
#[verifier::external_body]
pub struct ExSystemTime(std::time::SystemTime);

/// Reads the system clock.
///
/// Calls `SystemTime::now`; nothing is promised of the reading.
#[verifier::external_body]
fn system_now() -> std::time::SystemTime {
    std::time::SystemTime::now()
}

/// The whole seconds from the Unix epoch to `at`, or `None` for an instant
/// before the epoch.
///
/// Calls `SystemTime::duration_since` with `UNIX_EPOCH` and takes the whole
/// seconds of the span; nothing is promised of the number.
#[verifier::external_body]
fn seconds_since_epoch(at: &std::time::SystemTime) -> Option<u64> {
    match at.duration_since(std::time::UNIX_EPOCH) {
        Ok(elapsed) => Some(elapsed.as_secs()),
        Err(_) => None,
    }
}

/// The `Date` field value of the current second, rendered once a second
/// and reused until the clock moves on.
pub struct DateCache {
    cached: u64,
    octets: [u8; 29],
}

impl DateCache {
    /// Either nothing has been rendered yet, or the octets are the date of
    /// the cached second.
    #[verifier::type_invariant]
    spec fn rendered(&self) -> bool {
        self.octets@[0] == 0 || self.octets@ == imf_fixdate(self.cached as int)
    }

    /// The second whose date the cache holds, if it holds one.
    pub closed spec fn holds(&self) -> Option<u64> {
        if self.octets@[0] == 0 { None } else { Some(self.cached) }
    }

    /// A cache with nothing rendered yet.
    pub fn new() -> (cache: DateCache)
        ensures
            cache.holds() is None,
    {
        DateCache { cached: 0, octets: [0u8; 29] }
    }

    /// The IMF-fixdate of `seconds` after the Unix epoch, rendered afresh
    /// only when the second differs from the one last rendered.
    pub fn at(&mut self, seconds: u64) -> (out: String)
        ensures
            out@ == date_text(seconds as int),
            final(self).holds() == Some(seconds),
    {
        proof {
            use_type_invariant(&*self);
        }
        if self.cached != seconds || self.octets[0] == 0 {
            let mut octets = [0u8; 29];
            write_http_date(seconds, &mut octets);
            *self = DateCache { cached: seconds, octets };
        }
        proof {
            use_type_invariant(&*self);
            assert(self.octets@[0] != 0);
        }
        octets_to_string(&self.octets)
    }

    /// The IMF-fixdate of the current second on the system clock, or of the
    /// epoch when the clock reads before it.
    pub fn now(&mut self) -> (out: String)
        ensures
            exists|seconds: u64| out@ == date_text(seconds as int) && final(self).holds() == Some(seconds),
    {
        let now = system_now();
        let seconds = match seconds_since_epoch(&now) {
            Some(seconds) => seconds,
            None => 0,
        };
        self.at(seconds)
    }
}

impl Default for DateCache {
    fn default() -> (cache: DateCache)
        ensures
            cache.holds() is None,
    {
        DateCache::new()
    }
}

/// Whether a field is stored under `name`.
pub open spec fn has_field(fields: Seq<(Seq<char>, Seq<char>)>, name: Seq<char>) -> bool {
    exists|i: int| 0 <= i < fields.len() && fields[i].0 == name
}

/// `fields` with `(name, value)` added unless a field of that name is there.
pub open spec fn add_missing(fields: Seq<(Seq<char>, Seq<char>)>, name: Seq<char>, value: Seq<char>) -> Seq<(Seq<char>, Seq<char>)> {
    if has_field(fields, name) { fields } else { fields.push((name, value)) }
}

/// The name of the `Date` field.
pub open spec fn date_name() -> Seq<char> {
    seq!['d', 'a', 't', 'e']
}

/// The name of the `Server` field.
pub open spec fn server_name() -> Seq<char> {
    seq!['s', 'e', 'r', 'v', 'e', 'r']
}

/// The value of the `Server` field.
pub open spec fn server_value() -> Seq<char> {
    seq!['S', 'o', 'y', 'o', 'k', 'a', 'z', 'e']
}

/// The name of the `Strict-Transport-Security` field.
pub open spec fn sts_name() -> Seq<char> {
    seq!['s', 't', 'r', 'i', 'c', 't', '-', 't', 'r', 'a', 'n', 's', 'p', 'o', 'r', 't', '-', 's', 'e', 'c', 'u', 'r', 'i', 't', 'y']
}

/// The name of the `Host` field.
pub open spec fn host_name() -> Seq<char> {
    seq!['h', 'o', 's', 't']
}

/// The fields of a message, none when it has no field section.
pub open spec fn fields_of(headers: Option<Headers>) -> Seq<(Seq<char>, Seq<char>)> {
    match headers {
        Some(h) => h@,
        None => Seq::empty(),
    }
}

/// Whether a response is final, and so gets finalised: it has a status
/// code of at least 200.
pub open spec fn is_final_response(message: Message) -> bool {
    message.status_code is Some && message.status_code.unwrap() >= 200
}

/// The fields a final response leaves with: a `Date` of `date`, a `Server`,
/// and, over a secure transport with a policy, `Strict-Transport-Security`;
/// each only where the response has no such field already.
pub open spec fn response_fields(fields: Seq<(Seq<char>, Seq<char>)>, date: Seq<char>, hsts: Option<HSTSPolicy>, secure: bool) -> Seq<(Seq<char>, Seq<char>)> {
    let dated = add_missing(fields, date_name(), date);
    let served = add_missing(dated, server_name(), server_value());
    match hsts {
        Some(policy) => if secure { add_missing(served, sts_name(), policy_text(policy)) } else { served },
        None => served,
    }
}

/// The policy handed in, if any.
pub open spec fn given_policy(hsts: Option<&HSTSPolicy>) -> Option<HSTSPolicy> {
    match hsts {
        Some(policy) => Some(*policy),
        None => None,
    }
}

/// Whether `after` is `before` with only its field section replaced.
pub open spec fn same_but_fields(after: Message, before: Message) -> bool {
    &&& after.version == before.version
    &&& after.method == before.method
    &&& after.status_code == before.status_code
    &&& after.target == before.target
    &&& after.secure == before.secure
}

/// The field section of `message`, created empty when there is none.
fn fields_mut(message: &mut Message) -> (headers: &mut Headers)
    ensures
        headers@ == fields_of(old(message).headers),
        same_but_fields(*final(message), *old(message)),
        final(message).headers == Some(*final(headers)),
{
    message.headers.get_or_insert(Headers::new())
}

/// Adds `(name, value)` unless a field of that name is there.
fn add_if_missing(headers: &mut Headers, name: &str, value: String)
    requires
        lower_seq(name@) == name@,
    ensures
        final(headers)@ == add_missing(old(headers)@, name@, value@),
{
    if !headers.contains(name) {
        headers.append_lowercase(name, value);
    }
}

/// Gives a final response the fields every response should carry: `Date`
/// of `date`, `Server`, and `Strict-Transport-Security` when the response
/// travels over a secure transport and a policy is given. A field the
/// response already has is left alone, and an interim (1xx) response or a
/// request is not touched at all.
pub fn finalize_response_at(message: &mut Message, date: String, hsts: Option<&HSTSPolicy>)
    ensures
        same_but_fields(*final(message), *old(message)),
        is_final_response(*old(message)) ==> final(message).headers is Some
            && fields_of(final(message).headers) == response_fields(fields_of(old(message).headers), date@, given_policy(hsts), old(message).secure),
        !is_final_response(*old(message)) ==> *final(message) == *old(message),
{
    if !message.is_response() {
        return;
    }
    let status = match message.status_code {
        Some(code) => code,
        None => 0,
    };
    if status < 200 {
        return;
    }
    let secure = message.secure;
    let headers = fields_mut(message);
    proof {
        reveal_strlit("date");
        reveal_strlit("server");
        reveal_strlit("Soyokaze");
        reveal_strlit("strict-transport-security");
        assert("date"@ == date_name());
        assert("server"@ == server_name());
        assert("Soyokaze"@ == server_value());
        assert("strict-transport-security"@ == sts_name());
        assert(lower_seq("date"@) == "date"@);
        assert(lower_seq("server"@) == "server"@);
        assert(lower_seq("strict-transport-security"@) == "strict-transport-security"@);
    }
    add_if_missing(headers, "date", date);
    add_if_missing(headers, "server", String::from_str("Soyokaze"));
    match hsts {
        Some(policy) => {
            if secure {
                add_if_missing(headers, "strict-transport-security", policy.build());
            }
        },
        None => {},
    }
}

/// Gives a final response the fields every response should carry, with a
/// `Date` of the current second; see [`finalize_response_at`].
pub fn finalize_response(message: &mut Message, date: &mut DateCache, hsts: Option<&HSTSPolicy>)
    ensures
        same_but_fields(*final(message), *old(message)),
        is_final_response(*old(message)) ==> final(message).headers is Some
            && exists|seconds: u64| fields_of(final(message).headers) == response_fields(fields_of(old(message).headers), date_text(seconds as int), given_policy(hsts), old(message).secure),
        !is_final_response(*old(message)) ==> *final(message) == *old(message),
{
    let text = date.now();
    finalize_response_at(message, text, hsts);
}

/// Gives an HTTP/1 request the `Host` field, of `authority`, unless it has
/// one. Other messages are not touched.
pub fn finalize_request(message: &mut Message, authority: &str)
    ensures
        same_but_fields(*final(message), *old(message)),
        old(message).method is Some && spec_major(old(message).version) == 1 ==> final(message).headers is Some
            && fields_of(final(message).headers) == add_missing(fields_of(old(message).headers), host_name(), authority@),
        !(old(message).method is Some && spec_major(old(message).version) == 1) ==> *final(message) == *old(message),
{
    if !message.is_request() || message.version.major() != 1 {
        return;
    }
    let headers = fields_mut(message);
    proof {
        reveal_strlit("host");
        assert("host"@ == host_name());
        assert(lower_seq("host"@) == "host"@);
    }
    add_if_missing(headers, "host", String::from_str(authority));
}

/// Adding a field that is missing makes it present; a field already there
/// stays.
proof fn lemma_add_missing_has(fields: Seq<(Seq<char>, Seq<char>)>, name: Seq<char>, value: Seq<char>, other: Seq<char>)
    ensures
        has_field(add_missing(fields, name, value), name),
        has_field(fields, other) ==> has_field(add_missing(fields, name, value), other),
{
    let added = add_missing(fields, name, value);
    if !has_field(fields, name) {
        assert(added[fields.len() as int].0 == name);
    }
    if has_field(fields, other) {
        let i = choose|i: int| 0 <= i < fields.len() && fields[i].0 == other;
        assert(added[i].0 == other);
    }
}

/// Finalising a response twice adds nothing the second time, whatever date
/// the second pass would have used.
pub proof fn law_finalize_response_idempotent(fields: Seq<(Seq<char>, Seq<char>)>, date: Seq<char>, later: Seq<char>, hsts: Option<HSTSPolicy>, secure: bool)
    ensures
        response_fields(response_fields(fields, date, hsts, secure), later, hsts, secure) == response_fields(fields, date, hsts, secure),
{
    let dated = add_missing(fields, date_name(), date);
    let served = add_missing(dated, server_name(), server_value());
    let once = response_fields(fields, date, hsts, secure);
    lemma_add_missing_has(fields, date_name(), date, date_name());
    lemma_add_missing_has(dated, server_name(), server_value(), date_name());
    lemma_add_missing_has(dated, server_name(), server_value(), server_name());
    match hsts {
        Some(policy) => {
            if secure {
                lemma_add_missing_has(served, sts_name(), policy_text(policy), date_name());
                lemma_add_missing_has(served, sts_name(), policy_text(policy), server_name());
                lemma_add_missing_has(served, sts_name(), policy_text(policy), sts_name());
            }
        },
        None => {},
    }
    assert(has_field(once, date_name()));
    assert(has_field(once, server_name()));
}

/// Finalising a response keeps every field it had, in place, and only adds
/// after them.
pub proof fn law_finalize_response_keeps_fields(fields: Seq<(Seq<char>, Seq<char>)>, date: Seq<char>, hsts: Option<HSTSPolicy>, secure: bool)
    ensures
        response_fields(fields, date, hsts, secure).len() >= fields.len(),
        response_fields(fields, date, hsts, secure).take(fields.len() as int) == fields,
{
    let dated = add_missing(fields, date_name(), date);
    let served = add_missing(dated, server_name(), server_value());
    let once = response_fields(fields, date, hsts, secure);
    assert(dated.take(fields.len() as int) == fields);
    assert(served.take(dated.len() as int) == dated);
    assert(once.take(served.len() as int) == served);
    assert(once.take(fields.len() as int) == fields);
}

/// An HTTP date opens with the English abbreviation of its weekday: the
/// first day of the Unix epoch, 1970-01-01, was a Thursday, and every day
/// after it moves one name along Thursday, Friday, Saturday, Sunday, Monday,
/// Tuesday, Wednesday.
pub proof fn law_http_date_names_the_weekday(unix_seconds: u64)
    ensures
        ({
            let day = unix_seconds as int / 86400;
            let name = date_text(unix_seconds as int).take(3);
            &&& day % 7 == 0 ==> name == seq!['T', 'h', 'u']
            &&& day % 7 == 1 ==> name == seq!['F', 'r', 'i']
            &&& day % 7 == 2 ==> name == seq!['S', 'a', 't']
            &&& day % 7 == 3 ==> name == seq!['S', 'u', 'n']
            &&& day % 7 == 4 ==> name == seq!['M', 'o', 'n']
            &&& day % 7 == 5 ==> name == seq!['T', 'u', 'e']
            &&& day % 7 == 6 ==> name == seq!['W', 'e', 'd']
        }),
{
    let seconds = unix_seconds as int;
    let day = seconds / 86400;
    let octets = imf_fixdate(seconds);
    let weekday = (day + 4) % 7;
    assert(octets.take(3) == day_name(weekday));
    let name = date_text(seconds).take(3);
    assert(name == day_name(weekday).map_values(|b: u8| b as char));
    assert(day % 7 == 0 ==> weekday == 4);
    assert(day % 7 == 1 ==> weekday == 5);
    assert(day % 7 == 2 ==> weekday == 6);
    assert(day % 7 == 3 ==> weekday == 0);
    assert(day % 7 == 4 ==> weekday == 1);
    assert(day % 7 == 5 ==> weekday == 2);
    assert(day % 7 == 6 ==> weekday == 3);
}

/// An HTTP date names its month in English after the day of the month:
/// January to December as Jan, Feb, Mar, Apr, May, Jun, Jul, Aug, Sep, Oct,
/// Nov, Dec.
pub proof fn law_http_date_names_the_month(unix_seconds: u64)
    ensures
        ({
            let month = civil_date(unix_seconds as int / 86400).1;
            let name = date_text(unix_seconds as int).subrange(8, 11);
            &&& month == 1 ==> name == seq!['J', 'a', 'n']
            &&& month == 2 ==> name == seq!['F', 'e', 'b']
            &&& month == 3 ==> name == seq!['M', 'a', 'r']
            &&& month == 4 ==> name == seq!['A', 'p', 'r']
            &&& month == 5 ==> name == seq!['M', 'a', 'y']
            &&& month == 6 ==> name == seq!['J', 'u', 'n']
            &&& month == 7 ==> name == seq!['J', 'u', 'l']
            &&& month == 8 ==> name == seq!['A', 'u', 'g']
            &&& month == 9 ==> name == seq!['S', 'e', 'p']
            &&& month == 10 ==> name == seq!['O', 'c', 't']
            &&& month == 11 ==> name == seq!['N', 'o', 'v']
            &&& month == 12 ==> name == seq!['D', 'e', 'c']
        }),
{
    let seconds = unix_seconds as int;
    let days = seconds / 86400;
    let date = civil_date(days);
    let octets = imf_fixdate(seconds);
    assert(octets.subrange(8, 11) == month_name(date.1));
    let name = date_text(seconds).subrange(8, 11);
    assert(name == month_name(date.1).map_values(|b: u8| b as char));
}

} // verus!
