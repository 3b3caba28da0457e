//! Days, civil dates and the text form in which dates are compared.

use crate::text;
use vstd::arithmetic::div_mod::*;
use vstd::prelude::*;
use vstd::utf8::*;

verus! {

// ----- the proleptic Gregorian calendar ------------------------------------

/// Every fourth year is a leap year, except the centuries that 400 does not divide.
pub open spec fn is_leap(year: int) -> bool {
    year % 4 == 0 && (year % 100 != 0 || year % 400 == 0)
}

pub open spec fn days_in_year(year: int) -> int {
    if is_leap(year) {
        366
    } else {
        365
    }
}

pub open spec fn days_in_month(year: int, month: int) -> int {
    if month == 2 {
        if is_leap(year) {
            29
        } else {
            28
        }
    } else if month == 4 || month == 6 || month == 9 || month == 11 {
        30
    } else {
        31
    }
}

/// Whether the calendar has this date.
pub open spec fn valid_date(year: int, month: int, day: int) -> bool {
    1 <= month <= 12 && 1 <= day <= days_in_month(year, month)
}

/// Leap years from year 1 up to and including `year`.
pub open spec fn leap_years(year: int) -> int {
    year / 4 - year / 100 + year / 400
}

/// Days from 1 January 1970 to 1 January of `year`.
pub open spec fn days_before_year(year: int) -> int {
    365 * (year - 1970) + leap_years(year - 1) - leap_years(1969)
}

/// Days from 1 January to the first day of `month`.
pub open spec fn days_before_month(year: int, month: int) -> int
    decreases month,
{
    if month <= 1 {
        0
    } else {
        days_before_month(year, month - 1) + days_in_month(year, month - 1)
    }
}

/// The number of a date, counted in days from 1 January 1970.
pub open spec fn day_number(year: int, month: int, day: int) -> int {
    days_before_year(year) + days_before_month(year, month) + day - 1
}

/// The date whose day number is `z`.
pub open spec fn civil(z: int) -> (int, int, int) {
    choose|date: (int, int, int)|
        valid_date(date.0, date.1, date.2) && #[trigger] day_number(date.0, date.1, date.2) == z
}

/// Years follow each other without a gap, and 1970 begins on day 0.
pub proof fn year_follows_year(year: int)
    ensures
        days_before_year(1970) == 0,
        days_before_year(year + 1) == days_before_year(year) + days_in_year(year),
        days_before_month(year, 13) == days_in_year(year),
{
    reveal_with_fuel(days_before_month, 14);
}

proof fn month_offsets(year: int)
    ensures
        days_before_month(year, 1) == 0,
        days_before_month(year, 2) == 31,
        days_before_month(year, 3) == days_in_year(year) - 306,
        days_before_month(year, 4) == days_in_year(year) - 275,
        days_before_month(year, 5) == days_in_year(year) - 245,
        days_before_month(year, 6) == days_in_year(year) - 214,
        days_before_month(year, 7) == days_in_year(year) - 184,
        days_before_month(year, 8) == days_in_year(year) - 153,
        days_before_month(year, 9) == days_in_year(year) - 122,
        days_before_month(year, 10) == days_in_year(year) - 92,
        days_before_month(year, 11) == days_in_year(year) - 61,
        days_before_month(year, 12) == days_in_year(year) - 31,
{
    reveal_with_fuel(days_before_month, 14);
}

/// A later date has a larger day number.
pub proof fn dates_ascend(y1: int, m1: int, d1: int, y2: int, m2: int, d2: int)
    requires
        valid_date(y1, m1, d1),
        valid_date(y2, m2, d2),
        y1 < y2 || (y1 == y2 && (m1 < m2 || (m1 == m2 && d1 < d2))),
    ensures
        day_number(y1, m1, d1) < day_number(y2, m2, d2),
{
    month_offsets(y1);
    month_offsets(y2);
    if y1 < y2 {
        year_follows_year(y1);
        assert(days_before_year(y1 + 1) <= days_before_year(y2));
    }
}

/// Each date is the only one with its day number.
pub proof fn civil_inverts_day_number(year: int, month: int, day: int)
    requires
        valid_date(year, month, day),
    ensures
        civil(day_number(year, month, day)) == (year, month, day),
{
    let z = day_number(year, month, day);
    let date = (year, month, day);
    assert(valid_date(date.0, date.1, date.2) && day_number(date.0, date.1, date.2) == z);
    let (y, m, d) = civil(z);
    if (y, m, d) != (year, month, day) {
        if y < year || (y == year && (m < month || (m == month && d < day))) {
            dates_ascend(y, m, d, year, month, day);
        } else {
            dates_ascend(year, month, day, y, m, d);
        }
    }
}

/// In a cycle of 400 years that begins on 1 March, day `doe` lies in year `yoe`.
#[verifier::spinoff_prover]
#[verifier::rlimit(50)]
proof fn year_of_era(doe: int, yoe: int)
    requires
        0 <= doe <= 146_096,
        yoe == (doe - doe / 1460 + doe / 36_524 - doe / 146_096) / 365,
    ensures
        0 <= yoe <= 399,
        0 <= doe - (365 * yoe + yoe / 4 - yoe / 100) <= 365,
        doe - (365 * yoe + yoe / 4 - yoe / 100) == 365 ==> is_leap(yoe + 1),
{
}

/// In a year that begins on 1 March, day `doy` lies in month `mp`, counted from 0.
proof fn month_of_year(doy: int, mp: int)
    requires
        0 <= doy <= 365,
        mp == (5 * doy + 2) / 153,
    ensures
        0 <= mp <= 11,
        mp == 0 ==> 0 <= doy < 31,
        mp == 1 ==> 31 <= doy < 61,
        mp == 2 ==> 61 <= doy < 92,
        mp == 3 ==> 92 <= doy < 122,
        mp == 4 ==> 122 <= doy < 153,
        mp == 5 ==> 153 <= doy < 184,
        mp == 6 ==> 184 <= doy < 214,
        mp == 7 ==> 214 <= doy < 245,
        mp == 8 ==> 245 <= doy < 275,
        mp == 9 ==> 275 <= doy < 306,
        mp == 10 ==> 306 <= doy < 337,
        mp == 11 ==> 337 <= doy,
{
}

/// Leap years repeat with each cycle of 400 years.
proof fn leap_cycle(era: int, year: int)
    ensures
        (year + era * 400) / 4 == year / 4 + 100 * era,
        (year + era * 400) / 100 == year / 100 + 4 * era,
        (year + era * 400) / 400 == year / 400 + era,
        is_leap(year + era * 400) == is_leap(year),
{
    lemma_hoist_over_denominator(year, 100 * era, 4);
    lemma_hoist_over_denominator(year, 4 * era, 100);
    lemma_hoist_over_denominator(year, era, 400);
    lemma_mod_multiples_vanish(100 * era, year, 4);
    lemma_mod_multiples_vanish(4 * era, year, 100);
    lemma_mod_multiples_vanish(era, year, 400);
}

/// The day numbers of a year that begins on 1 March of year `yoe` of cycle `era`.
proof fn march_year(era: int, yoe: int)
    requires
        0 <= yoe <= 399,
    ensures
        days_before_year(yoe + era * 400) + days_in_year(yoe + era * 400) - 306 == 146_097 * era
            + 365 * yoe + yoe / 4 - yoe / 100 - 719_468,
        days_before_year(yoe + era * 400 + 1) == 146_097 * era + 365 * yoe + yoe / 4 - yoe / 100
            - 719_468 + 306,
        is_leap(yoe + era * 400 + 1) == is_leap(yoe + 1),
{
    year_follows_year(yoe + era * 400);
    leap_cycle(era, yoe);
    leap_cycle(era, yoe + 1);
}

/// Day `z` as a date, reckoned in years that begin on 1 March.
proof fn date_from_march(z: int, era: int, doe: int, yoe: int, doy: int, mp: int)
    requires
        era == (z + 719_468) / 146_097,
        doe == z + 719_468 - era * 146_097,
        yoe == (doe - doe / 1460 + doe / 36_524 - doe / 146_096) / 365,
        doy == doe - (365 * yoe + yoe / 4 - yoe / 100),
        mp == (5 * doy + 2) / 153,
    ensures
        0 <= doe <= 146_096,
        0 <= yoe <= 399,
        0 <= doy <= 365,
        0 <= mp <= 11,
        ({
            let m = if mp < 10 { mp + 3 } else { mp - 9 };
            let y = yoe + era * 400 + if m <= 2 { 1int } else { 0 };
            let d = doy - (153 * mp + 2) / 5 + 1;
            &&& valid_date(y, m, d)
            &&& day_number(y, m, d) == z
            &&& civil(z) == (y, m, d)
        }),
{
    year_of_era(doe, yoe);
    month_of_year(doy, mp);
    march_year(era, yoe);
    let m = if mp < 10 { mp + 3 } else { mp - 9 };
    let y = yoe + era * 400 + if m <= 2 { 1int } else { 0 };
    let d = doy - (153 * mp + 2) / 5 + 1;
    month_offsets(y);
    assert(valid_date(y, m, d));
    assert(day_number(y, m, d) == z);
    civil_inverts_day_number(y, m, d);
}

/// The calendar has a date for every day number.
pub proof fn every_day_has_a_date(z: int)
    ensures
        valid_date(civil(z).0, civil(z).1, civil(z).2),
        day_number(civil(z).0, civil(z).1, civil(z).2) == z,
{
    let era = (z + 719_468) / 146_097;
    let doe = (z + 719_468) - era * 146_097;
    let yoe = (doe - doe / 1460 + doe / 36_524 - doe / 146_096) / 365;
    let doy = doe - (365 * yoe + yoe / 4 - yoe / 100);
    let mp = (5 * doy + 2) / 153;
    date_from_march(z, era, doe, yoe, doy, mp);
}

/// Civil date (year, month, day) from a day number relative to the Unix
/// epoch, by Howard Hinnant's algorithm.
pub fn civil_from_days(z: i64) -> (date: (i64, u32, u32))
    requires
        z + 719_468 <= i64::MAX,
    ensures
        valid_date(date.0 as int, date.1 as int, date.2 as int),
        day_number(date.0 as int, date.1 as int, date.2 as int) == z,
        civil(z as int) == (date.0 as int, date.1 as int, date.2 as int),
{
    let ghost day = z as int;
    let z: i64 = z + 719_468;
    let era: i64 = (if z >= 0 { z } else { z - 146_096 }) / 146_097;
    assert(era == (day + 719_468) / 146_097);
    let doe: i64 = z - era * 146_097;
    assert(0 <= doe <= 146_096);
    let yoe: i64 = (doe - doe / 1460 + doe / 36_524 - doe / 146_096) / 365;
    proof {
        year_of_era(doe as int, yoe as int);
    }
    let y: i64 = yoe + era * 400;
    let doy: i64 = doe - (365 * yoe + yoe / 4 - yoe / 100);
    let mp: i64 = (5 * doy + 2) / 153;
    proof {
        date_from_march(day, era as int, doe as int, yoe as int, doy as int, mp as int);
    }
    let d: u32 = (doy - (153 * mp + 2) / 5 + 1) as u32;
    let m: u32 = (if mp < 10 { mp + 3 } else { mp - 9 }) as u32;
    (y + if m <= 2 { 1 } else { 0 }, m, d)
}

// ----- the clock ------------------------------------------------------------

/// `SystemTime::elapsed` of the Unix epoch, as a number of whole seconds, or
/// `None` where the clock stands before the epoch. Nothing is claimed of the
/// reading.
#[verifier::external_body]
fn clock() -> (elapsed: Option<u64>) {
    match std::time::UNIX_EPOCH.elapsed() {
        Ok(elapsed) => Some(elapsed.as_secs()),
        Err(_) => None,
    }
}

/// A clock reading as a signed number of seconds: 0 before the epoch, and
/// beyond the signed range the value of the same 64 bits.
pub open spec fn epoch_value(elapsed: Option<u64>) -> int {
    match elapsed {
        Some(secs) => if secs <= i64::MAX {
            secs as int
        } else {
            secs - 0x1_0000_0000_0000_0000
        },
        None => 0,
    }
}

/// The seconds that a clock reading stands for.
pub fn epoch_secs(elapsed: Option<u64>) -> (secs: i64)
    ensures
        secs == epoch_value(elapsed),
{
    match elapsed {
        Some(secs) => {
            assert(secs > 0x7fff_ffff_ffff_ffffu64 ==> (secs as i64) == secs
                - 0x1_0000_0000_0000_0000) by (bit_vector);
            secs as i64
        },
        None => 0,
    }
}

/// Seconds since the Unix epoch, 0 where the clock stands before it.
pub fn now_secs() -> (secs: i64)
    ensures
        exists|elapsed: Option<u64>| secs == #[trigger] epoch_value(elapsed),
{
    epoch_secs(clock())
}

// ----- dates as text --------------------------------------------------------

/// A year with at least four characters, the sign of a negative one among them.
pub open spec fn year_text(year: int) -> Seq<char> {
    if year >= 0 {
        text::padded(year as nat, 4)
    } else {
        seq!['-'] + text::padded((-year) as nat, 3)
    }
}

/// `YYYY-MM-DD`.
pub open spec fn iso_date(year: int, month: int, day: int) -> Seq<char> {
    year_text(year) + seq!['-'] + text::padded(month as nat, 2) + seq!['-'] + text::padded(
        day as nat,
        2,
    )
}

/// The date of day number `z` as text.
pub open spec fn day_text(z: int) -> Seq<char> {
    iso_date(civil(z).0, civil(z).1, civil(z).2)
}

/// The day that lies `days_back` days before the moment `now`, in UTC. The
/// seconds are reckoned in 64 bits, which wrap around.
pub open spec fn cutoff_day(now: i64, days_back: i64) -> int {
    now.wrapping_sub(days_back.wrapping_mul(86_400)) as int / 86_400
}

/// `YYYY-MM-DD` for `days_back` days before the moment `now` (UTC).
pub fn cutoff_date_at(now: i64, days_back: i64) -> (date: String)
    ensures
        date@ == day_text(cutoff_day(now, days_back)),
{
    let t: i64 = now.wrapping_sub(days_back.wrapping_mul(86_400));
    let z: i64 = if t >= 0 { t / 86_400 } else { (t + 1) / 86_400 - 1 };
    let (y, m, d) = civil_from_days(z);
    proof {
        month_offsets(y as int);
        assert(days_before_year(y as int) + 366 > z);
    }
    let mut date = String::new();
    if y >= 0 {
        text::push_padded(&mut date, y as u64, 4);
    } else {
        date.push('-');
        text::push_padded(&mut date, (-y) as u64, 3);
    }
    date.push('-');
    text::push_padded(&mut date, m as u64, 2);
    date.push('-');
    text::push_padded(&mut date, d as u64, 2);
    date
}

/// `YYYY-MM-DD` for `days_back` days before today (UTC).
pub fn cutoff_date(days_back: i64) -> (date: String)
    ensures
        exists|now: i64| date@ == day_text(#[trigger] cutoff_day(now, days_back)),
{
    cutoff_date_at(now_secs(), days_back)
}

/// The text by which a date is compared: a bare year stands for its first
/// day, a year and month for the first day of the month.
pub open spec fn date_key_text(date: Seq<char>) -> Seq<char> {
    if encode_utf8(date).len() == 4 {
        date + "-01-01"@
    } else if encode_utf8(date).len() == 7 {
        date + "-01"@
    } else {
        date
    }
}

/// Normalize a partial date to a comparable `YYYY-MM-DD` lower bound so
/// string comparison against the cutoff is sound (`"2026"` → `"2026-01-01"`).
pub fn date_key(d: &str) -> (key: String)
    ensures
        key@ == date_key_text(d@),
{
    let mut key = d.to_owned();
    let len: usize = d.as_bytes().len();
    if len == 4 {
        key.append("-01-01");
    } else if len == 7 {
        key.append("-01");
    }
    key
}

// ----- what the comparison of dates means -----------------------------------

/// As long as the moment `days_back` days before `now` fits in 64 bits, the
/// cutoff is `days_back` whole days before the day of `now`.
pub proof fn cutoff_counts_whole_days(now: i64, days_back: i64)
    requires
        i64::MIN <= now - days_back * 86_400 <= i64::MAX,
    ensures
        cutoff_day(now, days_back) == now as int / 86_400 - days_back,
{
}

proof fn four_digits(n: nat)
    requires
        n <= 9999,
    ensures
        text::padded(n, 4) == seq![
            text::digit(n / 1000),
            text::digit(n / 100 % 10),
            text::digit(n / 10 % 10),
            text::digit(n % 10),
        ],
{
    reveal_with_fuel(text::padded, 5);
    assert(n / 10 / 10 == n / 100);
    assert(n / 100 / 10 == n / 1000);
}

proof fn two_digits(n: nat)
    requires
        n <= 99,
    ensures
        text::padded(n, 2) == seq![text::digit(n / 10), text::digit(n % 10)],
{
    reveal_with_fuel(text::padded, 3);
}

/// The bytes of a date of a four-digit year.
proof fn iso_bytes(y: int, m: int, d: int)
    requires
        0 <= y <= 9999,
        valid_date(y, m, d),
    ensures
        iso_date(y, m, d).len() == 10,
        encode_utf8(iso_date(y, m, d)) == seq![
            (48 + y / 1000) as u8,
            (48 + y / 100 % 10) as u8,
            (48 + y / 10 % 10) as u8,
            (48 + y % 10) as u8,
            45u8,
            (48 + m / 10) as u8,
            (48 + m % 10) as u8,
            45u8,
            (48 + d / 10) as u8,
            (48 + d % 10) as u8,
        ],
{
    four_digits(y as nat);
    two_digits(m as nat);
    two_digits(d as nat);
    let s = iso_date(y, m, d);
    assert(is_ascii_chars(s));
    is_ascii_chars_encode_utf8(s);
    assert(encode_utf8(s) =~= seq![
        (48 + y / 1000) as u8,
        (48 + y / 100 % 10) as u8,
        (48 + y / 10 % 10) as u8,
        (48 + y % 10) as u8,
        45u8,
        (48 + m / 10) as u8,
        (48 + m % 10) as u8,
        45u8,
        (48 + d / 10) as u8,
        (48 + d % 10) as u8,
    ]);
}

proof fn year_from_digits(y: int)
    requires
        0 <= y <= 9999,
    ensures
        y == 1000 * (y / 1000) + 100 * (y / 100 % 10) + 10 * (y / 10 % 10) + y % 10,
{
    assert(y / 10 / 10 == y / 100);
    assert(y / 100 / 10 == y / 1000);
}

/// The first digit in which two four-digit years differ tells which comes first.
proof fn year_digits(y1: int, y2: int)
    requires
        0 <= y1 < y2 <= 9999,
    ensures
        ({
            let (a, b, c, d) = (y1 / 1000, y1 / 100 % 10, y1 / 10 % 10, y1 % 10);
            let (e, f, g, h) = (y2 / 1000, y2 / 100 % 10, y2 / 10 % 10, y2 % 10);
            ||| a < e
            ||| a == e && b < f
            ||| a == e && b == f && c < g
            ||| a == e && b == f && c == g && d < h
        }),
{
    year_from_digits(y1);
    year_from_digits(y2);
}

proof fn earlier_date_sorts_first(y1: int, m1: int, d1: int, y2: int, m2: int, d2: int)
    requires
        0 <= y1 <= 9999,
        0 <= y2 <= 9999,
        valid_date(y1, m1, d1),
        valid_date(y2, m2, d2),
        y1 < y2 || (y1 == y2 && (m1 < m2 || (m1 == m2 && d1 < d2))),
    ensures
        text::text_less(iso_date(y1, m1, d1), iso_date(y2, m2, d2)),
{
    iso_bytes(y1, m1, d1);
    iso_bytes(y2, m2, d2);
    let a = encode_utf8(iso_date(y1, m1, d1));
    let b = encode_utf8(iso_date(y2, m2, d2));
    let k: int = if y1 < y2 {
        year_digits(y1, y2);
        if a[0] != b[0] {
            0
        } else if a[1] != b[1] {
            1
        } else if a[2] != b[2] {
            2
        } else {
            3
        }
    } else if m1 < m2 {
        if a[5] != b[5] {
            5
        } else {
            6
        }
    } else if a[8] != b[8] {
        8
    } else {
        9
    };
    text::first_difference_decides(a, b, k);
}

/// Dates of four-digit years compare as text as the days they name.
pub proof fn text_order_is_day_order(y1: int, m1: int, d1: int, y2: int, m2: int, d2: int)
    requires
        0 <= y1 <= 9999,
        0 <= y2 <= 9999,
        valid_date(y1, m1, d1),
        valid_date(y2, m2, d2),
    ensures
        text::text_less(iso_date(y1, m1, d1), iso_date(y2, m2, d2)) <==> day_number(y1, m1, d1)
            < day_number(y2, m2, d2),
{
    let a = iso_date(y1, m1, d1);
    let b = iso_date(y2, m2, d2);
    text::text_order_is_total(a, b, a);
    if y1 < y2 || (y1 == y2 && (m1 < m2 || (m1 == m2 && d1 < d2))) {
        earlier_date_sorts_first(y1, m1, d1, y2, m2, d2);
        dates_ascend(y1, m1, d1, y2, m2, d2);
    } else if (y1, m1, d1) != (y2, m2, d2) {
        earlier_date_sorts_first(y2, m2, d2, y1, m1, d1);
        dates_ascend(y2, m2, d2, y1, m1, d1);
    }
}

/// A full date, a month or a bare year of a four-digit year is keyed by the
/// first day that it names.
pub proof fn date_key_is_first_day(year: int, month: int, day: int)
    requires
        0 <= year <= 9999,
        valid_date(year, month, day),
    ensures
        date_key_text(iso_date(year, month, day)) == iso_date(year, month, day),
        date_key_text(year_text(year) + seq!['-'] + text::padded(month as nat, 2)) == iso_date(
            year,
            month,
            1,
        ),
        date_key_text(year_text(year)) == iso_date(year, 1, 1),
{
    iso_bytes(year, month, day);
    four_digits(year as nat);
    two_digits(month as nat);
    two_digits(1);
    reveal_strlit("-01-01");
    reveal_strlit("-01");
    let y = year_text(year);
    let ym = year_text(year) + seq!['-'] + text::padded(month as nat, 2);
    assert(is_ascii_chars(y));
    assert(is_ascii_chars(ym));
    is_ascii_chars_encode_utf8(y);
    is_ascii_chars_encode_utf8(ym);
    assert(date_key_text(y) =~= iso_date(year, 1, 1));
    assert(date_key_text(ym) =~= iso_date(year, month, 1));
}

/// A date is not before the cutoff of `days_back` days exactly when the first
/// day that it names lies no more than `days_back` days before today. This
/// holds of full dates, of months and of bare years.
pub proof fn recent_means_within_days(
    now: i64,
    days_back: i64,
    year: int,
    month: int,
    day: int,
)
    requires
        i64::MIN <= now - days_back * 86_400 <= i64::MAX,
        0 <= year <= 9999,
        valid_date(year, month, day),
        0 <= civil(cutoff_day(now, days_back)).0 <= 9999,
    ensures
        !text::text_less(
            date_key_text(iso_date(year, month, day)),
            day_text(cutoff_day(now, days_back)),
        ) <==> now as int / 86_400 - day_number(year, month, day) <= days_back,
        !text::text_less(
            date_key_text(year_text(year) + seq!['-'] + text::padded(month as nat, 2)),
            day_text(cutoff_day(now, days_back)),
        ) <==> now as int / 86_400 - day_number(year, month, 1) <= days_back,
        !text::text_less(
            date_key_text(year_text(year)),
            day_text(cutoff_day(now, days_back)),
        ) <==> now as int / 86_400 - day_number(year, 1, 1) <= days_back,
{
    let z = cutoff_day(now, days_back);
    cutoff_counts_whole_days(now, days_back);
    every_day_has_a_date(z);
    date_key_is_first_day(year, month, day);
    let (cy, cm, cd) = civil(z);
    text_order_is_day_order(year, month, day, cy, cm, cd);
    text_order_is_day_order(year, month, 1, cy, cm, cd);
    text_order_is_day_order(year, 1, 1, cy, cm, cd);
}

} // verus!
