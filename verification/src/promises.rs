//! What dates, texts and queries promise, stated over the digits, days and
//! bytes themselves.

use crate::calendar;
use crate::query;
use crate::text;
use vstd::prelude::*;
use vstd::utf8::*;

verus! {

// ----- numbers as text ------------------------------------------------------

/// The number that decimal digits stand for.
pub open spec fn number(s: Seq<char>) -> int
    decreases s.len(),
{
    if s.len() == 0 {
        0
    } else {
        10 * number(s.drop_last()) + (s.last() as int - '0' as int)
    }
}

/// Whether the text holds nothing but decimal digits.
pub open spec fn all_digits(s: Seq<char>) -> bool {
    forall|i: int| 0 <= i < s.len() ==> '0' <= #[trigger] s[i] <= '9'
}

/// A number written out consists of digits, reads back as the number, has the
/// width that was asked for, and leading zeros only to reach that width.
pub proof fn written_numbers_read_back(n: nat, width: nat)
    ensures
        all_digits(text::padded(n, width)),
        number(text::padded(n, width)) == n,
        text::padded(n, width).len() >= 1,
        text::padded(n, width).len() >= width,
        text::padded(n, width).len() > 1 && text::padded(n, width).len() > width ==> text::padded(
            n,
            width,
        )[0] != '0',
    decreases n + width,
{
    let s = text::padded(n, width);
    if n < 10 && width <= 1 {
        assert(s.drop_last() =~= seq![]);
        assert(number(s.drop_last()) == 0);
    } else {
        let rest: nat = if width == 0 {
            0
        } else {
            (width - 1) as nat
        };
        written_numbers_read_back(n / 10, rest);
        assert(s.drop_last() =~= text::padded(n / 10, rest));
        if n >= 10 && text::padded(n / 10, rest).len() == 1 {
            let inner = text::padded(n / 10, rest);
            assert(inner.drop_last() =~= seq![]);
            assert(number(inner.drop_last()) == 0);
            assert(inner[0] != '0');
        }
    }
}

/// A number without a width has no leading zero.
pub proof fn decimals_read_back(n: nat)
    ensures
        all_digits(text::decimal(n)),
        number(text::decimal(n)) == n,
        text::decimal(n).len() >= 1,
        text::decimal(n).len() > 1 ==> text::decimal(n)[0] != '0',
{
    written_numbers_read_back(n, 1);
}

// ----- the order of texts ---------------------------------------------------

/// Whether `a` and `b` agree before `k`, and there `a` ends or has the smaller
/// byte.
pub open spec fn smaller_at(a: Seq<u8>, b: Seq<u8>, k: int) -> bool {
    &&& 0 <= k <= a.len()
    &&& k < b.len()
    &&& forall|i: int| 0 <= i < k ==> a[i] == b[i]
    &&& k == a.len() || a[k] < b[k]
}

proof fn smaller_bytes(a: Seq<u8>, b: Seq<u8>)
    ensures
        text::lex_less(a, b) <==> exists|k: int| smaller_at(a, b, k),
    decreases a.len(),
{
    if a.len() > 0 && b.len() > 0 && a[0] == b[0] {
        let (x, y) = (a.drop_first(), b.drop_first());
        smaller_bytes(x, y);
        if text::lex_less(a, b) {
            let k = choose|k: int| smaller_at(x, y, k);
            assert forall|i: int| 0 <= i < k + 1 implies a[i] == b[i] by {
                if i > 0 {
                    assert(x[i - 1] == y[i - 1]);
                }
            }
            assert(k < x.len() ==> x[k] == a[k + 1] && y[k] == b[k + 1]);
            assert(smaller_at(a, b, k + 1));
        }
        if exists|k: int| smaller_at(a, b, k) {
            let k = choose|k: int| smaller_at(a, b, k);
            assert(k > 0);
            assert forall|i: int| 0 <= i < k - 1 implies x[i] == y[i] by {
                assert(a[i + 1] == b[i + 1]);
            }
            assert(smaller_at(x, y, k - 1));
        }
    } else {
        if text::lex_less(a, b) {
            assert(smaller_at(a, b, 0));
        }
        if exists|k: int| smaller_at(a, b, k) {
            let k = choose|k: int| smaller_at(a, b, k);
            assert(k > 0 ==> a[0] == b[0]);
        }
    }
}

/// One text comes before another exactly when their UTF-8 bytes agree up to a
/// place where the first ends or has the smaller byte.
pub proof fn texts_compare_by_their_bytes(a: Seq<char>, b: Seq<char>)
    ensures
        text::text_less(a, b) <==> exists|k: int|
            smaller_at(encode_utf8(a), encode_utf8(b), k),
{
    smaller_bytes(encode_utf8(a), encode_utf8(b));
}

// ----- the calendar ---------------------------------------------------------

/// How long a month is: thirty days have April, June, September and November,
/// February has 28 or in a leap year 29, and the others have 31.
pub proof fn the_calendar_has_these_dates(year: int, month: int, day: int)
    ensures
        calendar::valid_date(year, month, day) <==> {
            &&& 1 <= month <= 12
            &&& 1 <= day <= 31
            &&& month == 4 || month == 6 || month == 9 || month == 11 ==> day <= 30
            &&& month == 2 ==> day <= 29
            &&& month == 2 && !(year % 4 == 0 && (year % 100 != 0 || year % 400 == 0)) ==> day <= 28
        },
{
}

/// Day numbers count the days one by one: 1 January 1970 is day 0, and each
/// date is followed by the next of its month, the first of the next month, or
/// New Year.
pub proof fn days_follow_each_other(year: int, month: int, day: int)
    requires
        calendar::valid_date(year, month, day),
    ensures
        calendar::day_number(1970, 1, 1) == 0,
        calendar::valid_date(year, month, day + 1) ==> calendar::day_number(year, month, day + 1)
            == calendar::day_number(year, month, day) + 1,
        !calendar::valid_date(year, month, day + 1) && month < 12 ==> calendar::day_number(
            year,
            month + 1,
            1,
        ) == calendar::day_number(year, month, day) + 1,
        month == 12 && day == 31 ==> calendar::day_number(year + 1, 1, 1) == calendar::day_number(
            year,
            month,
            day,
        ) + 1,
{
    calendar::year_follows_year(year);
    reveal_with_fuel(calendar::days_before_month, 2);
}

/// A clock reading is the seconds since the epoch, 0 before it; beyond the
/// signed range it is the signed number of the same 64 bits.
pub proof fn readings_are_seconds(secs: u64)
    ensures
        calendar::epoch_value(None) == 0,
        secs < 0x8000_0000_0000_0000 ==> calendar::epoch_value(Some(secs)) == secs,
        i64::MIN <= calendar::epoch_value(Some(secs)) <= i64::MAX,
        (secs - calendar::epoch_value(Some(secs))) % 0x1_0000_0000_0000_0000 == 0,
{
}

/// The cutoff is the day of the moment that lies `days_back` times 86400
/// seconds before `now`, reckoned in 64 bits.
pub proof fn cutoff_is_the_day_of_a_moment(now: i64, days_back: i64) -> (moment: i64)
    ensures
        (now - days_back * 86_400 - moment) % 0x1_0000_0000_0000_0000 == 0,
        moment - 86_400 < calendar::cutoff_day(now, days_back) * 86_400 <= moment,
{
    let product = days_back.wrapping_mul(86_400);
    let moment = now.wrapping_sub(product);
    assert((days_back * 86_400 - product) % 0x1_0000_0000_0000_0000 == 0);
    assert((now - product - moment) % 0x1_0000_0000_0000_0000 == 0);
    moment
}

// ----- dates as text --------------------------------------------------------

/// A date as text is its year, its month in two digits and its day in two
/// digits, with a dash between them. The year takes at least four characters,
/// and no more than it needs; a negative one has its sign among them.
pub proof fn dates_read_back(year: int, month: int, day: int)
    requires
        calendar::valid_date(year, month, day),
    ensures
        ({
            let s = calendar::iso_date(year, month, day);
            let n = s.len() - 6;
            let y = s.take(n);
            &&& n >= 4
            &&& s[n] == '-'
            &&& all_digits(s.subrange(n + 1, n + 3))
            &&& number(s.subrange(n + 1, n + 3)) == month
            &&& s[n + 3] == '-'
            &&& all_digits(s.subrange(n + 4, n + 6))
            &&& number(s.subrange(n + 4, n + 6)) == day
            &&& year >= 0 ==> all_digits(y) && number(y) == year && (n > 4 ==> y[0] != '0')
            &&& year < 0 ==> y[0] == '-' && all_digits(y.skip(1)) && number(y.skip(1)) == -year && (
            n > 4 ==> y[1] != '0')
        }),
{
    let s = calendar::iso_date(year, month, day);
    let n = s.len() - 6;
    written_numbers_read_back(month as nat, 2);
    written_numbers_read_back(day as nat, 2);
    two_digit_width(month as nat);
    two_digit_width(day as nat);
    assert(s.subrange(n + 1, n + 3) =~= text::padded(month as nat, 2));
    assert(s.subrange(n + 4, n + 6) =~= text::padded(day as nat, 2));
    assert(s.take(n) =~= calendar::year_text(year));
    if year >= 0 {
        written_numbers_read_back(year as nat, 4);
    } else {
        written_numbers_read_back((-year) as nat, 3);
        assert(calendar::year_text(year).skip(1) =~= text::padded((-year) as nat, 3));
    }
}

proof fn two_digit_width(n: nat)
    requires
        n <= 99,
    ensures
        text::padded(n, 2).len() == 2,
{
    reveal_with_fuel(text::padded, 3);
}

/// The day as text is the date that has this day number.
pub proof fn days_as_text_are_their_dates(year: int, month: int, day: int)
    requires
        calendar::valid_date(year, month, day),
    ensures
        calendar::day_text(calendar::day_number(year, month, day)) == calendar::iso_date(
            year,
            month,
            day,
        ),
{
    calendar::civil_inverts_day_number(year, month, day);
}

/// Whether a text is a full date (`YYYY-MM-DD`), a month (`YYYY-MM`) or a
/// year (`YYYY`) whose first day is this one.
pub open spec fn names_day(date: Seq<char>, year: int, month: int, day: int) -> bool {
    &&& calendar::valid_date(year, month, day)
    &&& date.len() == 10 || date.len() == 7 && day == 1 || date.len() == 4 && month == 1 && day == 1
    &&& all_digits(date.take(4)) && number(date.take(4)) == year
    &&& date.len() >= 7 ==> {
        &&& date[4] == '-'
        &&& all_digits(date.subrange(5, 7)) && number(date.subrange(5, 7)) == month
    }
    &&& date.len() == 10 ==> {
        &&& date[7] == '-'
        &&& all_digits(date.subrange(8, 10)) && number(date.subrange(8, 10)) == day
    }
}

proof fn two_digits_are_written(s: Seq<char>)
    requires
        s.len() == 2,
        all_digits(s),
    ensures
        0 <= number(s) <= 99,
        s == text::padded(number(s) as nat, 2),
{
    reveal_with_fuel(number, 3);
    reveal_with_fuel(text::padded, 3);
    assert(s.drop_last().last() == s[0]);
    assert('0' <= s[0] <= '9' && '0' <= s[1] <= '9');
    let n = number(s) as nat;
    assert(n == 10 * (s[0] as int - 48) + (s[1] as int - 48));
    assert(n / 10 == s[0] as int - 48);
    assert(n % 10 == s[1] as int - 48);
    assert(s =~= text::padded(n, 2));
}

proof fn four_digits_are_written(s: Seq<char>)
    requires
        s.len() == 4,
        all_digits(s),
    ensures
        0 <= number(s) <= 9999,
        s == text::padded(number(s) as nat, 4),
{
    reveal_with_fuel(number, 5);
    reveal_with_fuel(text::padded, 5);
    assert(s.drop_last().last() == s[2]);
    assert(s.drop_last().drop_last().last() == s[1]);
    assert(s.drop_last().drop_last().drop_last().last() == s[0]);
    assert('0' <= s[0] <= '9' && '0' <= s[1] <= '9' && '0' <= s[2] <= '9' && '0' <= s[3] <= '9');
    let (a, b, c, d) = (
        s[0] as int - 48,
        s[1] as int - 48,
        s[2] as int - 48,
        s[3] as int - 48,
    );
    let n = number(s) as nat;
    assert(n == 1000 * a + 100 * b + 10 * c + d);
    assert(n % 10 == d && n / 10 == 100 * a + 10 * b + c);
    assert((n / 10) % 10 == c && n / 10 / 10 == 10 * a + b);
    assert((n / 10 / 10) % 10 == b && n / 10 / 10 / 10 == a);
    assert(s =~= text::padded(n, 4));
}

/// The text by which a date is compared is the first day that it names, in
/// full.
proof fn named_day_is_the_key(date: Seq<char>, year: int, month: int, day: int)
    requires
        names_day(date, year, month, day),
    ensures
        0 <= year <= 9999,
        calendar::date_key_text(date) == calendar::iso_date(year, month, day),
{
    let y = date.take(4);
    four_digits_are_written(y);
    calendar::date_key_is_first_day(year, month, day);
    assert(calendar::year_text(year) == y);
    if date.len() >= 7 {
        let m = date.subrange(5, 7);
        two_digits_are_written(m);
        if date.len() == 10 {
            two_digits_are_written(date.subrange(8, 10));
            assert(date =~= calendar::iso_date(year, month, day));
        } else {
            assert(date =~= y + seq!['-'] + m);
        }
    } else {
        assert(date =~= y);
    }
}

/// Dates, months and years are compared by the calendar: one counts as earlier
/// than another exactly when the first day that it names is.
pub proof fn dates_compare_by_their_days(
    a: Seq<char>,
    y1: int,
    m1: int,
    d1: int,
    b: Seq<char>,
    y2: int,
    m2: int,
    d2: int,
)
    requires
        names_day(a, y1, m1, d1),
        names_day(b, y2, m2, d2),
    ensures
        text::text_less(calendar::date_key_text(a), calendar::date_key_text(b))
            <==> calendar::day_number(y1, m1, d1) < calendar::day_number(y2, m2, d2),
{
    named_day_is_the_key(a, y1, m1, d1);
    named_day_is_the_key(b, y2, m2, d2);
    calendar::text_order_is_day_order(y1, m1, d1, y2, m2, d2);
}

/// A full date is compared as it is.
pub proof fn full_dates_are_their_keys(date: Seq<char>, year: int, month: int, day: int)
    requires
        names_day(date, year, month, day),
        date.len() == 10,
    ensures
        calendar::date_key_text(date) == date,
{
    let y = date.take(4);
    four_digits_are_written(y);
    two_digits_are_written(date.subrange(5, 7));
    two_digits_are_written(date.subrange(8, 10));
    assert(date =~= calendar::iso_date(year, month, day));
    calendar::date_key_is_first_day(year, month, day);
}

/// The key of a date begins with the date. To four bytes it adds the first of
/// January, to seven the first of the month, and to any others nothing.
pub proof fn date_keys_fill_up_dates(date: Seq<char>)
    ensures
        ({
            let key = calendar::date_key_text(date);
            let bytes = encode_utf8(date).len();
            &&& date.len() <= key.len() && key.take(date.len() as int) == date
            &&& bytes == 4 ==> key.skip(date.len() as int) == seq!['-', '0', '1', '-', '0', '1']
            &&& bytes == 7 ==> key.skip(date.len() as int) == seq!['-', '0', '1']
            &&& bytes != 4 && bytes != 7 ==> key == date
        }),
{
    let key = calendar::date_key_text(date);
    reveal_strlit("-01-01");
    reveal_strlit("-01");
    assert(key.take(date.len() as int) =~= date);
    if encode_utf8(date).len() == 4 {
        assert(key.skip(date.len() as int) =~= seq!['-', '0', '1', '-', '0', '1']);
    } else if encode_utf8(date).len() == 7 {
        assert(key.skip(date.len() as int) =~= seq!['-', '0', '1']);
    }
}

/// The cutoff is a full date, and names the day that lies `days_back` days
/// before the day of `now`.
pub proof fn cutoff_names_its_day(now: i64, days_back: i64, year: int, month: int, day: int)
    requires
        i64::MIN <= now - days_back * 86_400 <= i64::MAX,
        0 <= year <= 9999,
        calendar::valid_date(year, month, day),
        calendar::day_number(year, month, day) == now as int / 86_400 - days_back,
    ensures
        ({
            let cutoff = calendar::day_text(calendar::cutoff_day(now, days_back));
            cutoff.len() == 10 && names_day(cutoff, year, month, day)
        }),
{
    let cutoff = calendar::day_text(calendar::cutoff_day(now, days_back));
    calendar::cutoff_counts_whole_days(now, days_back);
    days_as_text_are_their_dates(year, month, day);
    dates_read_back(year, month, day);
    four_digit_width(year as nat);
    two_digit_width(month as nat);
    two_digit_width(day as nat);
    assert(cutoff.len() == 10);
}

proof fn four_digit_width(n: nat)
    requires
        n <= 9999,
    ensures
        text::padded(n, 4).len() == 4,
{
    reveal_with_fuel(text::padded, 5);
}

// ----- queries --------------------------------------------------------------

/// Trimming takes off white space at the two ends, all of it, and nothing
/// else.
pub proof fn trimming_takes_off_white_space(s: Seq<char>) -> (cut: (int, int))
    ensures
        0 <= cut.0 <= cut.1 <= s.len(),
        query::trimmed(s) == s.subrange(cut.0, cut.1),
        forall|i: int| 0 <= i < cut.0 || cut.1 <= i < s.len() ==> query::white_space(#[trigger] s[i]),
        cut.0 < cut.1 ==> !query::white_space(s[cut.0]) && !query::white_space(s[cut.1 - 1]),
    decreases s.len(),
{
    if s.len() > 0 && query::white_space(s.first()) {
        let t = s.drop_first();
        let (a, b) = trimming_takes_off_white_space(t);
        assert(t.subrange(a, b) =~= s.subrange(a + 1, b + 1));
        assert forall|i: int| 0 <= i < a + 1 || b + 1 <= i < s.len() implies query::white_space(
            #[trigger] s[i],
        ) by {
            if i > 0 {
                assert(t[i - 1] == s[i]);
            }
        }
        (a + 1, b + 1)
    } else if s.len() > 0 && query::white_space(s.last()) {
        let t = s.drop_last();
        let (a, b) = trimming_takes_off_white_space(t);
        assert(t.subrange(a, b) =~= s.subrange(a, b));
        assert forall|i: int| 0 <= i < a || b <= i < s.len() implies query::white_space(
            #[trigger] s[i],
        ) by {
            if i < s.len() - 1 {
                assert(t[i] == s[i]);
            }
        }
        (a, b)
    } else {
        assert(s =~= s.subrange(0, s.len() as int));
        (0, s.len() as int)
    }
}

/// A name is compared in lower case, and white space around it makes no
/// difference.
pub proof fn names_compare_without_case_or_margins(s: Seq<char>, c: char)
    requires
        query::white_space(c),
    ensures
        query::normalized(seq![c] + s) == query::normalized(s),
        query::normalized(s.push(c)) == query::normalized(s),
        s.len() == 0 || !query::white_space(s[0]) && !query::white_space(s.last())
            ==> query::normalized(s) == query::lowercase(s),
{
    assert((seq![c] + s).drop_first() =~= s);
    trailing_space_is_trimmed(s, c);
}

proof fn trailing_space_is_trimmed(s: Seq<char>, c: char)
    requires
        query::white_space(c),
    ensures
        query::trimmed(s.push(c)) == query::trimmed(s),
    decreases s.len(),
{
    let t = s.push(c);
    assert(t.drop_last() =~= s);
    if s.len() > 0 && query::white_space(s.first()) {
        trailing_space_is_trimmed(s.drop_first(), c);
        assert(t.drop_first() =~= s.drop_first().push(c));
    } else if s.len() == 0 {
        assert(t.drop_first() =~= s);
    }
}

/// Encoding goes byte by byte. Letters, digits, `-`, `_`, `.` and `~` stand
/// for themselves, and any other byte becomes a percent sign and its two
/// upper-case hexadecimal digits.
pub proof fn encoding_goes_byte_by_byte(a: Seq<u8>, b: Seq<u8>, byte: u8)
    ensures
        query::percent_encoded(a + b) == query::percent_encoded(a) + query::percent_encoded(b),
        query::percent_encoded(seq![]) == Seq::<char>::empty(),
        ({
            let plain = {
                ||| 65 <= byte <= 90
                ||| 97 <= byte <= 122
                ||| 48 <= byte <= 57
                ||| byte == 45 || byte == 95 || byte == 46 || byte == 126
            };
            let digits = "0123456789ABCDEF"@;
            query::percent_encoded(seq![byte]) == if plain {
                seq![byte as char]
            } else {
                seq!['%', digits[byte as int / 16], digits[byte as int % 16]]
            }
        }),
    decreases a.len(),
{
    reveal_strlit("0123456789ABCDEF");
    reveal_with_fuel(query::percent_encoded, 2);
    assert(seq![byte].drop_first() =~= seq![]);
    assert(query::percent_byte(byte) + Seq::<char>::empty() =~= query::percent_byte(byte));
    if a.len() > 0 {
        encoding_goes_byte_by_byte(a.drop_first(), b, byte);
        assert((a + b).drop_first() =~= a.drop_first() + b);
        assert(query::percent_encoded(a + b) =~= query::percent_encoded(a)
            + query::percent_encoded(b));
    } else {
        assert(a + b =~= b);
        assert(query::percent_encoded(a) + query::percent_encoded(b) =~= query::percent_encoded(b));
    }
}

/// Escaping goes character by character: a backslash and a quote get a
/// backslash before them, and anything else stays.
pub proof fn escaping_goes_char_by_char(a: Seq<char>, b: Seq<char>, c: char)
    ensures
        query::phrase_escaped(a + b) == query::phrase_escaped(a) + query::phrase_escaped(b),
        query::phrase_escaped(seq![]) == Seq::<char>::empty(),
        query::phrase_escaped(seq![c]) == if c == '\\' || c == '"' {
            seq!['\\', c]
        } else {
            seq![c]
        },
    decreases b.len(),
{
    reveal_with_fuel(query::phrase_escaped, 2);
    assert(seq![c].drop_last() =~= seq![]);
    assert(Seq::<char>::empty() + query::phrase_char(c) =~= query::phrase_char(c));
    if b.len() > 0 {
        escaping_goes_char_by_char(a, b.drop_last(), c);
        assert((a + b).drop_last() =~= a + b.drop_last());
        assert(query::phrase_escaped(a + b) =~= query::phrase_escaped(a) + query::phrase_escaped(
            b,
        ));
    } else {
        assert(a + b =~= a);
        assert(query::phrase_escaped(a) + query::phrase_escaped(b) =~= query::phrase_escaped(a));
    }
}

/// The search is MusicBrainz's release-group search, for 25 results in JSON at
/// most. Its query, decoded, asks for the whole artist name as a phrase and
/// for first releases from the whole cutoff on.
pub proof fn search_addresses_carry_the_query(artist: Seq<char>, cutoff: Seq<char>)
    ensures
        ({
            let url = query::mb_url(artist, cutoff);
            let before = "https://musicbrainz.org/ws/2/release-group?query="@;
            let after = "&fmt=json&limit=25"@;
            let asked = query::percent_decoded(
                url.subrange(before.len() as int, url.len() - after.len()),
            );
            &&& url.len() >= before.len() + after.len()
            &&& url.take(before.len() as int) == before
            &&& url.skip(url.len() - after.len()) == after
            &&& asked == encode_utf8(
                "artist:\""@ + query::phrase_escaped(artist) + "\" AND firstreleasedate:["@ + cutoff
                    + " TO *]"@,
            )
            &&& url == before + query::percent_encoded(asked) + after
        }),
{
    let url = query::mb_url(artist, cutoff);
    let before = "https://musicbrainz.org/ws/2/release-group?query="@;
    let after = "&fmt=json&limit=25"@;
    query::search_asks_for_the_artist(artist, cutoff);
    assert(url.take(before.len() as int) =~= before);
    assert(url.skip(url.len() - after.len()) =~= after);
}

/// A release group has its cover in the Cover Art Archive and its page on
/// MusicBrainz, both under its whole id.
pub proof fn addresses_hold_the_whole_id(id: Seq<char>)
    ensures
        query::cover_address(id) == "https://coverartarchive.org/release-group/"@ + id
            + "/front-250"@,
        query::page_address(id) == "https://musicbrainz.org/release-group/"@ + id,
{
}

/// A request is a GET of the whole address, without a body, that names the app
/// with a contact and asks for JSON.
pub proof fn requests_name_the_app(url: Seq<char>)
    ensures
        ({
            let request = query::mb_request(url);
            &&& request.method == "GET"@
            &&& request.url == url
            &&& request.body is None
            &&& request.headers.len() == 2
            &&& request.headers[0] == (
                "User-Agent"@,
                "WaveFlow-ReleaseRadar/0.1.0 ( https://github.com/InstaZDLL/waveflow-plugin-release-radar )"@,
            )
            &&& request.headers[1] == ("Accept"@, "application/json"@)
        }),
{
}

} // verus!
