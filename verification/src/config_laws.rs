//! How durations, sizes and times are written.

use vstd::prelude::*;

use crate::config::{
    a_moment_has_one_date, bytes_text, days_before_month, days_before_year, days_in_month,
    duration_text, env_value, four_digits, is_leap, lemma_year_length, moment, nearest_53_bits,
    one_decimal, replaced, round_half_even, showable, step_of_53_bits, time_text, two_digits,
    CivilTime, DEFAULT_DATA_DIR, DEFAULT_HTTP_ADDR,
};
use crate::text::{decimal, digit_char, signed_decimal};

verus! {

/// A variable that is set has its value, and one that is empty or not set has its
/// default.
pub proof fn a_variable_that_is_set_counts(value: Seq<char>, default: Seq<char>)
    ensures
        value.len() > 0 ==> env_value(Some(value), default) == value,
        value.len() == 0 ==> env_value(Some(value), default) == default,
        env_value(None, default) == default,
        env_value(None, DEFAULT_DATA_DIR@) == "./data"@,
        env_value(None, DEFAULT_HTTP_ADDR@) == "0.0.0.0:8080"@,
{
}

// ---- durations ----

/// A duration is written in its two largest units: days and hours, hours and
/// minutes, minutes and seconds, or seconds alone. What has not begun is nothing.
pub proof fn a_duration_has_its_two_largest_units(d: nat, h: nat, m: nat, s: nat, n: int)
    requires
        h < 24,
        m < 60,
        s < 60,
    ensures
        d > 0 ==> duration_text((d * 86_400 + h * 3600 + m * 60 + s) as int) == decimal(d) + "d "@
            + decimal(h) + "h"@,
        h > 0 ==> duration_text((h * 3600 + m * 60 + s) as int) == decimal(h) + "h "@ + decimal(m)
            + "m"@,
        m > 0 ==> duration_text((m * 60 + s) as int) == decimal(m) + "m "@ + decimal(s) + "s"@,
        duration_text(s as int) == decimal(s) + "s"@,
        n < 0 ==> duration_text(n) == decimal(0) + "s"@,
{
    let total = d * 86_400 + h * 3600 + m * 60 + s;
    assert(total / 86_400 == d);
    assert(total % 86_400 == h * 3600 + m * 60 + s);
    assert((h * 3600 + m * 60 + s) / 3600 == h);
    assert((h * 3600 + m * 60 + s) % 3600 == m * 60 + s);
    assert((m * 60 + s) / 60 == m);
    assert((m * 60 + s) % 60 == s);
}

// ---- sizes ----

/// Rounding goes to the nearest whole number, and of two that are as near to the
/// even one.
pub proof fn rounding_goes_to_the_nearest(num: nat, den: nat)
    requires
        den > 0,
    ensures
        ({
            let q = round_half_even(num, den);
            &&& 2 * (q * den) <= 2 * num + den
            &&& 2 * num <= 2 * (q * den) + den
            &&& (2 * (q * den) == 2 * num + den || 2 * num == 2 * (q * den) + den) ==> q % 2 == 0
        }),
{
    let q = num / den;
    let r = num % den;
    vstd::arithmetic::div_mod::lemma_fundamental_div_mod(num as int, den as int);
    assert(den * q == q * den) by (nonlinear_arith);
    assert((q + 1) * den == q * den + den) by (nonlinear_arith);
}

/// A size below a kibibyte is written in bytes. A whole number of kibibytes,
/// mebibytes or gibibytes is written as that number, with one decimal, in the
/// largest of the units that it fills.
pub proof fn a_size_is_written_in_its_unit(n: nat, k: nat)
    requires
        1 <= k < 1024,
    ensures
        n < 1024 ==> bytes_text(n as int) == decimal(n) + " B"@,
        bytes_text((k * 1024) as int) == decimal(k) + "."@ + decimal(0) + " KiB"@,
        bytes_text((k * 1_048_576) as int) == decimal(k) + "."@ + decimal(0) + " MiB"@,
        bytes_text((k * 1_073_741_824) as int) == decimal(k) + "."@ + decimal(0) + " GiB"@,
        0 < n < 9_007_199_254_740_992 ==> bytes_text(-(n as int)) == seq!['-'] + decimal(n)
            + " B"@,
{
    lemma_small_sizes_are_exact(n);
    lemma_small_sizes_are_exact(k * 1024);
    lemma_small_sizes_are_exact(k * 1_048_576);
    lemma_small_sizes_are_exact(k * 1_073_741_824);
    lemma_whole_units(k, 1024);
    lemma_whole_units(k, 1_048_576);
    lemma_whole_units(k, 1_073_741_824);
}

/// A size in between is written in the largest unit that it fills, to the nearest
/// tenth of it.
pub proof fn a_size_is_written_to_the_nearest_tenth(n: nat)
    requires
        n < 9_007_199_254_740_992,
    ensures
        1024 <= n < 1_048_576 ==> ({
            let t = round_half_even(10 * n, 1024);
            &&& bytes_text(n as int) == decimal(t / 10) + "."@ + decimal(t % 10) + " KiB"@
            &&& 2 * (t * 1024) <= 20 * n + 1024 && 20 * n <= 2 * (t * 1024) + 1024
        }),
        1_048_576 <= n < 1_073_741_824 ==> ({
            let t = round_half_even(10 * n, 1_048_576);
            &&& bytes_text(n as int) == decimal(t / 10) + "."@ + decimal(t % 10) + " MiB"@
            &&& 2 * (t * 1_048_576) <= 20 * n + 1_048_576 && 20 * n <= 2 * (t * 1_048_576)
                + 1_048_576
        }),
        1_073_741_824 <= n ==> ({
            let t = round_half_even(10 * n, 1_073_741_824);
            &&& bytes_text(n as int) == decimal(t / 10) + "."@ + decimal(t % 10) + " GiB"@
            &&& 2 * (t * 1_073_741_824) <= 20 * n + 1_073_741_824 && 20 * n <= 2 * (t
                * 1_073_741_824) + 1_073_741_824
        }),
{
    lemma_small_sizes_are_exact(n);
    rounding_goes_to_the_nearest(10 * n, 1024);
    rounding_goes_to_the_nearest(10 * n, 1_048_576);
    rounding_goes_to_the_nearest(10 * n, 1_073_741_824);
}

proof fn lemma_small_sizes_are_exact(n: nat)
    ensures
        n < 9_007_199_254_740_992 ==> nearest_53_bits(n) == n,
{
    if n < 9_007_199_254_740_992 {
        assert(step_of_53_bits(n) == 1);
        assert(n / 1 == n && n % 1 == 0);
    }
}

proof fn lemma_whole_units(k: nat, unit: nat)
    requires
        unit > 0,
    ensures
        one_decimal(k * unit, unit) == decimal(k) + "."@ + decimal(0),
{
    assert(10 * (k * unit) == (10 * k) * unit) by (nonlinear_arith);
    vstd::arithmetic::div_mod::lemma_div_multiples_vanish((10 * k) as int, unit as int);
    vstd::arithmetic::div_mod::lemma_mod_multiples_basic((10 * k) as int, unit as int);
    assert((10 * k) * unit == unit * (10 * k)) by (nonlinear_arith);
    assert(round_half_even(10 * (k * unit), unit) == 10 * k);
    assert((10 * k) / 10 == k && (10 * k) % 10 == 0);
}

// ---- times ----

/// A date is written as it is read: year, month and day, hour, minute and second.
pub proof fn a_time_is_written_as_its_date(t: CivilTime, ts: i64)
    requires
        t.valid(),
        t.unix_time() == ts,
        -62_167_219_200 <= ts <= 253_402_300_799,
    ensures
        time_text(ts) == four_digits(t.year) + seq!['-'] + two_digits(t.month) + seq!['-']
            + two_digits(t.day) + seq![' '] + two_digits(t.hour) + seq![':'] + two_digits(t.minute)
            + seq![':'] + two_digits(t.second) + seq![' ', 'U', 'T', 'C'],
{
    assert(showable(ts as int));
    let m = moment(ts);
    assert(m.valid() && m.unix_time() == ts);
    a_moment_has_one_date(m, t);
}

/// A time that has no date with four digits for the year is written as a number.
pub proof fn a_time_without_a_date_is_a_number(ts: i64)
    requires
        ts < -62_167_219_200 || ts > 253_402_300_799,
    ensures
        time_text(ts) == signed_decimal(ts as int),
{
}

/// Time goes on second by second, from the first second of 1970 on.
pub proof fn time_goes_on(t: CivilTime)
    requires
        t.valid(),
    ensures
        (CivilTime { year: 1970, month: 1, day: 1, hour: 0, minute: 0, second: 0 }).unix_time()
            == 0,
        t.second < 59 ==> (CivilTime { second: t.second + 1, ..t }).unix_time() == t.unix_time()
            + 1,
        t.second == 59 && t.minute < 59 ==> (CivilTime { second: 0, minute: t.minute + 1, ..t
        }).unix_time() == t.unix_time() + 1,
        t.second == 59 && t.minute == 59 && t.hour < 23 ==> (CivilTime {
            second: 0,
            minute: 0,
            hour: t.hour + 1,
            ..t
        }).unix_time() == t.unix_time() + 1,
        t.second == 59 && t.minute == 59 && t.hour == 23 && t.day < days_in_month(t.year, t.month)
            ==> (CivilTime { second: 0, minute: 0, hour: 0, day: t.day + 1, ..t }).unix_time()
            == t.unix_time() + 1,
{
    reveal_with_fuel(days_before_month, 2);
}

/// The last day of a month is followed by the first of the next one, and the last
/// of a year by the first of January.
pub proof fn months_and_years_go_on(t: CivilTime)
    requires
        t.valid(),
        t.day == days_in_month(t.year, t.month),
    ensures
        t.month < 12 ==> (CivilTime { day: 1, month: t.month + 1, ..t }).unix_time()
            == t.unix_time() + 86_400,
        t.month == 12 ==> (CivilTime { day: 1, month: 1, year: t.year + 1, ..t }).unix_time()
            == t.unix_time() + 86_400,
{
    reveal_with_fuel(days_before_month, 14);
    years_have_their_length(t.year);
}

/// A year has 365 days, and one more every four years but not in three of four
/// centuries; the months have theirs.
pub proof fn years_have_their_length(y: int)
    ensures
        days_before_year(y + 1) - days_before_year(y) == (if y % 400 == 0 || (y % 4 == 0 && y % 100
            != 0) {
            366int
        } else {
            365int
        }),
        days_in_month(y, 1) == 31 && days_in_month(y, 3) == 31 && days_in_month(y, 5) == 31,
        days_in_month(y, 7) == 31 && days_in_month(y, 8) == 31 && days_in_month(y, 10) == 31,
        days_in_month(y, 12) == 31 && days_in_month(y, 4) == 30 && days_in_month(y, 6) == 30,
        days_in_month(y, 9) == 30 && days_in_month(y, 11) == 30,
        days_in_month(y, 2) == 28 + (days_before_year(y + 1) - days_before_year(y) - 365),
        is_leap(y) <==> days_before_year(y + 1) - days_before_year(y) == 366,
{
    lemma_year_length(y);
    assert(y % 100 == 0 ==> y % 4 == 0);
    assert(y % 400 == 0 ==> y % 100 == 0);
}

/// The numbers of a date are written with all their digits.
pub proof fn dates_have_all_their_digits(n: nat)
    ensures
        n < 10 ==> two_digits(n as int) == seq!['0'] + decimal(n),
        10 <= n < 100 ==> two_digits(n as int) == decimal(n),
        1000 <= n < 10_000 ==> four_digits(n as int) == decimal(n),
        100 <= n < 1000 ==> four_digits(n as int) == seq!['0'] + decimal(n),
        10 <= n < 100 ==> four_digits(n as int) == seq!['0', '0'] + decimal(n),
        n < 10 ==> four_digits(n as int) == seq!['0', '0', '0'] + decimal(n),
{
    reveal_with_fuel(decimal, 5);
    assert(digit_char(0) == '0');
    assert(n < 10 ==> two_digits(n as int) =~= seq!['0'] + decimal(n));
    assert(10 <= n < 100 ==> two_digits(n as int) =~= decimal(n));
    assert(1000 <= n < 10_000 ==> four_digits(n as int) =~= decimal(n));
    assert(100 <= n < 1000 ==> four_digits(n as int) =~= seq!['0'] + decimal(n));
    assert(10 <= n < 100 ==> four_digits(n as int) =~= seq!['0', '0'] + decimal(n));
    assert(n < 10 ==> four_digits(n as int) =~= seq!['0', '0', '0'] + decimal(n));
}

/// A character is replaced wherever it stands, and no other is.
pub proof fn replacing_goes_character_by_character(s: Seq<char>, c: char, other: char, by: Seq<char>)
    requires
        other != c,
    ensures
        replaced(Seq::empty(), c, by) == Seq::<char>::empty(),
        replaced(s.push(c), c, by) == replaced(s, c, by) + by,
        replaced(s.push(other), c, by) == replaced(s, c, by).push(other),
{
    assert(s.push(c).drop_last() =~= s);
    assert(s.push(other).drop_last() =~= s);
}

/// A size of more than 53 bits is counted to the nearest one that they hold: no
/// further away than half of the last bit.
pub proof fn large_sizes_are_counted_in_53_bits(n: nat)
    ensures
        n < 9_007_199_254_740_992 ==> step_of_53_bits(n) == 1 && nearest_53_bits(n) == n,
        n >= 9_007_199_254_740_992 ==> step_of_53_bits(n) == 2 * step_of_53_bits(n / 2),
        2 * nearest_53_bits(n) <= 2 * n + step_of_53_bits(n),
        2 * n <= 2 * nearest_53_bits(n) + step_of_53_bits(n),
    decreases n,
{
    lemma_small_sizes_are_exact(n);
    lemma_steps_are_positive(n);
    rounding_goes_to_the_nearest(n, step_of_53_bits(n));
}

proof fn lemma_steps_are_positive(n: nat)
    ensures
        step_of_53_bits(n) >= 1,
    decreases n,
{
    if n >= 0x20_0000_0000_0000 {
        lemma_steps_are_positive(n / 2);
    }
}

} // verus!
