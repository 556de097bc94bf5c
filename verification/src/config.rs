//! The two settings that come from the environment, the clock, and the way
//! times, durations and sizes are shown.

use vstd::arithmetic::div_mod::{lemma_fundamental_div_mod, lemma_fundamental_div_mod_converse};
use vstd::prelude::*;
use vstd::string::*;

use crate::text::{chars_of, decimal, digit_char, show_i64, show_u128, signed_decimal};

verus! {

/// What the process has to know before it can open the database: everything
/// else is a setting that lives there.
#[derive(Debug, Clone)]
pub struct Config {
    /// Directory for the SQLite database, TLS material and the admin setup token.
    pub data_dir: String,
    /// Address of the plaintext web UI. It is bound once and never moved.
    pub http_addr: String,
}

pub const DEFAULT_DATA_DIR: &'static str = "./data";

pub const DEFAULT_HTTP_ADDR: &'static str = "0.0.0.0:8080";

/// The value of an environment variable: `default` if it is unset or empty.
pub open spec fn env_value(value: Option<Seq<char>>, default: Seq<char>) -> Seq<char> {
    match value {
        Some(v) => if v.len() > 0 {
            v
        } else {
            default
        },
        None => default,
    }
}

fn env_or(value: Option<String>, default: &str) -> (r: String)
    ensures
        r@ == env_value(crate::text::opt_text(value), default@),
{
    match value {
        Some(v) => if v.as_str().is_empty() {
            default.to_string()
        } else {
            v
        },
        None => default.to_string(),
    }
}

impl Config {
    /// Reads the configuration from the values of `SMTPVOID_DATA_DIR` and
    /// `SMTPVOID_HTTP_ADDR`. An unset or empty variable means its default.
    pub fn from_env(data_dir: Option<String>, http_addr: Option<String>) -> (r: Self)
        ensures
            r.data_dir@ == env_value(crate::text::opt_text(data_dir), DEFAULT_DATA_DIR@),
            r.http_addr@ == env_value(crate::text::opt_text(http_addr), DEFAULT_HTTP_ADDR@),
    {
        Config {
            data_dir: env_or(data_dir, DEFAULT_DATA_DIR),
            http_addr: env_or(http_addr, DEFAULT_HTTP_ADDR),
        }
    }
}

// ---- the clock ----

/// `SystemTime::now` and `SystemTime::duration_since` of the standard library:
/// the whole seconds since the Unix epoch, or `None` if the clock stands before
/// it. Nothing is claimed of the result, which depends on the clock.
#[verifier::external_body]
fn system_clock() -> Option<u64> {
    std::time::SystemTime::now()
        .duration_since(std::time::UNIX_EPOCH)
        .ok()
        .map(|d| d.as_secs())
}

/// A clock reading as a Unix time: 0 if the clock stands before the epoch.
pub fn unix_time_of(clock: Option<u64>) -> (r: i64)
    ensures
        r == (match clock {
            Some(secs) => secs as i64,
            None => 0i64,
        }),
{
    match clock {
        Some(secs) => #[verifier::truncate] (secs as i64),
        None => 0,
    }
}

/// Current unix time in seconds.
pub fn now_unix() -> i64 {
    unix_time_of(system_clock())
}

// ---- timestamps ----

/// The days from the first day of year 0 to the first day of year `y`, in the
/// Gregorian calendar.
pub open spec fn days_before_year(y: int) -> int {
    365 * y + (y + 3) / 4 - (y + 99) / 100 + (y + 399) / 400
}

pub open spec fn is_leap(y: int) -> bool {
    y % 4 == 0 && (y % 100 != 0 || y % 400 == 0)
}

pub open spec fn days_in_month(y: int, m: int) -> int {
    if m == 2 {
        if is_leap(y) {
            29
        } else {
            28
        }
    } else if m == 4 || m == 6 || m == 9 || m == 11 {
        30
    } else {
        31
    }
}

/// The days of year `y` before its month `m`.
pub open spec fn days_before_month(y: int, m: int) -> int
    decreases m,
{
    if m <= 1 {
        0
    } else {
        days_before_month(y, m - 1) + days_in_month(y, m - 1)
    }
}

/// A moment as a calendar shows it in UTC.
pub struct CivilTime {
    pub year: int,
    pub month: int,
    pub day: int,
    pub hour: int,
    pub minute: int,
    pub second: int,
}

impl CivilTime {
    pub open spec fn valid(self) -> bool {
        &&& 0 <= self.year <= 9999
        &&& 1 <= self.month <= 12
        &&& 1 <= self.day <= days_in_month(self.year, self.month)
        &&& 0 <= self.hour < 24
        &&& 0 <= self.minute < 60
        &&& 0 <= self.second < 60
    }

    /// The Unix time of this moment.
    pub open spec fn unix_time(self) -> int {
        let days = days_before_year(self.year) + days_before_month(self.year, self.month)
            + self.day - 1 - days_before_year(1970);
        days * 86_400 + self.hour * 3600 + self.minute * 60 + self.second
    }

    /// `YYYY-MM-DDTHH:MM:SSZ`.
    pub open spec fn rfc3339(self) -> Seq<char> {
        four_digits(self.year) + seq!['-'] + two_digits(self.month) + seq!['-'] + two_digits(
            self.day,
        ) + seq!['T'] + two_digits(self.hour) + seq![':'] + two_digits(self.minute) + seq![':']
            + two_digits(self.second) + seq!['Z']
    }

    /// `YYYY-MM-DD HH:MM:SS UTC`.
    pub open spec fn shown(self) -> Seq<char> {
        four_digits(self.year) + seq!['-'] + two_digits(self.month) + seq!['-'] + two_digits(
            self.day,
        ) + seq![' '] + two_digits(self.hour) + seq![':'] + two_digits(self.minute) + seq![':']
            + two_digits(self.second) + seq![' ', 'U', 'T', 'C']
    }
}

/// `n` as two digits.
pub open spec fn two_digits(n: int) -> Seq<char> {
    seq![digit_char((n / 10 % 10) as nat), digit_char((n % 10) as nat)]
}

/// `n` as four digits.
pub open spec fn four_digits(n: int) -> Seq<char> {
    seq![
        digit_char((n / 1000 % 10) as nat),
        digit_char((n / 100 % 10) as nat),
        digit_char((n / 10 % 10) as nat),
        digit_char((n % 10) as nat),
    ]
}

/// Whether a calendar with four-digit years can show `ts`: the years 0 to 9999.
pub open spec fn showable(ts: int) -> bool {
    -62_167_219_200 <= ts <= 253_402_300_799
}

/// `time::OffsetDateTime::from_unix_timestamp`, then its `format` with the
/// well-known description `Rfc3339`. Both together succeed exactly for the
/// years 0 to 9999, and the text is the date and time of the moment that the
/// timestamp names.
#[verifier::external_body]
fn format_rfc3339(ts: i64) -> (r: Option<String>)
    ensures
        match r {
            Some(s) => showable(ts as int) && exists|t: CivilTime| #[trigger]
                t.valid() && t.unix_time() == ts && s@ == t.rfc3339(),
            None => !showable(ts as int),
        },
{
    let moment = time::OffsetDateTime::from_unix_timestamp(ts).ok()?;
    moment.format(&time::format_description::well_known::Rfc3339).ok()
}

/// `s` with every `c` replaced by `by`.
pub open spec fn replaced(s: Seq<char>, c: char, by: Seq<char>) -> Seq<char>
    decreases s.len(),
{
    if s.len() == 0 {
        Seq::empty()
    } else if s.last() == c {
        replaced(s.drop_last(), c, by) + by
    } else {
        replaced(s.drop_last(), c, by).push(s.last())
    }
}

fn replace(s: &str, c: char, by: &str) -> (r: String)
    ensures
        r@ == replaced(s@, c, by@),
{
    let cs = chars_of(s);
    let mut out = String::new();
    let mut i: usize = 0;
    while i < cs.len()
        invariant
            i <= cs@.len(),
            out@ == replaced(cs@.take(i as int), c, by@),
        decreases cs@.len() - i,
    {
        assert(cs@.take(i + 1).drop_last() =~= cs@.take(i as int));
        if cs[i] == c {
            out.append(by);
        } else {
            out.push(cs[i]);
        }
        i += 1;
    }
    assert(cs@.take(cs@.len() as int) =~= cs@);
    out
}

/// A timestamp whose RFC 3339 form is `rfc3339`, as it is shown.
pub open spec fn shown_time(rfc3339: Seq<char>) -> Seq<char> {
    replaced(replaced(rfc3339, 'T', " "@), 'Z', " UTC"@)
}

/// The moment that `ts` names.
pub open spec fn moment(ts: i64) -> CivilTime {
    choose|t: CivilTime| #[trigger] t.valid() && t.unix_time() == ts
}

/// What [`fmt_ts`] shows for `ts`.
pub open spec fn time_text(ts: i64) -> Seq<char> {
    if showable(ts as int) {
        moment(ts).shown()
    } else {
        signed_decimal(ts as int)
    }
}

/// A timestamp as it is shown, given its RFC 3339 form if it has one.
pub fn show_time(ts: i64, rfc3339: Option<String>) -> (r: String)
    ensures
        r@ == (match rfc3339 {
            Some(s) => shown_time(s@),
            None => signed_decimal(ts as int),
        }),
{
    match rfc3339 {
        Some(s) => {
            let t = replace(s.as_str(), 'T', " ");
            replace(t.as_str(), 'Z', " UTC")
        },
        None => show_i64(ts),
    }
}

/// Format a unix timestamp as "YYYY-MM-DD HH:MM:SS UTC". A timestamp outside
/// the years 0 to 9999 is shown as a number.
pub fn fmt_ts(ts: i64) -> (r: String)
    ensures
        r@ == time_text(ts),
        showable(ts as int) ==> moment(ts).valid() && moment(ts).unix_time() == ts,
{
    let raw = format_rfc3339(ts);
    proof {
        if raw is Some {
            let s = raw->0;
            let t = choose|t: CivilTime| #[trigger]
                t.valid() && t.unix_time() == ts && s@ == t.rfc3339();
            rfc3339_is_shown(t);
            a_moment_has_one_date(t, moment(ts));
        }
    }
    show_time(ts, raw)
}

/// Rounding up grows by one exactly past a multiple.
proof fn lemma_rounding_up(y: int, d: int)
    requires
        d > 0,
    ensures
        (y + d) / d == (y + d - 1) / d + (if y % d == 0 {
            1int
        } else {
            0int
        }),
{
    let q = y / d;
    let r = y % d;
    lemma_fundamental_div_mod(y, d);
    assert(y + d == d * (q + 1) + r) by (nonlinear_arith)
        requires
            y == d * q + r,
    ;
    lemma_fundamental_div_mod_converse(y + d, d, q + 1, r);
    if r == 0 {
        assert(y + d - 1 == d * q + (d - 1));
        lemma_fundamental_div_mod_converse(y + d - 1, d, q, d - 1);
    } else {
        assert(y + d - 1 == d * (q + 1) + (r - 1));
        lemma_fundamental_div_mod_converse(y + d - 1, d, q + 1, r - 1);
    }
}

pub(crate) proof fn lemma_year_length(y: int)
    ensures
        days_before_year(y + 1) == days_before_year(y) + (if is_leap(y) {
            366int
        } else {
            365int
        }),
{
    lemma_rounding_up(y, 4);
    lemma_rounding_up(y, 100);
    lemma_rounding_up(y, 400);
    assert(y % 100 == 0 ==> y % 4 == 0);
    assert(y % 400 == 0 ==> y % 100 == 0);
}

proof fn lemma_years_grow(a: int, b: int)
    requires
        a <= b,
    ensures
        days_before_year(a) <= days_before_year(b),
    decreases b - a,
{
    if a < b {
        lemma_years_grow(a, b - 1);
        lemma_year_length(b - 1);
    }
}

proof fn lemma_months_grow(y: int, a: int, b: int)
    requires
        1 <= a <= b,
    ensures
        days_before_month(y, a) <= days_before_month(y, b),
    decreases b - a,
{
    if a < b {
        lemma_months_grow(y, a, b - 1);
    }
}

/// A day of a year comes before the end of that year.
proof fn lemma_day_of_year(t: CivilTime)
    requires
        t.valid(),
    ensures
        0 <= days_before_month(t.year, t.month),
        days_before_month(t.year, t.month) + t.day <= (if is_leap(t.year) {
            366int
        } else {
            365int
        }),
{
    reveal_with_fuel(days_before_month, 14);
    lemma_months_grow(t.year, 1, t.month);
    lemma_months_grow(t.year, t.month + 1, 13);
}

/// A number of seconds holds one number of days and one time of day.
proof fn lemma_time_of_day(day_a: int, a: CivilTime, day_b: int, b: CivilTime)
    requires
        a.valid(),
        b.valid(),
        day_a * 86_400 + a.hour * 3600 + a.minute * 60 + a.second == day_b * 86_400 + b.hour * 3600
            + b.minute * 60 + b.second,
    ensures
        day_a == day_b,
        a.hour == b.hour,
        a.minute == b.minute,
        a.second == b.second,
{
    let (ha, ma, sa) = (a.hour, a.minute, a.second);
    let (hb, mb, sb) = (b.hour, b.minute, b.second);
    lemma_mixed(day_a * 24 + ha, ma, sa, day_b * 24 + hb, mb, sb);
    assert(day_a == day_b && ha == hb);
}

proof fn lemma_mixed(ha: int, ma: int, sa: int, hb: int, mb: int, sb: int)
    requires
        0 <= ma < 60,
        0 <= sa < 60,
        0 <= mb < 60,
        0 <= sb < 60,
        ha * 3600 + ma * 60 + sa == hb * 3600 + mb * 60 + sb,
    ensures
        ha == hb,
        ma == mb,
        sa == sb,
{
    assert(ha * 60 + ma == hb * 60 + mb && sa == sb);
}

/// An earlier date has a smaller day number.
proof fn lemma_dates_grow(a: CivilTime, b: CivilTime)
    requires
        a.valid(),
        b.valid(),
        a.year < b.year || a.year == b.year && a.month < b.month,
    ensures
        days_before_year(a.year) + days_before_month(a.year, a.month) + a.day < days_before_year(
            b.year,
        ) + days_before_month(b.year, b.month) + b.day,
{
    if a.year < b.year {
        lemma_day_of_year(a);
        lemma_day_of_year(b);
        lemma_year_length(a.year);
        lemma_years_grow(a.year + 1, b.year);
    } else {
        lemma_months_grow(a.year, a.month + 1, b.month);
    }
}

/// A moment has one date and time: no two show the same Unix time.
pub proof fn a_moment_has_one_date(a: CivilTime, b: CivilTime)
    requires
        a.valid(),
        b.valid(),
        a.unix_time() == b.unix_time(),
    ensures
        a == b,
{
    let epoch = days_before_year(1970);
    let day_a = days_before_year(a.year) + days_before_month(a.year, a.month) + a.day;
    let day_b = days_before_year(b.year) + days_before_month(b.year, b.month) + b.day;
    lemma_time_of_day(day_a - 1 - epoch, a, day_b - 1 - epoch, b);
    if a.year < b.year || a.year == b.year && a.month < b.month {
        lemma_dates_grow(a, b);
    }
    if b.year < a.year || a.year == b.year && b.month < a.month {
        lemma_dates_grow(b, a);
    }
}

proof fn lemma_replaced_concat(a: Seq<char>, b: Seq<char>, c: char, by: Seq<char>)
    ensures
        replaced(a + b, c, by) == replaced(a, c, by) + replaced(b, c, by),
    decreases b.len(),
{
    if b.len() == 0 {
        assert(a + b =~= a);
        assert(replaced(a, c, by) + replaced(b, c, by) =~= replaced(a, c, by));
    } else {
        lemma_replaced_concat(a, b.drop_last(), c, by);
        assert((a + b).drop_last() =~= a + b.drop_last());
        assert((a + b).last() == b.last());
        assert(replaced(a + b, c, by) =~= replaced(a, c, by) + replaced(b, c, by));
    }
}

proof fn lemma_replaced_absent(a: Seq<char>, c: char, by: Seq<char>)
    requires
        forall|i: int| 0 <= i < a.len() ==> a[i] != c,
    ensures
        replaced(a, c, by) == a,
    decreases a.len(),
{
    if a.len() > 0 {
        lemma_replaced_absent(a.drop_last(), c, by);
        assert(a.drop_last().push(a.last()) =~= a);
    }
}

/// The RFC 3339 form of a moment is shown with a space and "UTC".
pub proof fn rfc3339_is_shown(t: CivilTime)
    ensures
        shown_time(t.rfc3339()) == t.shown(),
{
    reveal_strlit(" ");
    reveal_strlit(" UTC");
    let date = four_digits(t.year) + seq!['-'] + two_digits(t.month) + seq!['-'] + two_digits(
        t.day,
    );
    let time = two_digits(t.hour) + seq![':'] + two_digits(t.minute) + seq![':'] + two_digits(
        t.second,
    );
    let whole = date + seq!['T'] + time + seq!['Z'];
    assert(whole =~= t.rfc3339());
    lemma_replaced_absent(date, 'T', " "@);
    lemma_replaced_absent(time, 'T', " "@);
    lemma_replaced_absent(seq!['Z'], 'T', " "@);
    lemma_replaced_concat(date, seq!['T'], 'T', " "@);
    lemma_replaced_concat(date + seq!['T'], time, 'T', " "@);
    lemma_replaced_concat(date + seq!['T'] + time, seq!['Z'], 'T', " "@);
    assert(seq!['T'].drop_last() =~= Seq::<char>::empty());
    assert(replaced(Seq::empty(), 'T', " "@) =~= Seq::<char>::empty());
    assert(replaced(seq!['T'], 'T', " "@) =~= seq![' ']);
    let mid = date + seq![' '] + time + seq!['Z'];
    assert(replaced(whole, 'T', " "@) =~= mid);
    let front = date + seq![' '] + time;
    lemma_replaced_absent(front, 'Z', " UTC"@);
    lemma_replaced_concat(front, seq!['Z'], 'Z', " UTC"@);
    assert(seq!['Z'].drop_last() =~= Seq::<char>::empty());
    assert(replaced(Seq::empty(), 'Z', " UTC"@) =~= Seq::<char>::empty());
    assert(replaced(seq!['Z'], 'Z', " UTC"@) =~= " UTC"@);
    assert(replaced(mid, 'Z', " UTC"@) =~= front + " UTC"@);
    assert(front + " UTC"@ =~= t.shown());
}

// ---- durations ----

/// A duration in its two largest units, or in seconds alone below a minute.
/// A negative duration is shown as none.
pub open spec fn duration_text(secs: int) -> Seq<char> {
    let n = if secs < 0 {
        0
    } else {
        secs
    };
    let d = n / 86_400;
    let h = n % 86_400 / 3600;
    let m = n % 3600 / 60;
    let s = n % 60;
    if d > 0 {
        decimal(d as nat) + "d "@ + decimal(h as nat) + "h"@
    } else if h > 0 {
        decimal(h as nat) + "h "@ + decimal(m as nat) + "m"@
    } else if m > 0 {
        decimal(m as nat) + "m "@ + decimal(s as nat) + "s"@
    } else {
        decimal(s as nat) + "s"@
    }
}

fn show_duration(n: u128) -> (r: String)
    requires
        n <= 0x1_0000_0000_0000_0000,
    ensures
        r@ == duration_text(n as int),
{
    let d = n / 86_400;
    let h = n % 86_400 / 3600;
    let m = n % 3600 / 60;
    let s = n % 60;
    if d > 0 {
        let mut out = show_u128(d);
        out.append("d ");
        out.append(show_u128(h).as_str());
        out.append("h");
        out
    } else if h > 0 {
        let mut out = show_u128(h);
        out.append("h ");
        out.append(show_u128(m).as_str());
        out.append("m");
        out
    } else if m > 0 {
        let mut out = show_u128(m);
        out.append("m ");
        out.append(show_u128(s).as_str());
        out.append("s");
        out
    } else {
        let mut out = show_u128(s);
        out.append("s");
        out
    }
}

/// Human-readable duration like "42m 10s".
pub fn fmt_duration(secs: i64) -> (r: String)
    ensures
        r@ == duration_text(secs as int),
{
    show_duration(
        if secs < 0 {
            0
        } else {
            secs as u128
        },
    )
}

/// The time from `from` to `to`, shown as a duration.
pub fn fmt_span(from: i64, to: i64) -> (r: String)
    ensures
        r@ == duration_text(to - from),
{
    let span = to as i128 - from as i128;
    show_duration(
        if span < 0 {
            0
        } else {
            span as u128
        },
    )
}

// ---- sizes ----

/// `num / den` rounded to the nearest integer, ties to the even one.
pub open spec fn round_half_even(num: nat, den: nat) -> nat {
    let q = num / den;
    let r = num % den;
    if 2 * r > den || (2 * r == den && q % 2 == 1) {
        q + 1
    } else {
        q
    }
}

/// `num / den` rounded to the nearest integer, ties to the even one.
pub fn round_ratio(num: u128, den: u128) -> (r: u128)
    requires
        0 < den <= 0xffff_ffff_ffff_ffff,
        num <= 0xffff_ffff_ffff_ffff_ffff_ffff_ffff,
    ensures
        r == round_half_even(num as nat, den as nat),
        r <= num / den + 1,
{
    let q = num / den;
    let rest = num % den;
    assert(rest < den) by (nonlinear_arith)
        requires
            rest == num % den,
            den > 0,
    ;
    assert(q <= num) by (nonlinear_arith)
        requires
            q == num / den,
            den > 0,
    ;
    if 2 * rest > den || (2 * rest == den && q % 2 == 1) {
        q + 1
    } else {
        q
    }
}

/// The distance between neighbouring numbers of 53 significant bits around `n`.
pub open spec fn step_of_53_bits(n: nat) -> nat
    decreases n,
{
    if n < 0x20_0000_0000_0000 {
        1
    } else {
        2 * step_of_53_bits(n / 2)
    }
}

/// The number of 53 significant bits that is nearest to `n`, ties to even: `n`
/// itself below 2^53.
pub open spec fn nearest_53_bits(n: nat) -> nat {
    round_half_even(n, step_of_53_bits(n)) * step_of_53_bits(n)
}

/// The distance between neighbouring numbers of 53 significant bits around `n`.
pub fn step_53(n: u128) -> (r: u128)
    requires
        n <= 0x100_0000_0000_0000_0000_0000_0000,
    ensures
        r == step_of_53_bits(n as nat),
        1 <= r,
        r == 1 || r * 0x10_0000_0000_0000 <= n,
{
    let mut m: u128 = n;
    let mut step: u128 = 1;
    while m >= 0x20_0000_0000_0000
        invariant
            n <= 0x100_0000_0000_0000_0000_0000_0000,
            1 <= step,
            m * step <= n,
            step == 1 || step * 0x10_0000_0000_0000 <= n,
            step * step_of_53_bits(m as nat) == step_of_53_bits(n as nat),
        decreases m,
    {
        proof {
            let inner = step_of_53_bits((m / 2) as nat);
            assert(step * (2 * inner) == (step * 2) * inner) by (nonlinear_arith);
            assert(step * 0x20_0000_0000_0000 <= n) by (nonlinear_arith)
                requires
                    m * step <= n,
                    m >= 0x20_0000_0000_0000,
            ;
            assert((m / 2) * (step * 2) <= n) by (nonlinear_arith)
                requires
                    m * step <= n,
            ;
        }
        m = m / 2;
        step = step * 2;
    }
    assert(step * step_of_53_bits(m as nat) == step) by (nonlinear_arith)
        requires
            step_of_53_bits(m as nat) == 1,
    ;
    step
}

/// The number of 53 significant bits that is nearest to `n`, ties to even.
pub fn to_53_bits(n: u128) -> (r: u128)
    requires
        n <= 0x1_0000_0000_0000_0000,
    ensures
        r == nearest_53_bits(n as nat),
        r <= n + 4096,
        n < 0x20_0000_0000_0000 ==> r == n,
{
    let step = step_53(n);
    let q = round_ratio(n, step);
    assert(q * step <= n + step) by (nonlinear_arith)
        requires
            q <= n / step + 1,
            step > 0,
    ;
    assert(0 <= q * step) by (nonlinear_arith);
    assert(step == 1 ==> q * step == n) by (nonlinear_arith)
        requires
            q == round_half_even(n as nat, step as nat),
    ;
    q * step
}

/// `n / unit` with one decimal.
pub open spec fn one_decimal(n: nat, unit: nat) -> Seq<char> {
    let tenths = round_half_even(10 * n, unit);
    decimal(tenths / 10) + "."@ + decimal(tenths % 10)
}

fn show_one_decimal(n: u128, unit: u128) -> (r: String)
    requires
        n <= 0x2_0000_0000_0000_0000,
        0 < unit <= 0x4000_0000,
    ensures
        r@ == one_decimal(n as nat, unit as nat),
{
    let tenths = round_ratio(10 * n, unit);
    let mut out = show_u128(tenths / 10);
    out.append(".");
    out.append(show_u128(tenths % 10).as_str());
    out
}

/// What [`fmt_bytes`] shows. The size goes through a number of 53 significant
/// bits, which is exact below 2^53.
pub open spec fn bytes_text(b: int) -> Seq<char> {
    if b < 0 {
        signed_decimal(-(nearest_53_bits((-b) as nat) as int)) + " B"@
    } else {
        let n = nearest_53_bits(b as nat);
        if n >= 0x4000_0000 {
            one_decimal(n, 0x4000_0000) + " GiB"@
        } else if n >= 0x10_0000 {
            one_decimal(n, 0x10_0000) + " MiB"@
        } else if n >= 0x400 {
            one_decimal(n, 0x400) + " KiB"@
        } else {
            decimal(n) + " B"@
        }
    }
}

/// Human-readable byte size.
pub fn fmt_bytes(b: i64) -> (r: String)
    ensures
        r@ == bytes_text(b as int),
{
    if b < 0 {
        let n = to_53_bits((-(b as i128)) as u128);
        let mut out = String::new();
        if n > 0 {
            out.push('-');
        }
        out.append(show_u128(n).as_str());
        proof {
            if n > 0 {
                assert(out@ =~= seq!['-'] + decimal(n as nat));
            } else {
                assert(out@ =~= decimal(0));
            }
        }
        out.append(" B");
        return out;
    }
    fmt_size(b as u64)
}

/// Human-readable size of something in memory.
pub fn fmt_size(b: u64) -> (r: String)
    ensures
        r@ == bytes_text(b as int),
{
    let n = to_53_bits(b as u128);
    if n >= 0x4000_0000 {
        let mut out = show_one_decimal(n, 0x4000_0000);
        out.append(" GiB");
        out
    } else if n >= 0x10_0000 {
        let mut out = show_one_decimal(n, 0x10_0000);
        out.append(" MiB");
        out
    } else if n >= 0x400 {
        let mut out = show_one_decimal(n, 0x400);
        out.append(" KiB");
        out
    } else {
        let mut out = show_u128(n);
        out.append(" B");
        out
    }
}

} // verus!
