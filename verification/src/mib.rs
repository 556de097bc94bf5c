//! Byte counts as the mebibytes of a form field, and back.
//!
//! Both directions go through a number of 53 significant bits, in exact integer
//! arithmetic.

use vstd::prelude::*;
use vstd::string::*;

use crate::config::{
    nearest_53_bits, round_half_even, round_ratio, step_53, step_of_53_bits, to_53_bits,
};
use crate::text::{
    all_digits, chars_of, decimal, digit_char, digit_value, digits_value, find_char, first_sep,
    index_of, is_digit, show_u128, signed_number, text_range, trim, trim_final, trimmed,
    without_final,
};

verus! {

/// The message-size limit is stored (and advertised over SMTP) in bytes, but
/// the settings form edits it in mebibytes, which is how operators think of it.
pub const MIB: usize = 1_048_576;

// ---- bytes to mebibytes ----

/// `n` as six digits.
pub open spec fn six_digits(n: nat) -> Seq<char> {
    seq![
        digit_char(n / 100_000 % 10),
        digit_char(n / 10_000 % 10),
        digit_char(n / 1000 % 10),
        digit_char(n / 100 % 10),
        digit_char(n / 10 % 10),
        digit_char(n % 10),
    ]
}

/// `n` as seven digits.
pub open spec fn seven_digits(n: nat) -> Seq<char> {
    seq![
        digit_char(n / 1_000_000 % 10),
        digit_char(n / 100_000 % 10),
        digit_char(n / 10_000 % 10),
        digit_char(n / 1000 % 10),
        digit_char(n / 100 % 10),
        digit_char(n / 10 % 10),
        digit_char(n % 10),
    ]
}

/// A decimal number without zeros at the end of its fraction.
pub open spec fn without_zeros(text: Seq<char>) -> Seq<char> {
    without_final(without_final(text, '0'), '.')
}

/// A byte count in mebibytes, to six decimals, without zeros at the end.
pub open spec fn six_decimals(bytes: nat) -> Seq<char> {
    let units = round_half_even(nearest_53_bits(bytes) * 1_000_000, 1_048_576);
    without_zeros(decimal(units / 1_000_000) + "."@ + six_digits(units % 1_000_000))
}

/// A byte count in mebibytes, to seven decimals, without zeros at the end.
pub open spec fn seven_decimals(bytes: nat) -> Seq<char> {
    let units = round_half_even(nearest_53_bits(bytes) * 10_000_000, 1_048_576);
    without_zeros(decimal(units / 10_000_000) + "."@ + seven_digits(units % 10_000_000))
}

/// A byte count in mebibytes: to six decimals, or to seven if the count comes back
/// from seven alone.
pub open spec fn mib_text(bytes: usize) -> Seq<char> {
    let six = six_decimals(bytes as nat);
    let seven = seven_decimals(bytes as nat);
    if mib_bytes(six) != Some(bytes) && mib_bytes(seven) == Some(bytes) {
        seven
    } else {
        six
    }
}

fn digit(d: u128) -> (r: char)
    requires
        d < 10,
    ensures
        r == digit_char(d as nat),
{
    (48 + d as u8) as char
}

fn trim_zeros(text: &str) -> (r: String)
    ensures
        r@ == without_zeros(text@),
{
    let bare = trim_final(text, '0');
    trim_final(bare.as_str(), '.')
}

fn show_six_decimals(bytes: usize) -> (r: String)
    ensures
        r@ == six_decimals(bytes as nat),
{
    let units = round_ratio(to_53_bits(bytes as u128) * 1_000_000, 1_048_576);
    let frac = units % 1_000_000;
    let mut text = show_u128(units / 1_000_000);
    text.append(".");
    let ghost head = text@;
    text.push(digit(frac / 100_000 % 10));
    text.push(digit(frac / 10_000 % 10));
    text.push(digit(frac / 1000 % 10));
    text.push(digit(frac / 100 % 10));
    text.push(digit(frac / 10 % 10));
    text.push(digit(frac % 10));
    assert(text@ =~= head + six_digits(frac as nat));
    trim_zeros(text.as_str())
}

fn show_seven_decimals(bytes: usize) -> (r: String)
    ensures
        r@ == seven_decimals(bytes as nat),
{
    let units = round_ratio(to_53_bits(bytes as u128) * 10_000_000, 1_048_576);
    let frac = units % 10_000_000;
    let mut text = show_u128(units / 10_000_000);
    text.append(".");
    let ghost head = text@;
    text.push(digit(frac / 1_000_000 % 10));
    text.push(digit(frac / 100_000 % 10));
    text.push(digit(frac / 10_000 % 10));
    text.push(digit(frac / 1000 % 10));
    text.push(digit(frac / 100 % 10));
    text.push(digit(frac / 10 % 10));
    text.push(digit(frac % 10));
    assert(text@ =~= head + seven_digits(frac as nat));
    trim_zeros(text.as_str())
}

fn comes_back(shown: &str, bytes: usize) -> (r: bool)
    ensures
        r == (mib_bytes(shown@) == Some(bytes)),
{
    match mib_as_bytes(shown) {
        Some(b) => b == bytes,
        None => false,
    }
}

/// A byte count as the MiB number to put in a form field. Six decimals resolve
/// to about a byte, and a seventh is shown where it takes one, so a value that was
/// never edited comes back unchanged.
pub fn bytes_as_mib(bytes: usize) -> (r: String)
    ensures
        r@ == mib_text(bytes),
{
    let six = show_six_decimals(bytes);
    if comes_back(six.as_str(), bytes) {
        return six;
    }
    let seven = show_seven_decimals(bytes);
    if comes_back(seven.as_str(), bytes) {
        seven
    } else {
        six
    }
}

// ---- powers and digits ----

pub open spec fn pow10(k: nat) -> nat
    decreases k,
{
    if k == 0 {
        1
    } else {
        10 * pow10((k - 1) as nat)
    }
}

pub open spec fn pow2(k: nat) -> nat
    decreases k,
{
    if k == 0 {
        1
    } else {
        2 * pow2((k - 1) as nat)
    }
}

/// The number that decimal digits write.
spec fn number_of(d: Seq<u8>) -> nat
    decreases d.len(),
{
    if d.len() == 0 {
        0
    } else {
        10 * number_of(d.drop_last()) + d.last() as nat
    }
}

spec fn are_digits(d: Seq<u8>) -> bool {
    forall|i: int| 0 <= i < d.len() ==> #[trigger] d[i] < 10
}

pub(crate) proof fn lemma_pow10_adds(a: nat, b: nat)
    ensures
        pow10(a + b) == pow10(a) * pow10(b),
        pow10(a) >= 1,
    decreases b,
{
    lemma_pow10_positive(a);
    if b > 0 {
        lemma_pow10_adds(a, (b - 1) as nat);
        let p = pow10(a);
        let q = pow10((b - 1) as nat);
        assert(10 * (p * q) == p * (10 * q)) by (nonlinear_arith);
    } else {
        assert(pow10(a) * 1 == pow10(a));
    }
}

pub(crate) proof fn lemma_pow10_positive(a: nat)
    ensures
        pow10(a) >= 1,
    decreases a,
{
    if a > 0 {
        lemma_pow10_positive((a - 1) as nat);
    }
}

proof fn lemma_pow10_grows(a: nat, b: nat)
    requires
        a <= b,
    ensures
        pow10(a) <= pow10(b),
    decreases b,
{
    if a < b {
        lemma_pow10_grows(a, (b - 1) as nat);
        lemma_pow10_positive((b - 1) as nat);
    }
}

proof fn lemma_number_concat(a: Seq<u8>, b: Seq<u8>)
    ensures
        number_of(a + b) == number_of(a) * pow10(b.len()) + number_of(b),
    decreases b.len(),
{
    if b.len() == 0 {
        assert(a + b =~= a);
        assert(number_of(a) * 1 == number_of(a));
    } else {
        lemma_number_concat(a, b.drop_last());
        assert((a + b).drop_last() =~= a + b.drop_last());
        assert((a + b).last() == b.last());
        let x = number_of(a);
        let p = pow10((b.len() - 1) as nat);
        assert(10 * (x * p) == x * (10 * p)) by (nonlinear_arith);
    }
}

proof fn lemma_number_bounds(d: Seq<u8>)
    requires
        are_digits(d),
    ensures
        number_of(d) < pow10(d.len()),
        d.len() > 0 && d[0] > 0 ==> number_of(d) >= pow10((d.len() - 1) as nat),
    decreases d.len(),
{
    if d.len() > 0 {
        let before = d.drop_last();
        assert forall|i: int| 0 <= i < before.len() implies #[trigger] before[i] < 10 by {
            assert(before[i] == d[i]);
        }
        lemma_number_bounds(before);
        assert(d[d.len() - 1] < 10);
        if d.len() == 1 {
            assert(before.len() == 0);
        } else {
            assert(before[0] == d[0]);
        }
    }
}

proof fn lemma_number_of_zeros(d: Seq<u8>)
    requires
        forall|i: int| 0 <= i < d.len() ==> d[i] == 0,
    ensures
        number_of(d) == 0,
    decreases d.len(),
{
    if d.len() > 0 {
        let before = d.drop_last();
        assert forall|i: int| 0 <= i < before.len() implies before[i] == 0 by {
            assert(before[i] == d[i]);
        }
        lemma_number_of_zeros(before);
    }
}

// ---- rounding ----

/// The number `n / m / 2^h`, rounded to 53 significant bits and then to a whole
/// number, halves up. A number below a quarter is nothing.
pub open spec fn rounded_twice(n: nat, m: nat, h: nat) -> nat
    decreases 54 - h,
{
    if n < 0x10_0000_0000_0000 * m && h < 54 {
        rounded_twice(2 * n, m, h + 1)
    } else {
        let step = step_of_53_bits(n / m);
        let r = round_half_even(n, m * step) * step;
        (2 * r + pow2(h)) / pow2(h + 1)
    }
}

/// The bytes in `d * 10^x` mebibytes; `None` if they are too many to count.
pub open spec fn bytes_in_mib(d: nat, x: int) -> Option<usize> {
    let n = if x >= 0 {
        d * pow10(x as nat) * 1_048_576
    } else {
        d * 1_048_576
    };
    let m = if x >= 0 {
        1
    } else {
        pow10((-x) as nat)
    };
    let bytes = rounded_twice(n, m, 0);
    if bytes > nearest_53_bits(usize::MAX as nat) {
        None
    } else if bytes > usize::MAX {
        Some(usize::MAX)
    } else {
        Some(bytes as usize)
    }
}

/// A number as it is written in decimal: `digits * 10^exponent`.
pub struct Literal {
    pub negative: bool,
    pub digits: Seq<char>,
    pub exponent: int,
}

/// The sign of `s`, if it has one, left out.
pub open spec fn unsigned_part(s: Seq<char>) -> Seq<char> {
    if s.len() > 0 && (s[0] == '+' || s[0] == '-') {
        s.skip(1)
    } else {
        s
    }
}

/// The number that `s` writes: an optional sign, digits with an optional point
/// among or around them, and an optional exponent.
pub open spec fn literal_of(s: Seq<char>) -> Option<Literal> {
    let body = unsigned_part(s);
    let e = first_sep(body, seq!['e', 'E']);
    let mantissa = body.take(e);
    let point = index_of(mantissa, '.');
    let whole = mantissa.take(point);
    let frac = if point < mantissa.len() {
        mantissa.skip(point + 1)
    } else {
        Seq::empty()
    };
    let exponent = if e < body.len() {
        signed_number(body.skip(e + 1))
    } else {
        Some(0int)
    };
    if whole.len() + frac.len() > 0 && all_digits(whole + frac) && exponent is Some {
        Some(
            Literal {
                negative: s[0] == '-',
                digits: whole + frac,
                exponent: exponent->0 - frac.len(),
            },
        )
    } else {
        None
    }
}

/// The bytes that a form field in mebibytes stands for.
pub open spec fn mib_bytes(raw: Seq<char>) -> Option<usize> {
    match literal_of(trimmed(raw)) {
        Some(l) => if digits_value(l.digits) == 0 {
            Some(0)
        } else if l.negative {
            None
        } else {
            bytes_in_mib(digits_value(l.digits), l.exponent)
        },
        None => None,
    }
}

proof fn lemma_tiny_is_nothing(n: nat, m: nat, h: nat)
    requires
        m >= 1,
        4 * n < m * pow2(h),
        h <= 54,
    ensures
        rounded_twice(n, m, h) == 0,
    decreases 54 - h,
{
    lemma_pow2_54();
    if n < 0x10_0000_0000_0000 * m && h < 54 {
        assert(4 * (2 * n) < m * (2 * pow2(h))) by (nonlinear_arith)
            requires
                4 * n < m * pow2(h),
        ;
        lemma_tiny_is_nothing(2 * n, m, h + 1);
    } else {
        if h < 54 {
            lemma_pow2_bound(h);
            assert(false) by (nonlinear_arith)
                requires
                    n >= 0x10_0000_0000_0000 * m,
                    4 * n < m * pow2(h),
                    pow2(h) <= 0x20_0000_0000_0000,
                    m >= 1,
            ;
        }
        assert(n < 0x10_0000_0000_0000 * m) by (nonlinear_arith)
            requires
                4 * n < m * pow2(h),
                pow2(h) == 0x40_0000_0000_0000,
        ;
        let q = n / m;
        assert(q < 0x10_0000_0000_0000) by (nonlinear_arith)
            requires
                q == n / m,
                n < 0x10_0000_0000_0000 * m,
                m >= 1,
        ;
        assert(step_of_53_bits(q) == 1);
        assert(m * 1 == m);
        let r = round_half_even(n, m) * 1;
        assert(r <= 0x10_0000_0000_0000);
        assert(pow2(55) == 2 * pow2(54));
        assert((2 * r + pow2(54)) / pow2(55) == 0) by (nonlinear_arith)
            requires
                r <= 0x10_0000_0000_0000,
                pow2(54) == 0x40_0000_0000_0000,
                pow2(55) == 0x80_0000_0000_0000,
        ;
    }
}

pub(crate) proof fn lemma_pow2_54()
    ensures
        pow2(54) == 0x40_0000_0000_0000,
{
    reveal_with_fuel(pow2, 55);
}

proof fn lemma_pow2_bound(h: nat)
    requires
        h < 54,
    ensures
        1 <= pow2(h) <= 0x20_0000_0000_0000,
    decreases 54 - h,
{
    lemma_pow2_54();
    lemma_pow2_positive(h);
    if h < 53 {
        lemma_pow2_bound(h + 1);
        assert(pow2(h + 1) == 2 * pow2(h));
    } else {
        assert(pow2(54) == 2 * pow2(53));
    }
}

pub(crate) proof fn lemma_pow2_positive(h: nat)
    ensures
        pow2(h) >= 1,
    decreases h,
{
    if h > 0 {
        lemma_pow2_positive((h - 1) as nat);
    }
}

pub(crate) proof fn lemma_step_bounds(q: nat)
    requires
        q >= 0x10_0000_0000_0000,
    ensures
        step_of_53_bits(q) * 0x10_0000_0000_0000 <= q,
        q < step_of_53_bits(q) * 0x20_0000_0000_0000,
    decreases q,
{
    if q >= 0x20_0000_0000_0000 {
        lemma_step_bounds(q / 2);
    }
}

/// A number that is far too large stays too large when it is rounded.
proof fn lemma_huge_stays_huge(n: nat, m: nat)
    requires
        m >= 1,
        n >= 0x4_0000_0000_0000_0000 * m,
    ensures
        rounded_twice(n, m, 0) > 0x1_1000_0000_0000_0000,
{
    let q = n / m;
    assert(q >= 0x4_0000_0000_0000_0000) by (nonlinear_arith)
        requires
            q == n / m,
            m >= 1,
            n >= 0x4_0000_0000_0000_0000 * m,
    ;
    assert(!(n < 0x10_0000_0000_0000 * m)) by (nonlinear_arith)
        requires
            m >= 1,
            n >= 0x4_0000_0000_0000_0000 * m,
    ;
    let step = step_of_53_bits(q);
    lemma_step_bounds(q);
    assert(step > 0x2000);
    let t = n / (m * step);
    assert(t >= 0x10_0000_0000_0000) by (nonlinear_arith)
        requires
            t == n / (m * step),
            q == n / m,
            m >= 1,
            step >= 1,
            step * 0x10_0000_0000_0000 <= q,
    {
        assert(q * m <= n);
        assert(0x10_0000_0000_0000 * (m * step) <= n);
        assert(m * step >= 1);
    }
    let r = round_half_even(n, m * step) * step;
    assert(r >= 0x10_0000_0000_0000 * 0x2000) by (nonlinear_arith)
        requires
            r == round_half_even(n, m * step) * step,
            round_half_even(n, m * step) >= 0x10_0000_0000_0000,
            step > 0x2000,
    ;
    reveal_with_fuel(pow2, 2);
    assert((2 * r + 1) / 2 == r);
}

// ---- mebibytes to bytes ----

/// Doubles the fraction whose decimal digits are `d`; the result says whether a
/// whole came out.
fn double_fraction(d: &mut Vec<u8>) -> (carry: u8)
    requires
        are_digits(old(d)@),
    ensures
        are_digits(final(d)@),
        final(d)@.len() == old(d)@.len(),
        carry <= 1,
        2 * number_of(old(d)@) == carry * pow10(old(d)@.len()) + number_of(final(d)@),
{
    let ghost start = d@;
    let n = d.len();
    let mut carry: u8 = 0;
    let mut i: usize = n;
    assert(start.skip(n as int) =~= Seq::empty());
    while i > 0
        invariant
            i <= n,
            n == d@.len(),
            n == start.len(),
            carry <= 1,
            are_digits(start),
            are_digits(d@),
            d@.take(i as int) == start.take(i as int),
            2 * number_of(start.skip(i as int)) == carry * pow10((n - i) as nat) + number_of(
                d@.skip(i as int),
            ),
        decreases i,
    {
        let ghost before = d@;
        let ghost tail = d@.skip(i as int);
        let ghost old_tail = start.skip(i as int);
        let ghost c0 = carry;
        assert(d@[i - 1] == d@.take(i as int)[i - 1]);
        assert(start[i - 1] == start.take(i as int)[i - 1]);
        let x = d[i - 1];
        let twice: u8 = 2 * x + carry;
        d.set(i - 1, twice % 10);
        carry = twice / 10;
        proof {
            let p = pow10((n - i) as nat);
            assert(d@.skip(i - 1) =~= seq![(twice % 10) as u8] + tail);
            assert(start.skip(i - 1) =~= seq![x] + old_tail);
            lemma_number_concat(seq![(twice % 10) as u8], tail);
            lemma_number_concat(seq![x], old_tail);
            lemma_number_of_one((twice % 10) as u8);
            lemma_number_of_one(x);
            assert(pow10((n - (i - 1)) as nat) == 10 * p);
            assert(2 * (x * p + number_of(old_tail)) == carry * (10 * p) + ((twice % 10) * p
                + number_of(tail))) by (nonlinear_arith)
                requires
                    2 * number_of(old_tail) == c0 * p + number_of(tail),
                    2 * x + c0 == 10 * carry + (twice % 10),
            ;
            assert(d@.take(i - 1) =~= start.take(i - 1)) by {
                assert forall|j: int| 0 <= j < i - 1 implies d@[j] == start[j] by {
                    assert(before[j] == before.take(i as int)[j]);
                    assert(start[j] == start.take(i as int)[j]);
                }
            }
        }
        i -= 1;
    }
    assert(d@.skip(0) =~= d@);
    assert(start.skip(0) =~= start);
    carry
}

proof fn lemma_number_of_one(x: u8)
    ensures
        number_of(seq![x]) == x,
{
    assert(seq![x].drop_last() =~= Seq::empty());
    assert(number_of(Seq::empty()) == 0);
}

/// Whether a fraction is below a half, a half, or above.
enum Half {
    Below,
    Exact,
    Above,
}

/// Whether any digit of the fraction is not zero.
fn is_nonzero(d: &Vec<u8>, from: usize) -> (r: bool)
    requires
        are_digits(d@),
        from <= d@.len(),
    ensures
        r == (number_of(d@.skip(from as int)) > 0),
{
    let mut i: usize = from;
    while i < d.len()
        invariant
            from <= i <= d@.len(),
            are_digits(d@),
            forall|j: int| from <= j < i ==> d@[j] == 0,
        decreases d@.len() - i,
    {
        if d[i] != 0 {
            proof {
                let t = d@.skip(from as int);
                let a = t.take(i - from);
                let b = t.skip(i - from);
                assert(t =~= a + b);
                lemma_number_concat(a, b);
                assert forall|j: int| 0 <= j < b.len() implies #[trigger] b[j] < 10 by {
                    assert(b[j] == d@[i + j]);
                }
                lemma_number_bounds(b);
                lemma_pow10_positive((b.len() - 1) as nat);
                assert(number_of(a) * pow10(b.len()) >= 0) by (nonlinear_arith);
            }
            return true;
        }
        i += 1;
    }
    proof {
        let t = d@.skip(from as int);
        assert forall|j: int| 0 <= j < t.len() implies t[j] == 0 by {
            assert(t[j] == d@[from + j]);
        }
        lemma_number_of_zeros(t);
    }
    false
}

fn compare_with_half(d: &Vec<u8>) -> (r: Half)
    requires
        are_digits(d@),
    ensures
        r is Below <==> 2 * number_of(d@) < pow10(d@.len()),
        r is Exact <==> 2 * number_of(d@) == pow10(d@.len()),
        r is Above <==> 2 * number_of(d@) > pow10(d@.len()),
{
    if d.len() == 0 {
        return Half::Below;
    }
    let first = d[0];
    let more = is_nonzero(d, 1);
    proof {
        let t = d@.skip(1);
        let p = pow10(t.len());
        assert(d@ =~= seq![first] + t);
        lemma_number_concat(seq![first], t);
        lemma_number_of_one(first);
        assert forall|j: int| 0 <= j < t.len() implies #[trigger] t[j] < 10 by {
            assert(t[j] == d@[j + 1]);
        }
        lemma_number_bounds(t);
        lemma_pow10_positive(t.len());
        assert(pow10(d@.len()) == 10 * p);
        assert(d@[0] < 10);
        if first < 5 {
            assert(first * p <= 4 * p) by (nonlinear_arith)
                requires
                    first < 5,
            ;
        } else if first > 5 {
            assert(first * p >= 6 * p) by (nonlinear_arith)
                requires
                    first > 5,
            ;
        } else {
            assert(first * p == 5 * p) by (nonlinear_arith)
                requires
                    first == 5,
            ;
        }
    }
    if first < 5 {
        Half::Below
    } else if first > 5 {
        Half::Above
    } else if more {
        Half::Above
    } else {
        Half::Exact
    }
}

/// `whole` and the fraction with the digits `frac`, rounded to a multiple of
/// `step`, ties to the even one: how many steps that are.
fn round_steps(whole: u128, frac: &Vec<u8>, step: u128) -> (r: u128)
    requires
        are_digits(frac@),
        step == step_of_53_bits(whole as nat),
        1 <= step,
        whole <= 0x1000_0000_0000_0000_0000,
    ensures
        r == round_half_even(
            whole as nat * pow10(frac@.len()) + number_of(frac@),
            pow10(frac@.len()) * (step as nat),
        ),
        r <= whole / step + 1,
{
    let q = whole / step;
    let rest = whole % step;
    let ghost m = pow10(frac@.len());
    let ghost f = number_of(frac@);
    let ghost n = whole as nat * m + f;
    proof {
        lemma_number_bounds(frac@);
        lemma_pow10_positive(frac@.len());
        lemma_divide(whole as nat, f, m, step as nat);
        assert(q <= whole) by (nonlinear_arith)
            requires
                q == whole / step,
                step >= 1,
        ;
        if step > 1 {
            lemma_step_even(whole as nat);
        }
    }
    if step == 1 {
        proof {
            assert(rest == 0) by (nonlinear_arith)
                requires
                    rest == whole % step,
                    step == 1,
            ;
            assert(rest * m == 0) by (nonlinear_arith)
                requires
                    rest == 0,
            ;
            assert(m * step == m) by (nonlinear_arith)
                requires
                    step == 1,
            ;
        }
        match compare_with_half(frac) {
            Half::Below => q,
            Half::Above => q + 1,
            Half::Exact => if q % 2 == 1 {
                q + 1
            } else {
                q
            },
        }
    } else {
        let half = step / 2;
        let more = is_nonzero(frac, 0);
        assert(frac@.skip(0) =~= frac@);
        proof {
            assert(step == 2 * half);
            assert(m * step == 2 * (half * m)) by (nonlinear_arith)
                requires
                    step == 2 * half,
            ;
            if rest > half {
                assert(rest * m >= half * m + m) by (nonlinear_arith)
                    requires
                        rest >= half + 1,
                ;
            } else if rest < half {
                assert(rest * m + m <= half * m) by (nonlinear_arith)
                    requires
                        rest + 1 <= half,
                ;
            }
        }
        if rest > half || (rest == half && more) {
            q + 1
        } else if rest == half && q % 2 == 1 {
            q + 1
        } else {
            q
        }
    }
}

proof fn lemma_divide(whole: nat, f: nat, m: nat, step: nat)
    requires
        m >= 1,
        f < m,
        step >= 1,
    ensures
        (whole * m + f) / (m * step) == whole / step,
        (whole * m + f) % (m * step) == (whole % step) * m + f,
{
    let q = whole / step;
    let r = whole % step;
    let d = m * step;
    assert(whole == q * step + r && r < step) by (nonlinear_arith)
        requires
            q == whole / step,
            r == whole % step,
            step >= 1,
    ;
    assert(whole * m + f == q * d + (r * m + f)) by (nonlinear_arith)
        requires
            whole == q * step + r,
            d == m * step,
    ;
    assert(0 <= r * m + f < d) by (nonlinear_arith)
        requires
            r + 1 <= step,
            f < m,
            d == m * step,
            0 <= r,
            0 <= f,
    ;
    vstd::arithmetic::div_mod::lemma_fundamental_div_mod_converse(
        (whole * m + f) as int,
        d as int,
        q as int,
        (r * m + f) as int,
    );
}

proof fn lemma_step_even(q: nat)
    requires
        step_of_53_bits(q) > 1,
    ensures
        step_of_53_bits(q) % 2 == 0,
{
}

/// The number that a `whole` and the fraction with the digits `frac` make, as
/// [`rounded_twice`] rounds it; `None` if it is far too large to count.
fn round_twice(whole: u128, frac: Vec<u8>) -> (r: Option<u128>)
    requires
        are_digits(frac@),
    ensures
        match r {
            Some(v) => v == rounded_twice(
                whole as nat * pow10(frac@.len()) + number_of(frac@),
                pow10(frac@.len()),
                0,
            ),
            None => rounded_twice(
                whole as nat * pow10(frac@.len()) + number_of(frac@),
                pow10(frac@.len()),
                0,
            ) > 0x1_1000_0000_0000_0000,
        },
{
    let ghost m = pow10(frac@.len());
    let ghost n0 = whole as nat * m + number_of(frac@);
    proof {
        lemma_pow10_positive(frac@.len());
    }
    if whole >= 0x4_0000_0000_0000_0000 {
        proof {
            assert(n0 >= 0x4_0000_0000_0000_0000 * m) by (nonlinear_arith)
                requires
                    n0 >= whole * m,
                    whole >= 0x4_0000_0000_0000_0000,
            ;
            lemma_huge_stays_huge(n0, m);
        }
        return None;
    }
    let mut whole = whole;
    let mut frac = frac;
    let mut scale: u128 = 1;
    let mut h: u32 = 0;
    let ghost k = frac@.len();
    proof {
        lemma_number_bounds(frac@);
    }
    while whole < 0x10_0000_0000_0000 && h < 54
        invariant
            h <= 54,
            scale == pow2(h as nat),
            scale <= 0x40_0000_0000_0000,
            whole < 0x4_0000_0000_0000_0000,
            are_digits(frac@),
            frac@.len() == k,
            m == pow10(k),
            m >= 1,
            number_of(frac@) < m,
            rounded_twice(n0, m, 0) == rounded_twice(
                whole as nat * m + number_of(frac@),
                m,
                h as nat,
            ),
        decreases 54 - h,
    {
        let ghost w0 = whole;
        let ghost f0 = number_of(frac@);
        let carry = double_fraction(&mut frac);
        whole = 2 * whole + carry as u128;
        proof {
            let n = w0 as nat * m + f0;
            assert(n < 0x10_0000_0000_0000 * m) by (nonlinear_arith)
                requires
                    n == w0 * m + f0,
                    f0 < m,
                    w0 + 1 <= 0x10_0000_0000_0000,
            ;
            assert(2 * n == whole as nat * m + number_of(frac@)) by (nonlinear_arith)
                requires
                    n == w0 * m + f0,
                    whole == 2 * w0 + carry,
                    2 * f0 == carry * m + number_of(frac@),
            ;
            lemma_number_bounds(frac@);
            lemma_pow2_bound(h as nat);
        }
        scale = 2 * scale;
        h = h + 1;
    }
    let ghost n = whole as nat * m + number_of(frac@);
    let step = step_53(whole);
    let steps = round_steps(whole, &frac, step);
    proof {
        assert(!(n < 0x10_0000_0000_0000 * m && h < 54)) by {
            if h < 54 {
                assert(n >= 0x10_0000_0000_0000 * m) by (nonlinear_arith)
                    requires
                        n >= whole * m,
                        whole >= 0x10_0000_0000_0000,
                ;
            }
        }
        lemma_divide(whole as nat, number_of(frac@), m, 1);
        assert(m * 1 == m);
        assert(n / m == whole);
        assert(steps * step <= whole + step) by (nonlinear_arith)
            requires
                steps <= whole / step + 1,
                step >= 1,
        ;
        assert(0 <= steps * step) by (nonlinear_arith);
        assert(step <= 0x4_0000_0000_0000_0000);
        assert(pow2((h + 1) as nat) == 2 * pow2(h as nat));
        lemma_pow2_positive(h as nat);
    }
    Some((2 * (steps * step) + scale) / (2 * scale))
}

proof fn lemma_limit()
    ensures
        nearest_53_bits(usize::MAX as nat) < 0x1_1000_0000_0000_0000,
{
    let n = usize::MAX as nat;
    let step = step_of_53_bits(n);
    if n >= 0x10_0000_0000_0000 {
        lemma_step_bounds(n);
    }
    assert(1 <= step <= 4096);
    let q = round_half_even(n, step);
    assert(q * step <= n + step) by (nonlinear_arith)
        requires
            q <= n / step + 1,
            step >= 1,
    ;
}

/// Less than a hundred-millionth of a mebibyte is no byte.
proof fn lemma_negligible(sig: Seq<u8>, x: int)
    requires
        are_digits(sig),
        sig.len() + x <= -8,
    ensures
        bytes_in_mib(number_of(sig), x) == Some(0usize),
{
    let d = number_of(sig);
    lemma_number_bounds(sig);
    let k = (-x) as nat;
    lemma_pow10_grows(sig.len() + 8, k);
    lemma_pow10_adds(sig.len(), 8);
    assert(pow10(8) == 100_000_000) by {
        reveal_with_fuel(pow10, 9);
    }
    assert(pow10(sig.len()) * 100_000_000 <= pow10(k));
    assert(pow2(0) == 1);
    lemma_pow10_positive(k);
    assert(pow10(k) * pow2(0) == pow10(k));
    lemma_tiny_is_nothing(d * 1_048_576, pow10(k), 0);
}

/// More than a hundred quintillion mebibytes are too many to count.
proof fn lemma_uncountable(sig: Seq<u8>, x: int)
    requires
        are_digits(sig),
        sig.len() > 0,
        sig[0] > 0,
        sig.len() + x >= 21,
    ensures
        bytes_in_mib(number_of(sig), x) is None,
{
    let d = number_of(sig);
    let l = (sig.len() - 1) as nat;
    lemma_number_bounds(sig);
    lemma_limit();
    assert(pow10(20) == 100_000_000_000_000_000_000) by {
        reveal_with_fuel(pow10, 21);
    }
    lemma_pow10_grows(20, (l + x) as nat);
    if x >= 0 {
        lemma_pow10_adds(l, x as nat);
        let n = d * pow10(x as nat) * 1_048_576;
        lemma_pow10_positive(x as nat);
        assert(d * pow10(x as nat) >= pow10(l) * pow10(x as nat)) by (nonlinear_arith)
            requires
                d >= pow10(l),
                pow10(x as nat) >= 1,
        ;
        lemma_huge_stays_huge(n, 1);
    } else {
        let k = (-x) as nat;
        let m = pow10(k);
        lemma_pow10_positive(k);
        lemma_pow10_adds((l + x) as nat, k);
        assert(pow10(l) == pow10((l + x) as nat) * m);
        assert(d >= 100_000_000_000_000_000_000 * m) by (nonlinear_arith)
            requires
                d >= pow10(l),
                pow10(l) == pow10((l + x) as nat) * m,
                pow10((l + x) as nat) >= 100_000_000_000_000_000_000,
        ;
        lemma_huge_stays_huge(d * 1_048_576, m);
    }
}

/// The number that the digits `from..to` write.
fn read_whole(d: &Vec<u8>, to: usize) -> (r: u128)
    requires
        are_digits(d@),
        to <= d@.len(),
        to <= 20,
    ensures
        r == number_of(d@.take(to as int)),
        r < 100_000_000_000_000_000_000,
{
    let mut v: u128 = 0;
    let mut i: usize = 0;
    assert(d@.take(0) =~= Seq::empty());
    while i < to
        invariant
            i <= to <= d@.len(),
            to <= 20,
            are_digits(d@),
            v == number_of(d@.take(i as int)),
            v < pow10(i as nat),
        decreases to - i,
    {
        assert(d@.take(i + 1).drop_last() =~= d@.take(i as int));
        assert(d@.take(i + 1).last() == d@[i as int]);
        assert(pow10((i + 1) as nat) == 10 * pow10(i as nat));
        proof {
            lemma_pow10_grows(i as nat, 20);
            reveal_with_fuel(pow10, 21);
        }
        v = 10 * v + d[i] as u128;
        i += 1;
    }
    proof {
        lemma_pow10_grows(to as nat, 20);
        reveal_with_fuel(pow10, 21);
    }
    v
}

/// The digits from `from` on, with `zeros` zeros before them.
fn padded_tail(d: &Vec<u8>, from: usize, zeros: usize) -> (r: Vec<u8>)
    requires
        are_digits(d@),
        from <= d@.len(),
        zeros <= 8,
    ensures
        are_digits(r@),
        r@.len() == zeros + d@.len() - from,
        number_of(r@) == number_of(d@.skip(from as int)),
{
    let mut out: Vec<u8> = Vec::new();
    let mut i: usize = 0;
    while i < zeros
        invariant
            i <= zeros,
            out@.len() == i,
            forall|j: int| 0 <= j < out@.len() ==> out@[j] == 0,
        decreases zeros - i,
    {
        out.push(0);
        i += 1;
    }
    let ghost head = out@;
    let mut j: usize = from;
    while j < d.len()
        invariant
            from <= j <= d@.len(),
            are_digits(d@),
            head.len() == zeros,
            forall|t: int| 0 <= t < head.len() ==> head[t] == 0,
            out@ == head + d@.subrange(from as int, j as int),
        decreases d@.len() - j,
    {
        out.push(d[j]);
        assert(d@.subrange(from as int, j + 1) =~= d@.subrange(from as int, j as int).push(
            d@[j as int],
        ));
        j += 1;
    }
    proof {
        let tail = d@.skip(from as int);
        assert(d@.subrange(from as int, d@.len() as int) =~= tail);
        lemma_number_of_zeros(head);
        lemma_number_concat(head, tail);
        assert(0 * pow10(tail.len()) == 0);
        assert forall|t: int| 0 <= t < out@.len() implies #[trigger] out@[t] < 10 by {
            if t >= zeros {
                assert(out@[t] == d@[from + t - zeros]);
            }
        }
    }
    out
}

/// A `whole` and a fraction of mebibytes as bytes.
fn times_mib(whole: u128, frac: Vec<u8>) -> (r: (u128, Vec<u8>))
    requires
        are_digits(frac@),
        whole < 100_000_000_000_000_000_000,
    ensures
        are_digits(r.1@),
        r.1@.len() == frac@.len(),
        r.0 as nat * pow10(frac@.len()) + number_of(r.1@) == (whole as nat * pow10(frac@.len())
            + number_of(frac@)) * 1_048_576,
{
    let ghost m = pow10(frac@.len());
    let ghost k = frac@.len();
    let ghost n0 = whole as nat * m + number_of(frac@);
    let mut whole = whole;
    let mut frac = frac;
    let mut scale: u128 = 1;
    let mut j: u32 = 0;
    while j < 20
        invariant
            j <= 20,
            are_digits(frac@),
            frac@.len() == k,
            m == pow10(k),
            scale == pow2(j as nat),
            scale <= 1_048_576,
            whole < 100_000_000_000_000_000_000 * scale,
            whole as nat * m + number_of(frac@) == n0 * scale,
        decreases 20 - j,
    {
        let ghost w0 = whole;
        let ghost f0 = number_of(frac@);
        let carry = double_fraction(&mut frac);
        whole = 2 * whole + carry as u128;
        proof {
            assert(whole as nat * m + number_of(frac@) == n0 * (2 * scale)) by (nonlinear_arith)
                requires
                    w0 * m + f0 == n0 * scale,
                    whole == 2 * w0 + carry,
                    2 * f0 == carry * m + number_of(frac@),
            ;
            reveal_with_fuel(pow2, 21);
        }
        scale = 2 * scale;
        j = j + 1;
    }
    proof {
        reveal_with_fuel(pow2, 21);
    }
    (whole, frac)
}

/// The bytes in `sig * 10^x` mebibytes, where `sig` does not begin with a zero.
fn count_bytes(sig: &Vec<u8>, x: i128) -> (r: Option<usize>)
    requires
        are_digits(sig@),
        sig@.len() > 0,
        sig@[0] > 0,
        -0x1000_0000_0000_0000_0000_0000_0000 <= x <= 0x1000_0000_0000_0000_0000_0000_0000,
    ensures
        r == bytes_in_mib(number_of(sig@), x as int),
{
    let len = sig.len();
    let magnitude: i128 = len as i128 + x;
    if magnitude <= -8 {
        proof {
            lemma_negligible(sig@, x as int);
        }
        return Some(0);
    }
    if magnitude >= 21 {
        proof {
            lemma_uncountable(sig@, x as int);
        }
        return None;
    }
    let ghost d = number_of(sig@);
    let ghost k: nat = if x >= 0 {
        0
    } else {
        (-x) as nat
    };
    let whole: u128;
    let frac: Vec<u8>;
    if x >= 0 {
        let mut all: Vec<u8> = padded_tail(sig, 0, 0);
        let mut i: i128 = 0;
        assert(sig@.skip(0) =~= sig@);
        assert(pow10(0) == 1);
        assert(d * pow10(0) == d);
        while i < x
            invariant
                0 <= i <= x,
                len as int + x < 21,
                all@.len() == len + i,
                are_digits(all@),
                number_of(all@) == d * pow10(i as nat),
            decreases x - i,
        {
            let ghost before = all@;
            all.push(0);
            proof {
                assert(all@.drop_last() =~= before);
                let p = pow10(i as nat);
                assert(10 * (d * p) == d * (10 * p)) by (nonlinear_arith);
                assert forall|t: int| 0 <= t < all@.len() implies #[trigger] all@[t] < 10 by {
                    if t < before.len() {
                        assert(all@[t] == before[t]);
                    }
                }
            }
            i = i + 1;
        }
        whole = read_whole(&all, all.len());
        assert(all@.take(all@.len() as int) =~= all@);
        frac = Vec::new();
        assert(whole as nat * pow10(0) == whole);
    } else {
        let k_exec: i128 = -x;
        if (len as i128) > k_exec {
            let at: usize = (len as i128 - k_exec) as usize;
            whole = read_whole(sig, at);
            frac = padded_tail(sig, at, 0);
            proof {
                assert(sig@ =~= sig@.take(at as int) + sig@.skip(at as int));
                lemma_number_concat(sig@.take(at as int), sig@.skip(at as int));
            }
        } else {
            whole = 0;
            let zeros: usize = (k_exec - len as i128) as usize;
            frac = padded_tail(sig, 0, zeros);
            assert(sig@.skip(0) =~= sig@);
            assert(0 * pow10(k) == 0);
        }
    }
    assert(frac@.len() == k);
    assert(whole as nat * pow10(k) + number_of(frac@) == (if x >= 0 {
        d * pow10(x as nat)
    } else {
        d
    }));
    let (bytes, rest) = times_mib(whole, frac);
    let limit = to_53_bits(usize::MAX as u128);
    proof {
        lemma_limit();
        assert(pow10(0) == 1);
    }
    match round_twice(bytes, rest) {
        None => None,
        Some(v) => if v > limit {
            None
        } else if v > usize::MAX as u128 {
            Some(usize::MAX)
        } else {
            Some(v as usize)
        },
    }
}

/// Digits as far as they are significant: without zeros at the front.
fn significant(cs: &Vec<char>, from: usize) -> (r: Vec<u8>)
    requires
        from <= cs@.len(),
        all_digits(cs@.skip(from as int)),
    ensures
        are_digits(r@),
        number_of(r@) == digits_value(cs@.skip(from as int)),
        r@.len() > 0 ==> r@[0] > 0,
        r@.len() <= cs@.len(),
{
    let ghost all = cs@.skip(from as int);
    let mut out: Vec<u8> = Vec::new();
    let mut i: usize = from;
    assert(all.take(0) =~= Seq::empty());
    while i < cs.len()
        invariant
            from <= i <= cs@.len(),
            all == cs@.skip(from as int),
            all_digits(all),
            are_digits(out@),
            number_of(out@) == digits_value(all.take(i - from)),
            out@.len() > 0 ==> out@[0] > 0,
            out@.len() <= i - from,
        decreases cs@.len() - i,
    {
        let c = cs[i];
        assert(all[i - from] == c);
        assert(is_digit(all[i - from]));
        let v = c as u8 - 48;
        proof {
            assert(all.take(i - from + 1).drop_last() =~= all.take(i - from));
            assert(all.take(i - from + 1).last() == c);
            assert(v == digit_value(c));
        }
        if out.len() > 0 || v > 0 {
            let ghost before = out@;
            out.push(v);
            proof {
                assert(out@.drop_last() =~= before);
                if before.len() == 0 {
                    assert(number_of(before) == 0);
                }
                assert forall|t: int| 0 <= t < out@.len() implies #[trigger] out@[t] < 10 by {
                    if t < before.len() {
                        assert(out@[t] == before[t]);
                    }
                }
            }
        }
        i += 1;
    }
    assert(all.take(all.len() as int) =~= all);
    out
}

/// A number that stands for all that are as large or larger.
pub const FAR: u128 = 1_000_000_000_000_000_000_000_000_000_000;

/// The value of the digits from `from` on, [`FAR`] if it is larger.
fn capped_value(cs: &Vec<char>, from: usize) -> (r: u128)
    requires
        from <= cs@.len(),
        all_digits(cs@.skip(from as int)),
    ensures
        r == if digits_value(cs@.skip(from as int)) < FAR {
            digits_value(cs@.skip(from as int)) as int
        } else {
            FAR as int
        },
{
    let ghost all = cs@.skip(from as int);
    let mut v: u128 = 0;
    let mut i: usize = from;
    assert(all.take(0) =~= Seq::empty());
    while i < cs.len()
        invariant
            from <= i <= cs@.len(),
            all == cs@.skip(from as int),
            all_digits(all),
            v == if digits_value(all.take(i - from)) < FAR {
                digits_value(all.take(i - from)) as int
            } else {
                FAR as int
            },
        decreases cs@.len() - i,
    {
        let c = cs[i];
        assert(all[i - from] == c);
        assert(is_digit(all[i - from]));
        let d: u128 = (c as u8 - 48) as u128;
        proof {
            assert(all.take(i - from + 1).drop_last() =~= all.take(i - from));
            assert(all.take(i - from + 1).last() == c);
            assert(d == digit_value(c));
        }
        let next = 10 * v + d;
        v = if next < FAR {
            next
        } else {
            FAR
        };
        i += 1;
    }
    assert(all.take(all.len() as int) =~= all);
    v
}

/// Whether all characters from `from` on are digits.
fn only_digits(cs: &Vec<char>, from: usize) -> (r: bool)
    requires
        from <= cs@.len(),
    ensures
        r == all_digits(cs@.skip(from as int)),
{
    let ghost all = cs@.skip(from as int);
    let mut i: usize = from;
    while i < cs.len()
        invariant
            from <= i <= cs@.len(),
            all == cs@.skip(from as int),
            forall|j: int| 0 <= j < i - from ==> is_digit(#[trigger] all[j]),
        decreases cs@.len() - i,
    {
        assert(all[i - from] == cs@[i as int]);
        if !('0' <= cs[i] && cs[i] <= '9') {
            assert(!is_digit(all[i - from]));
            return false;
        }
        i += 1;
    }
    true
}

/// An exponent, with everything beyond [`FAR`] in either direction taken for it.
fn read_exponent(s: &str) -> (r: Option<i128>)
    ensures
        match r {
            Some(v) => signed_number(s@) is Some && (-(FAR as int) < v < FAR ==> signed_number(s@)
                == Some(v as int)) && (v == FAR ==> signed_number(s@)->0 >= FAR) && (v == -(
            FAR as int) ==> signed_number(s@)->0 <= -(FAR as int)) && -(FAR as int) <= v <= FAR,
            None => signed_number(s@) is None,
        },
{
    let cs = chars_of(s);
    let negative = cs.len() > 0 && cs[0] == '-';
    let from: usize = if cs.len() > 0 && (cs[0] == '-' || cs[0] == '+') {
        1
    } else {
        0
    };
    assert(cs@.skip(0) =~= cs@);
    if from == cs.len() || !only_digits(&cs, from) {
        return None;
    }
    let v = capped_value(&cs, from) as i128;
    if negative {
        Some(-v)
    } else {
        Some(v)
    }
}

/// The inverse of [`bytes_as_mib`]. `None` for anything that is not a
/// non-negative number; the range itself is left to
/// [`crate::settings::Settings::validate`].
pub fn mib_as_bytes(raw: &str) -> (r: Option<usize>)
    ensures
        r == mib_bytes(raw@),
{
    let t = trim(raw);
    let cs = chars_of(t.as_str());
    let ghost s = t@;
    let signed = cs.len() > 0 && (cs[0] == '+' || cs[0] == '-');
    let from: usize = if signed {
        1
    } else {
        0
    };
    let body = text_range(&cs, from, cs.len());
    assert(body@ =~= unsigned_part(s));
    let bs = chars_of(body.as_str());
    let mut e: usize = 0;
    assert(bs@.skip(0) =~= bs@);
    while e < bs.len() && bs[e] != 'e' && bs[e] != 'E'
        invariant
            e <= bs@.len(),
            first_sep(bs@, seq!['e', 'E']) == e + first_sep(bs@.skip(e as int), seq!['e', 'E']),
        decreases bs@.len() - e,
    {
        assert(bs@.skip(e as int).skip(1) =~= bs@.skip(e + 1));
        assert(bs@.skip(e as int)[0] == bs@[e as int]);
        assert(!seq!['e', 'E'].contains(bs@[e as int]));
        e += 1;
    }
    proof {
        if e < bs@.len() {
            assert(bs@.skip(e as int)[0] == bs@[e as int]);
            assert(seq!['e', 'E'][0] == 'e');
            assert(seq!['e', 'E'][1] == 'E');
            assert(seq!['e', 'E'].contains(bs@[e as int]));
        }
        assert(first_sep(bs@, seq!['e', 'E']) == e);
    }
    let mantissa = text_range(&bs, 0, e);
    assert(mantissa@ =~= bs@.take(e as int));
    let ms = chars_of(mantissa.as_str());
    let point = find_char(&ms, '.');
    let mut digits: Vec<char> = Vec::new();
    let mut i: usize = 0;
    let ghost whole = ms@.take(point as int);
    let ghost frac = if point < ms@.len() {
        ms@.skip(point + 1)
    } else {
        Seq::empty()
    };
    while i < ms.len()
        invariant
            i <= ms@.len(),
            point <= ms@.len(),
            whole == ms@.take(point as int),
            digits@ == (if i <= point {
                ms@.take(i as int)
            } else {
                whole + ms@.subrange(point + 1, i as int)
            }),
        decreases ms@.len() - i,
    {
        if i != point {
            digits.push(ms[i]);
        }
        proof {
            if i < point {
                assert(ms@.take(i + 1) =~= ms@.take(i as int).push(ms@[i as int]));
            } else if i == point {
                assert(ms@.subrange(point + 1, i + 1) =~= Seq::empty());
                assert(whole + ms@.subrange(point + 1, i + 1) =~= whole);
            } else {
                assert(whole + ms@.subrange(point + 1, i + 1) =~= (whole + ms@.subrange(
                    point + 1,
                    i as int,
                )).push(ms@[i as int]));
            }
        }
        i += 1;
    }
    assert(digits@ =~= whole + frac);
    let frac_len: usize = if point < ms.len() {
        ms.len() - point - 1
    } else {
        0
    };
    let exponent: i128 = if e < bs.len() {
        let tail = text_range(&bs, e + 1, bs.len());
        assert(tail@ =~= bs@.skip(e + 1));
        match read_exponent(tail.as_str()) {
            Some(v) => v,
            None => {
                return None;
            },
        }
    } else {
        0
    };
    assert(digits@.skip(0) =~= digits@);
    if digits.len() == 0 || !only_digits(&digits, 0) {
        return None;
    }
    let sig = significant(&digits, 0);
    if sig.len() == 0 {
        assert(number_of(sig@) == 0);
        return Some(0);
    }
    proof {
        lemma_number_bounds(sig@);
        lemma_pow10_positive((sig@.len() - 1) as nat);
    }
    if signed && cs[0] == '-' {
        return None;
    }
    let ghost exact = literal_of(s)->0.exponent;
    if exponent == FAR as i128 {
        proof {
            lemma_uncountable(sig@, exact);
        }
        return None;
    }
    if exponent == -(FAR as i128) {
        proof {
            lemma_negligible(sig@, exact);
        }
        return Some(0);
    }
    count_bytes(&sig, exponent - frac_len as i128)
}

} // verus!
