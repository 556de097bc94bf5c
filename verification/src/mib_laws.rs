//! How sizes are read in mebibytes: one that was never edited comes back from its
//! form field.

use vstd::prelude::*;

use crate::config::{nearest_53_bits, round_half_even, step_of_53_bits};
use crate::mib::{
    bytes_in_mib, lemma_pow10_adds, lemma_pow10_positive, lemma_pow2_54, lemma_pow2_positive,
    lemma_step_bounds, literal_of, mib_bytes, mib_text, pow10, pow2, rounded_twice, seven_decimals,
    seven_digits, six_decimals, six_digits, unsigned_part, Literal,
};
use crate::text::{
    all_digits, decimal, decimal_reads_back, digits_value, first_sep, index_of, is_digit, is_white,
    lemma_first_sep, lemma_index_of, trimmed, without_final,
};
use crate::text_laws::final_characters_go;

verus! {

/// The ten-millionths of a mebibyte that seven decimals show for a byte count.
spec fn shown_units(bytes: nat) -> nat {
    round_half_even(nearest_53_bits(bytes) * 10_000_000, 1_048_576)
}

proof fn lemma_without_final_of_tail(a: Seq<char>, t: Seq<char>, c: char)
    requires
        a.len() > 0,
        a.last() != c,
    ensures
        without_final(a + t, c) == a + without_final(t, c),
    decreases t.len(),
{
    let s = a + t;
    if t.len() == 0 {
        assert(s =~= a);
        assert(a + without_final(t, c) =~= a);
    } else {
        assert(s.last() == t.last());
        assert(s.drop_last() =~= a + t.drop_last());
        if t.last() == c {
            lemma_without_final_of_tail(a, t.drop_last(), c);
        }
    }
}

/// Zeros at the end are powers of ten.
proof fn lemma_value_without_zeros(a: Seq<char>, t: Seq<char>)
    ensures
        without_final(t, '0').len() <= t.len(),
        digits_value(a + t) == digits_value(a + without_final(t, '0')) * pow10(
            (t.len() - without_final(t, '0').len()) as nat,
        ),
        forall|i: int|
            0 <= i < without_final(t, '0').len() ==> without_final(t, '0')[i] == #[trigger] t[i],
    decreases t.len(),
{
    let z = without_final(t, '0');
    if t.len() > 0 && t.last() == '0' {
        let u = t.drop_last();
        lemma_value_without_zeros(a, u);
        assert((a + t).drop_last() =~= a + u);
        assert((a + t).last() == '0');
        assert(digits_value(a + t) == digits_value(a + u) * 10);
        let k = (u.len() - z.len()) as nat;
        assert(pow10(k + 1) == 10 * pow10(k));
        let v = digits_value(a + z);
        let p = pow10(k);
        assert(v * p * 10 == v * (10 * p)) by (nonlinear_arith);
        assert((t.len() - z.len()) as nat == k + 1);
        assert(digits_value(a + u) == v * p);
        assert(digits_value(a + t) == v * p * 10);
        assert forall|i: int| 0 <= i < z.len() implies z[i] == #[trigger] t[i] by {
            assert(u[i] == t[i]);
        }
    } else {
        let v = digits_value(a + t);
        assert(pow10(0) == 1);
        assert(v * pow10(0) == v) by (nonlinear_arith)
            requires
                pow10(0) == 1,
        ;
    }
}

proof fn lemma_seven_digits(head: Seq<char>, f: nat)
    requires
        f < 10_000_000,
    ensures
        all_digits(seven_digits(f)),
        digits_value(head + seven_digits(f)) == digits_value(head) * 10_000_000 + f,
{
    let s = seven_digits(f);
    assert forall|i: int| 0 <= i < 7 implies is_digit(#[trigger] s[i]) by {}
    let d1 = head.push(s[0]);
    let d2 = d1.push(s[1]);
    let d3 = d2.push(s[2]);
    let d4 = d3.push(s[3]);
    let d5 = d4.push(s[4]);
    let d6 = d5.push(s[5]);
    let d7 = d6.push(s[6]);
    assert(d7 =~= head + s);
    assert(d1.drop_last() =~= head);
    assert(d2.drop_last() =~= d1);
    assert(d3.drop_last() =~= d2);
    assert(d4.drop_last() =~= d3);
    assert(d5.drop_last() =~= d4);
    assert(d6.drop_last() =~= d5);
    assert(d7.drop_last() =~= d6);
    assert(digits_value(d1) == digits_value(head) * 10 + f / 1_000_000 % 10);
    assert(digits_value(d2) == digits_value(d1) * 10 + f / 100_000 % 10);
    assert(digits_value(d3) == digits_value(d2) * 10 + f / 10_000 % 10);
    assert(digits_value(d4) == digits_value(d3) * 10 + f / 1000 % 10);
    assert(digits_value(d5) == digits_value(d4) * 10 + f / 100 % 10);
    assert(digits_value(d6) == digits_value(d5) * 10 + f / 10 % 10);
    assert(digits_value(d7) == digits_value(d6) * 10 + f % 10);
    assert(f / 1_000_000 % 10 == f / 1_000_000);
    assert(f / 100_000 == f / 1_000_000 * 10 + f / 100_000 % 10);
    assert(f / 10_000 == f / 100_000 * 10 + f / 10_000 % 10);
    assert(f / 1000 == f / 10_000 * 10 + f / 1000 % 10);
    assert(f / 100 == f / 1000 * 10 + f / 100 % 10);
    assert(f / 10 == f / 100 * 10 + f / 10 % 10);
}

proof fn lemma_digit_is_plain(c: char)
    requires
        is_digit(c),
    ensures
        !is_white(c),
        c != '+' && c != '-' && c != '.' && c != 'e' && c != 'E',
{
}

/// Digits, or digits with a point among them, are read as what they write.
proof fn lemma_plain_literal(whole: Seq<char>, frac: Seq<char>)
    requires
        whole.len() > 0,
        all_digits(whole),
        all_digits(frac),
    ensures
        ({
            let s = if frac.len() > 0 {
                whole + "."@ + frac
            } else {
                whole
            };
            &&& trimmed(s) == s
            &&& literal_of(s) == Some(
                Literal { negative: false, digits: whole + frac, exponent: -(frac.len() as int) },
            )
        }),
{
    reveal_strlit(".");
    let s = if frac.len() > 0 {
        whole + "."@ + frac
    } else {
        whole
    };
    assert(is_digit(whole[0]));
    assert(s[0] == whole[0]);
    lemma_digit_is_plain(s[0]);
    if frac.len() > 0 {
        assert(s.last() == frac.last());
        assert(is_digit(frac[frac.len() - 1]));
    } else {
        assert(is_digit(whole[whole.len() - 1]));
    }
    lemma_digit_is_plain(s.last());
    assert(trimmed(s) == s);
    assert(unsigned_part(s) == s);
    let seps = seq!['e', 'E'];
    lemma_first_sep(s, seps);
    let e = first_sep(s, seps);
    if e < s.len() {
        assert(s[e] == 'e' || s[e] == 'E') by {
            let k = choose|k: int| 0 <= k < seps.len() && seps[k] == s[e];
            assert(k == 0 || k == 1);
        }
        if e < whole.len() {
            assert(s[e] == whole[e]);
            lemma_digit_is_plain(whole[e]);
        } else if e > whole.len() {
            assert(s[e] == frac[e - whole.len() - 1]);
            lemma_digit_is_plain(frac[e - whole.len() - 1]);
        }
        assert(false);
    }
    assert(s.take(e) =~= s);
    lemma_index_of(s, '.');
    let point = index_of(s, '.');
    assert forall|i: int| 0 <= i < whole.len() implies #[trigger] s[i] != '.' by {
        assert(s[i] == whole[i]);
        lemma_digit_is_plain(whole[i]);
    }
    if frac.len() > 0 {
        assert(s[whole.len() as int] == '.');
        assert(point == whole.len());
        assert(s.skip(point + 1) =~= frac);
    } else {
        assert(point == s.len());
        assert(frac =~= Seq::empty());
    }
    assert(s.take(point) =~= whole);
    assert(all_digits(whole + frac)) by {
        assert forall|i: int| 0 <= i < whole.len() + frac.len() implies is_digit(
            #[trigger] (whole + frac)[i],
        ) by {
            if i < whole.len() {
                assert((whole + frac)[i] == whole[i]);
            } else {
                assert((whole + frac)[i] == frac[i - whole.len()]);
            }
        }
    }
}

/// What is shown is read as the number that it shows.
proof fn lemma_shown_is_read(bytes: nat)
    ensures
        ({
            let l = literal_of(trimmed(seven_decimals(bytes)));
            &&& l is Some
            &&& !l->0.negative
            &&& -7 <= l->0.exponent <= 0
            &&& digits_value(l->0.digits) * pow10((7 + l->0.exponent) as nat) == shown_units(
                bytes,
            )
        }),
{
    reveal_strlit(".");
    let units = shown_units(bytes);
    let whole = decimal(units / 10_000_000);
    let seven = seven_digits(units % 10_000_000);
    let point = whole + "."@;
    let frac = without_final(seven, '0');
    decimal_reads_back(units / 10_000_000);
    lemma_seven_digits(whole, units % 10_000_000);
    lemma_value_without_zeros(whole, seven);
    assert(point.last() == '.');
    lemma_without_final_of_tail(point, seven, '0');
    let bare = point + frac;
    assert(is_digit(whole[whole.len() - 1]));
    lemma_digit_is_plain(whole.last());
    assert(all_digits(frac)) by {
        assert forall|i: int| 0 <= i < frac.len() implies is_digit(#[trigger] frac[i]) by {
            assert(frac[i] == seven[i]);
            assert(is_digit(seven[i]));
        }
    }
    if frac.len() == 0 {
        assert(bare =~= point);
        assert(bare.drop_last() =~= whole);
        assert(without_final(whole, '.') == whole);
        assert(seven_decimals(bytes) == whole);
    } else {
        assert(bare.last() == frac.last());
        assert(is_digit(frac[frac.len() - 1]));
        lemma_digit_is_plain(frac.last());
        assert(seven_decimals(bytes) == bare);
    }
    lemma_plain_literal(whole, frac);
    assert(units == units / 10_000_000 * 10_000_000 + units % 10_000_000);
}

/// A number close to an integer is rounded to it, although it is rounded to 53
/// bits first.
proof fn lemma_rounded_twice_is_near(n: nat, m: nat, h: nat, c: nat)
    requires
        m >= 1,
        h <= 54,
        1 <= c < 0x20_0000_0000_0000,
        n < 0x20_0000_0000_0000 * m,
        16 * n >= m * pow2(h) * (16 * c - 1),
        16 * n <= m * pow2(h) * (16 * c + 1),
    ensures
        rounded_twice(n, m, h) == c,
    decreases 54 - h,
{
    let p = pow2(h);
    lemma_pow2_positive(h);
    lemma_pow2_54();
    if n < 0x10_0000_0000_0000 * m && h < 54 {
        assert(pow2(h + 1) == 2 * p);
        assert(16 * (2 * n) >= m * (2 * p) * (16 * c - 1)) by (nonlinear_arith)
            requires
                16 * n >= m * p * (16 * c - 1),
        ;
        assert(16 * (2 * n) <= m * (2 * p) * (16 * c + 1)) by (nonlinear_arith)
            requires
                16 * n <= m * p * (16 * c + 1),
        ;
        lemma_rounded_twice_is_near(2 * n, m, h + 1, c);
    } else {
        if h == 54 {
            assert(16 * n >= m * p * 15) by (nonlinear_arith)
                requires
                    16 * n >= m * p * (16 * c - 1),
                    c >= 1,
                    m >= 1,
                    p >= 1,
            ;
            assert(n >= 0x20_0000_0000_0000 * m) by (nonlinear_arith)
                requires
                    16 * n >= m * p * 15,
                    p == 0x40_0000_0000_0000,
                    m >= 1,
            ;
        }
        let q = n / m;
        assert(q < 0x20_0000_0000_0000) by (nonlinear_arith)
            requires
                q == n / m,
                n < 0x20_0000_0000_0000 * m,
                m >= 1,
        ;
        assert(step_of_53_bits(q) == 1);
        let r = round_half_even(n, m);
        assert(m * 1 == m);
        assert(r * 1 == r);
        let rem = n % m;
        assert(n == q * m + rem) by {
            vstd::arithmetic::div_mod::lemma_fundamental_div_mod(n as int, m as int);
            assert(m * q == q * m) by (nonlinear_arith);
        }
        assert(0 <= rem < m);
        assert(2 * (r * m) >= 2 * n - m && 2 * (r * m) <= 2 * n + m) by (nonlinear_arith)
            requires
                n == q * m + rem,
                0 <= rem < m,
                r == q + 1 && 2 * rem >= m || r == q && 2 * rem <= m,
        ;
        let mid = p * c;
        assert(m * p * (16 * c - 1) == m * (16 * mid - p)) by (nonlinear_arith)
            requires
                mid == p * c,
        ;
        assert(m * p * (16 * c + 1) == m * (16 * mid + p)) by (nonlinear_arith)
            requires
                mid == p * c,
        ;
        assert(16 * r >= 16 * mid - p - 8) by (nonlinear_arith)
            requires
                2 * (r * m) >= 2 * n - m,
                16 * n >= m * (16 * mid - p),
                m >= 1,
        ;
        assert(16 * r <= 16 * mid + p + 8) by (nonlinear_arith)
            requires
                2 * (r * m) <= 2 * n + m,
                16 * n <= m * (16 * mid + p),
                m >= 1,
        ;
        assert(pow2(h + 1) == 2 * p);
        assert(2 * r + p >= 2 * mid && 2 * r + p < 2 * mid + 2 * p);
        assert((2 * r + p) / (2 * p) == c) by (nonlinear_arith)
            requires
                mid == p * c,
                2 * r + p >= 2 * mid,
                2 * r + p < 2 * mid + 2 * p,
                p >= 1,
        ;
    }
}

/// Digits that write a number of ten-millionths close to a byte count stand for
/// that count.
proof fn lemma_units_are_read(d: nat, x: int, units: nat, c: nat)
    requires
        d >= 1,
        -7 <= x <= 0,
        d * pow10((7 + x) as nat) == units,
        1 <= c < 0x20_0000_0000_0000,
        c <= usize::MAX,
        2 * c * 10_000_000 - 1_048_576 <= 2 * units * 1_048_576 <= 2 * c * 10_000_000 + 1_048_576,
    ensures
        bytes_in_mib(d, x) == Some(c as usize),
{
    let z = (7 + x) as nat;
    let k = (-x) as nat;
    let p = pow10(z);
    let m = pow10(k);
    lemma_pow10_positive(z);
    lemma_pow10_positive(k);
    assert(pow10(7) == 10_000_000) by {
        reveal_with_fuel(pow10, 8);
    }
    lemma_pow10_adds(z, k);
    assert(z + k == 7);
    let n = d * 1_048_576;
    let total = units * 1_048_576;
    assert(n * 10_000_000 == total * m) by (nonlinear_arith)
        requires
            n == d * 1_048_576,
            total == units * 1_048_576,
            units == d * p,
            p * m == 10_000_000,
    ;
    assert(16 * total >= 10_000_000 * (16 * c - 1));
    assert(16 * total <= 10_000_000 * (16 * c + 1));
    assert(pow2(0) == 1);
    assert(16 * n >= m * 1 * (16 * c - 1)) by (nonlinear_arith)
        requires
            n * 10_000_000 == total * m,
            16 * total >= 10_000_000 * (16 * c - 1),
            m >= 1,
    ;
    assert(16 * n <= m * 1 * (16 * c + 1)) by (nonlinear_arith)
        requires
            n * 10_000_000 == total * m,
            16 * total <= 10_000_000 * (16 * c + 1),
            m >= 1,
    ;
    assert(n < 0x20_0000_0000_0000 * m) by (nonlinear_arith)
        requires
            16 * n <= m * 1 * (16 * c + 1),
            c < 0x20_0000_0000_0000,
            m >= 1,
    ;
    lemma_rounded_twice_is_near(n, m, 0, c);
    if x == 0 {
        assert(pow10(0) == 1);
        assert(d * pow10(0) * 1_048_576 == n) by (nonlinear_arith)
            requires
                pow10(0) == 1,
                n == d * 1_048_576,
        ;
    }
    lemma_counts_fit(c);
}

/// Byte counts of this size are not too many to count.
proof fn lemma_counts_fit(c: nat)
    requires
        c < 0x20_0000_0000_0000,
        c <= usize::MAX,
    ensures
        c <= nearest_53_bits(usize::MAX as nat),
{
    let n = usize::MAX as nat;
    let step = step_of_53_bits(n);
    if n < 0x20_0000_0000_0000 {
        assert(step == 1);
        assert(n / 1 == n && n % 1 == 0);
        assert(n * 1 == n);
    } else {
        lemma_step_bounds(n);
        assert(1 <= step <= 4096);
        let q = n / step;
        let r = round_half_even(n, step);
        assert(r >= q);
        assert(r * step >= n - step) by (nonlinear_arith)
            requires
                r >= q,
                q == n / step,
                step >= 1,
        ;
    }
}

/// A size that was never edited comes back from its form field: what the field
/// shows is read as the byte count that it was made from. A count of more than
/// 53 bits is shown as the nearest one that 53 significant bits hold.
pub proof fn an_unedited_size_comes_back(bytes: usize)
    requires
        bytes < 0x20_0000_0000_0000,
    ensures
        mib_bytes(mib_text(bytes)) == Some(bytes),
{
    let b = bytes as nat;
    let units = shown_units(b);
    assert(nearest_53_bits(b) == b) by {
        assert(step_of_53_bits(b) == 1);
        assert(b / 1 == b && b % 1 == 0);
        assert(b * 1 == b);
    }
    assert(2 * b * 10_000_000 - 1_048_576 <= 2 * units * 1_048_576);
    assert(2 * units * 1_048_576 <= 2 * b * 10_000_000 + 1_048_576);
    lemma_shown_is_read(b);
    let l = literal_of(trimmed(seven_decimals(b)))->0;
    let d = digits_value(l.digits);
    let p = pow10((7 + l.exponent) as nat);
    lemma_pow10_positive((7 + l.exponent) as nat);
    assert(d == 0 <==> units == 0) by (nonlinear_arith)
        requires
            units == d * p,
            p >= 1,
    ;
    if d > 0 {
        assert(b >= 1);
        lemma_units_are_read(d, l.exponent, units, b);
    }
}

/// A number of mebibytes is read as that many times 1,048,576 bytes, with or
/// without decimals, where these come to whole bytes.
pub proof fn mebibytes_are_read(whole: Seq<char>, frac: Seq<char>, bytes: nat)
    requires
        whole.len() > 0,
        all_digits(whole),
        all_digits(frac),
        frac.len() <= 7,
        1 <= bytes < 0x20_0000_0000_0000,
        bytes <= usize::MAX,
        digits_value(whole + frac) * 1_048_576 == bytes * pow10(frac.len()),
    ensures
        frac.len() > 0 ==> mib_bytes(whole + "."@ + frac) == Some(bytes as usize),
        frac.len() == 0 ==> mib_bytes(whole) == Some(bytes as usize),
{
    lemma_plain_literal(whole, frac);
    let d = digits_value(whole + frac);
    let k = frac.len();
    let z = (7 - k) as nat;
    let units = d * pow10(z);
    lemma_pow10_positive(k);
    lemma_pow10_positive(z);
    assert(pow10(7) == 10_000_000) by {
        reveal_with_fuel(pow10, 8);
    }
    lemma_pow10_adds(z, k);
    let (a, b) = (pow10(z), pow10(k));
    assert(units * 1_048_576 == bytes * 10_000_000) by (nonlinear_arith)
        requires
            units == d * a,
            d * 1_048_576 == bytes * b,
            a * b == 10_000_000,
    ;
    assert(d >= 1) by (nonlinear_arith)
        requires
            d * 1_048_576 == bytes * b,
            bytes >= 1,
            b >= 1,
    ;
    lemma_units_are_read(d, -(k as int), units, bytes);
    assert(whole + frac =~= whole || frac.len() > 0);
}

/// A whole number of mebibytes is read as such, nothing as nothing, and less than
/// nothing not at all.
pub proof fn whole_mebibytes_are_read(n: nat)
    requires
        n * 1_048_576 < 0x20_0000_0000_0000,
        n * 1_048_576 <= usize::MAX,
    ensures
        mib_bytes(decimal(n)) == Some((n * 1_048_576) as usize),
        n > 0 ==> mib_bytes(seq!['-'] + decimal(n)) is None,
        mib_bytes(Seq::empty()) is None,
{
    decimal_reads_back(n);
    let none = Seq::<char>::empty();
    lemma_plain_literal(decimal(n), none);
    assert(decimal(n) + none =~= decimal(n));
    assert(pow10(0) == 1);
    if n > 0 {
        mebibytes_are_read(decimal(n), none, n * 1_048_576);
        let s = seq!['-'] + decimal(n);
        assert(s.skip(1) =~= decimal(n));
        assert(is_digit(decimal(n)[decimal(n).len() - 1]));
        lemma_digit_is_plain(decimal(n)[decimal(n).len() - 1]);
        assert(s.last() == decimal(n).last());
        assert(!is_white('-'));
        assert(trimmed(s) == s);
        assert(is_digit(decimal(n)[0]));
        lemma_digit_is_plain(decimal(n)[0]);
        assert(unsigned_part(s) == decimal(n));
        assert(unsigned_part(decimal(n)) == decimal(n));
    }
    assert(trimmed(none) =~= none);
    assert(unsigned_part(none) =~= none);
    assert(none.take(0) =~= none);
}

/// A whole number of mebibytes is shown as that number.
pub proof fn whole_mebibytes_are_shown(n: nat)
    requires
        n * 1_048_576 < 0x20_0000_0000_0000,
        n * 1_048_576 <= usize::MAX,
    ensures
        mib_text((n * 1_048_576) as usize) == decimal(n),
{
    reveal_strlit(".");
    let bytes = n * 1_048_576;
    whole_mebibytes_are_read(n);
    assert(nearest_53_bits(bytes) == bytes) by {
        assert(step_of_53_bits(bytes) == 1);
        assert(bytes / 1 == bytes && bytes % 1 == 0);
        assert(bytes * 1 == bytes);
    }
    let units = round_half_even(bytes * 1_000_000, 1_048_576);
    assert(bytes * 1_000_000 == (n * 1_000_000) * 1_048_576);
    assert(units == n * 1_000_000);
    assert(units / 1_000_000 == n && units % 1_000_000 == 0);
    let zeros = Seq::new(6, |i: int| '0');
    assert(six_digits(0) =~= zeros);
    let head = decimal(n) + "."@;
    assert(head.last() == '.');
    final_characters_go(head, '0', 6);
    assert(decimal(n) + "."@ + six_digits(0) =~= head + zeros);
    let point = Seq::new(1, |i: int| '.');
    assert(head =~= decimal(n) + point);
    decimal_reads_back(n);
    assert(is_digit(decimal(n)[decimal(n).len() - 1]));
    final_characters_go(decimal(n), '.', 1);
    assert(six_decimals(bytes) == decimal(n));
}

} // verus!
