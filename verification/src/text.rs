//! Rendering of estimates in `m.mm × 10^e` notation: the first three
//! significant digits of the decimal form (zero-padded) and the exponent.

use vstd::prelude::*;
use num_bigint::BigUint;
use vstd::arithmetic::power::{pow, lemma_pow_adds, lemma_pow_positive, lemma_pow_increases};
use crate::bignum::{big_value, decimal_text, digit_char, big_to_decimal, big_from_u64, big_mul, big_div, big_clone, big_lt};
use crate::estimate::PAC_SCALE;

verus! {

/// `String::push`: appends one character.
#[verifier::external_body]
pub(crate) fn string_push(s: &mut String, c: char)
    ensures
        final(s)@ == old(s)@.push(c),
{
    s.push(c)
}

/// `usize::to_string`: the `Display` impl of an unsigned integer prints it in
/// base ten.
#[verifier::external_body]
pub(crate) fn usize_to_decimal(n: usize) -> (r: String)
    ensures
        r@ == decimal_text(n as nat),
{
    n.to_string()
}

/// Digit `k` of `digits`, or `'0'` past its end.
pub open spec fn digit_or_zero(digits: Seq<char>, k: int) -> char {
    if k < digits.len() {
        digits[k]
    } else {
        '0'
    }
}

/// `m.mm × 10^e` for a decimal numeral `digits`: its first digit, a point,
/// the next two digits padded with zeros, and the exponent `len - 1`.
pub open spec fn sci_text(digits: Seq<char>) -> Seq<char> {
    seq![digits[0], '.', digit_or_zero(digits, 1), digit_or_zero(digits, 2), ' ', '\u{d7}', ' ', '1', '0', '^']
        + decimal_text((digits.len() - 1) as nat)
}

/// The scientific notation of the natural number `n`.
pub open spec fn sci_of(n: nat) -> Seq<char> {
    sci_text(decimal_text(n))
}

/// A decimal numeral has at least one digit.
pub proof fn lemma_decimal_text_nonempty(n: nat)
    ensures
        decimal_text(n).len() >= 1,
    decreases n,
{
    if n >= 10 {
        lemma_decimal_text_nonempty(n / 10);
    }
}

/// Formats `n` as `m.mm × 10^e` with three significant digits, e.g.
/// `1.60 × 10^1` for sixteen.
pub fn sci(n: &BigUint) -> (r: String)
    ensures
        r@ == sci_of(big_value(*n)),
        r@[0] == decimal_text(big_value(*n))[0],
        r@[1] == '.',
        big_value(*n) >= 10 ==> r@[2] == decimal_text(big_value(*n))[1],
        big_value(*n) >= 100 ==> r@[3] == decimal_text(big_value(*n))[2],
        big_value(*n) < 10 ==> r@[2] == '0' && r@[3] == '0',
        big_value(*n) < 100 ==> r@[3] == '0',
        r@.subrange(10, r@.len() as int) == decimal_text((decimal_text(big_value(*n)).len() - 1) as nat),
{
    proof {
        lemma_sci_digits(big_value(*n));
    }
    let digits = big_to_decimal(n);
    proof {
        lemma_decimal_text_nonempty(big_value(*n));
    }
    let d = digits.as_str();
    let len = d.unicode_len();
    let mut out = String::new();
    string_push(&mut out, d.get_char(0));
    string_push(&mut out, '.');
    let second = if len > 1 { d.get_char(1) } else { '0' };
    string_push(&mut out, second);
    let third = if len > 2 { d.get_char(2) } else { '0' };
    string_push(&mut out, third);
    string_push(&mut out, ' ');
    string_push(&mut out, '\u{d7}');
    string_push(&mut out, ' ');
    string_push(&mut out, '1');
    string_push(&mut out, '0');
    string_push(&mut out, '^');
    let exp = usize_to_decimal(len - 1);
    out.append(exp.as_str());
    out
}

/// `a · 10^s` where the shift `s` is nonnegative, else `a`.
pub open spec fn shift_num(a: nat, s: int) -> nat {
    if s >= 0 {
        (a * pow(10, s as nat)) as nat
    } else {
        a
    }
}

/// `b` where the shift `s` is nonnegative, else `b · 10^(−s)`.
pub open spec fn shift_den(b: nat, s: int) -> nat {
    if s >= 0 {
        b
    } else {
        (b * pow(10, (-s) as nat)) as nat
    }
}

/// `m` holds the first three significant digits of `a / b` and `e` its
/// decimal exponent: `100 ≤ m < 1000` and `m ≤ (a / b) · 10^(2 − e) < m + 1`.
pub open spec fn is_sci_truncation(a: nat, b: nat, m: nat, e: int) -> bool {
    let s = 2 - e;
    &&& 100 <= m < 1000
    &&& m * shift_den(b, s) <= shift_num(a, s)
    &&& shift_num(a, s) < (m + 1) * shift_den(b, s)
}

/// A decimal exponent, with a minus sign where it is negative.
pub open spec fn exponent_text(e: int) -> Seq<char> {
    if e >= 0 {
        decimal_text(e as nat)
    } else {
        seq!['-'] + decimal_text((-e) as nat)
    }
}

/// `m.mm × 10^e` for a three-digit `m`.
pub open spec fn sci_parts_text(m: nat, e: int) -> Seq<char> {
    let d = decimal_text(m);
    seq![d[0], '.', d[1], d[2], ' ', '\u{d7}', ' ', '1', '0', '^'] + exponent_text(e)
}

/// The exact value `a / b` in scientific notation, truncated to three
/// significant digits; zero is `0.00 × 10^0`.
pub open spec fn ratio_sci_text(a: nat, b: nat) -> Seq<char> {
    if a == 0 {
        sci_of(0)
    } else {
        let (m, e) = choose|m: nat, e: int| is_sci_truncation(a, b, m, e);
        sci_parts_text(m, e)
    }
}

/// `point [point / (1 + ε), point · (1 + ε)]`, where `1 + ε` is the
/// fixed-point `factor / PAC_SCALE`: the point in scientific notation and the
/// exact interval ends truncated to three significant digits.
pub open spec fn interval_text_of(point: nat, factor: nat) -> Seq<char> {
    sci_of(point) + seq![' ', '['] + ratio_sci_text(point * (PAC_SCALE as nat), factor) + seq![
        ',',
        ' ',
    ] + ratio_sci_text(point * factor, PAC_SCALE as nat) + seq![']']
}

/// A natural number is below ten to the number of its decimal digits.
proof fn lemma_decimal_text_bound(n: nat)
    ensures
        n < pow(10, decimal_text(n).len()),
    decreases n,
{
    if n < 10 {
        vstd::arithmetic::power::lemma_pow1(10);
    } else {
        lemma_decimal_text_bound(n / 10);
        let k = decimal_text(n / 10).len();
        lemma_pow_adds(10, k, 1);
        vstd::arithmetic::power::lemma_pow1(10);
        let p = pow(10, k);
        assert(n / 10 < p);
        assert(n < 10 * p) by (nonlinear_arith)
            requires
                n / 10 < p,
        ;
    }
}

/// A number with three decimal digits has a numeral of length three.
proof fn lemma_three_digits(m: nat)
    requires
        100 <= m < 1000,
    ensures
        decimal_text(m).len() == 3,
{
    assert(decimal_text(m / 100).len() == 1);
    assert(decimal_text(m / 10) == decimal_text(m / 100).push(digit_char((m / 10) % 10)));
}

/// Scaling both sides of a truncation by a common power of ten.
proof fn lemma_truncation_scaled(a: nat, b: nat, m: nat, s: int, t: nat)
    requires
        t >= s,
        m * shift_den(b, s) <= shift_num(a, s),
        shift_num(a, s) < (m + 1) * shift_den(b, s),
    ensures
        m * (b * pow(10, (t - s) as nat)) <= a * pow(10, t),
        a * pow(10, t) < (m + 1) * (b * pow(10, (t - s) as nat)),
{
    let k = pow(10, (t - s) as nat);
    lemma_pow_positive(10, (t - s) as nat);
    if s >= 0 {
        let ps = pow(10, s as nat);
        lemma_pow_positive(10, s as nat);
        assert(a * ps >= 0) by (nonlinear_arith)
            requires
                ps > 0,
        ;
        assert(shift_num(a, s) == a * ps);
        lemma_pow_adds(10, s as nat, (t - s) as nat);
        assert(pow(10, t) == ps * k);
        assert(m * (b * k) <= a * (ps * k) && a * (ps * k) < (m + 1) * (b * k)) by (nonlinear_arith)
            requires
                m * b <= a * ps,
                a * ps < (m + 1) * b,
                k > 0,
        ;
    } else {
        let pn = pow(10, (-s) as nat);
        lemma_pow_positive(10, (-s) as nat);
        assert(b * pn >= 0) by (nonlinear_arith)
            requires
                pn > 0,
        ;
        assert(shift_den(b, s) == b * pn);
        lemma_pow_adds(10, t, (-s) as nat);
        assert(k == pow(10, t) * pn);
        let pt = pow(10, t);
        lemma_pow_positive(10, t);
        assert(m * (b * (pt * pn)) <= a * pt && a * pt < (m + 1) * (b * (pt * pn))) by (nonlinear_arith)
            requires
                m * (b * pn) <= a,
                a < (m + 1) * (b * pn),
                pt > 0,
        ;
    }
}

/// The first three significant digits of a positive ratio, and its decimal
/// exponent, are determined by the ratio.
pub proof fn lemma_sci_truncation_unique(a: nat, b: nat, m1: nat, e1: int, m2: nat, e2: int)
    requires
        b > 0,
        is_sci_truncation(a, b, m1, e1),
        is_sci_truncation(a, b, m2, e2),
    ensures
        m1 == m2,
        e1 == e2,
{
    let s1 = 2 - e1;
    let s2 = 2 - e2;
    let t: nat = if s1 >= s2 {
        if s1 >= 0 { s1 as nat } else { 0 }
    } else {
        if s2 >= 0 { s2 as nat } else { 0 }
    };
    lemma_truncation_scaled(a, b, m1, s1, t);
    lemma_truncation_scaled(a, b, m2, s2, t);
    let big_a = a * pow(10, t);
    let p1 = b * pow(10, (t - s1) as nat);
    let p2 = b * pow(10, (t - s2) as nat);
    lemma_pow_positive(10, (t - s1) as nat);
    lemma_pow_positive(10, (t - s2) as nat);
    assert(p1 > 0 && p2 > 0) by (nonlinear_arith)
        requires
            b > 0,
            pow(10, (t - s1) as nat) > 0,
            pow(10, (t - s2) as nat) > 0,
            p1 == b * pow(10, (t - s1) as nat),
            p2 == b * pow(10, (t - s2) as nat),
    ;
    if s1 > s2 {
        lemma_pow_adds(10, (t - s1) as nat, (s1 - s2) as nat);
        lemma_pow_increases(10, 1, (s1 - s2) as nat);
        vstd::arithmetic::power::lemma_pow1(10);
        let q = pow(10, (s1 - s2) as nat);
        assert(p2 == p1 * q) by (nonlinear_arith)
            requires
                p2 == b * pow(10, (t - s2) as nat),
                pow(10, (t - s2) as nat) == pow(10, (t - s1) as nat) * q,
                p1 == b * pow(10, (t - s1) as nat),
        ;
        assert(false) by (nonlinear_arith)
            requires
                m1 * p1 <= big_a < (m1 + 1) * p1,
                m2 * p2 <= big_a < (m2 + 1) * p2,
                100 <= m1 < 1000,
                100 <= m2 < 1000,
                p2 == p1 * q,
                q >= 10,
                p1 > 0,
        ;
    } else if s2 > s1 {
        lemma_pow_adds(10, (t - s2) as nat, (s2 - s1) as nat);
        lemma_pow_increases(10, 1, (s2 - s1) as nat);
        vstd::arithmetic::power::lemma_pow1(10);
        let q = pow(10, (s2 - s1) as nat);
        assert(p1 == p2 * q) by (nonlinear_arith)
            requires
                p1 == b * pow(10, (t - s1) as nat),
                pow(10, (t - s1) as nat) == pow(10, (t - s2) as nat) * q,
                p2 == b * pow(10, (t - s2) as nat),
        ;
        assert(false) by (nonlinear_arith)
            requires
                m1 * p1 <= big_a < (m1 + 1) * p1,
                m2 * p2 <= big_a < (m2 + 1) * p2,
                100 <= m1 < 1000,
                100 <= m2 < 1000,
                p1 == p2 * q,
                q >= 10,
                p2 > 0,
        ;
    } else {
        assert(p1 == p2);
        assert(m1 == m2) by (nonlinear_arith)
            requires
                m1 * p1 <= big_a < (m1 + 1) * p1,
                m2 * p1 <= big_a < (m2 + 1) * p1,
                p1 > 0,
        ;
    }
}

/// Formats the exact value `a / b` as `m.mm × 10^e`, truncated to three
/// significant digits; the exponent is negative below one. Zero is
/// `0.00 × 10^0`. A zero divisor would divide by zero.
pub fn sci_ratio(a: &BigUint, b: u64) -> (r: String)
    requires
        b > 0,
    ensures
        r@ == ratio_sci_text(big_value(*a), b as nat),
{
    let zero = big_from_u64(0);
    if !big_lt(&zero, a) {
        return sci(a);
    }
    let ghost av = big_value(*a);
    let ghost bv = b as nat;
    let ten = big_from_u64(10);
    let hundred = big_from_u64(100);
    let thousand = big_from_u64(1000);
    let den0 = big_from_u64(b);
    let hundred_b = big_mul(&hundred, &den0);
    proof {
        vstd::arithmetic::power::lemma_pow0(10);
        reveal_with_fuel(pow, 23);
        assert(pow(10, 22) == 10_000_000_000_000_000_000_000int);
    }
    // Scale the numerator up until the ratio has at least three integer digits.
    let mut num = big_clone(a);
    let mut i: u32 = 0;
    loop
        invariant_except_break
            av > 0,
            i <= 22,
            big_value(num) == av * pow(10, i as nat),
            big_value(hundred_b) == 100 * bv,
            big_value(ten) == 10,
            bv > 0,
            bv <= u64::MAX,
            pow(10, 22) == 10_000_000_000_000_000_000_000int,
            i > 0 ==> big_value(num) < 1000 * bv,
        ensures
            i <= 22,
            big_value(num) == av * pow(10, i as nat),
            big_value(num) >= 100 * bv,
            i > 0 ==> big_value(num) < 1000 * bv,
        decreases 22 - i,
    {
        if !big_lt(&num, &hundred_b) {
            break;
        }
        proof {
            lemma_pow_positive(10, i as nat);
            if i >= 22 {
                lemma_pow_increases(10, 22, i as nat);
                assert(av * pow(10, i as nat) >= pow(10, i as nat)) by (nonlinear_arith)
                    requires
                        av >= 1,
                        pow(10, i as nat) > 0,
                ;
            }
            lemma_pow_adds(10, i as nat, 1);
            vstd::arithmetic::power::lemma_pow1(10);
        }
        num = big_mul(&num, &ten);
        proof {
            assert(av * pow(10, (i + 1) as nat) == av * pow(10, i as nat) * 10) by (nonlinear_arith)
                requires
                    pow(10, (i + 1) as nat) == pow(10, i as nat) * 10,
            ;
        }
        i = i + 1;
    }
    // Scale the denominator up until the ratio has at most three integer digits.
    let a_len = big_to_decimal(a).as_str().unicode_len();
    proof {
        lemma_decimal_text_bound(av);
    }
    let mut den = den0;
    let mut j: usize = 0;
    loop
        invariant_except_break
            av > 0,
            bv > 0,
            big_value(num) == av * pow(10, i as nat),
            big_value(den) == bv * pow(10, j as nat),
            big_value(num) >= 100 * big_value(den),
            j > 0 ==> i == 0,
            i > 0 ==> big_value(num) < 1000 * bv,
            big_value(thousand) == 1000,
            big_value(ten) == 10,
            av < pow(10, a_len as nat),
            j <= a_len,
            j > 0 ==> j + 2 < a_len,
        ensures
            big_value(num) == av * pow(10, i as nat),
            big_value(den) == bv * pow(10, j as nat),
            100 * big_value(den) <= big_value(num) < 1000 * big_value(den),
            j > 0 ==> i == 0,
            j > 0 ==> j + 2 < a_len,
        decreases a_len - j,
    {
        let thousand_den = big_mul(&thousand, &den);
        if big_lt(&num, &thousand_den) {
            break;
        }
        proof {
            lemma_pow_positive(10, j as nat);
            vstd::arithmetic::power::lemma_pow0(10);
            if i > 0 {
                assert(j == 0);
                assert(pow(10, j as nat) == 1);
                assert(bv * pow(10, j as nat) == bv) by (nonlinear_arith)
                    requires
                        pow(10, j as nat) == 1,
                ;
                assert(false);
            }
            assert(pow(10, i as nat) == 1);
            assert(av * pow(10, i as nat) == av) by (nonlinear_arith)
                requires
                    pow(10, i as nat) == 1,
            ;
            assert(big_value(num) == av);
            lemma_pow_adds(10, j as nat, 3);
            reveal_with_fuel(pow, 4);
            assert(pow(10, (j + 3) as nat) <= av) by (nonlinear_arith)
                requires
                    1000 * (bv * pow(10, j as nat)) <= av,
                    bv >= 1,
                    pow(10, (j + 3) as nat) == pow(10, j as nat) * pow(10, 3),
                    pow(10, 3) == 1000,
                    pow(10, j as nat) > 0,
            ;
            if j + 3 >= a_len {
                lemma_pow_increases(10, a_len as nat, (j + 3) as nat);
            }
            lemma_pow_adds(10, j as nat, 1);
            vstd::arithmetic::power::lemma_pow1(10);
        }
        den = big_mul(&den, &ten);
        proof {
            assert(bv * pow(10, (j + 1) as nat) == bv * pow(10, j as nat) * 10) by (nonlinear_arith)
                requires
                    pow(10, (j + 1) as nat) == pow(10, j as nat) * 10,
            ;
        }
        j = j + 1;
    }
    let mantissa = big_div(&num, &den);
    let ghost m = big_value(mantissa);
    let ghost nv = big_value(num);
    let ghost dv = big_value(den);
    proof {
        lemma_pow_positive(10, j as nat);
        assert(dv > 0) by (nonlinear_arith)
            requires
                dv == bv * pow(10, j as nat),
                bv > 0,
                pow(10, j as nat) > 0,
        ;
        vstd::arithmetic::div_mod::lemma_fundamental_div_mod(nv as int, dv as int);
        assert(m * dv <= nv < (m + 1) * dv && 100 <= m < 1000) by (nonlinear_arith)
            requires
                m == nv / dv,
                dv > 0,
                100 * dv <= nv < 1000 * dv,
                nv == dv * (nv / dv) + nv % dv,
                0 <= nv % dv < dv,
        ;
        lemma_three_digits(m);
    }
    let ghost e: int = 2 - i + j;
    proof {
        let s = 2 - e;
        if j > 0 {
            vstd::arithmetic::power::lemma_pow0(10);
            assert(shift_num(av, s) == nv);
            assert(shift_den(bv, s) == dv);
        } else {
            vstd::arithmetic::power::lemma_pow0(10);
            assert(shift_num(av, s) == nv);
            assert(shift_den(bv, s) == dv);
        }
        assert(is_sci_truncation(av, bv, m, e));
        let (m2, e2) = choose|m2: nat, e2: int| is_sci_truncation(av, bv, m2, e2);
        lemma_sci_truncation_unique(av, bv, m, e, m2, e2);
    }
    let digits = big_to_decimal(&mantissa);
    let d = digits.as_str();
    let mut out = String::new();
    string_push(&mut out, d.get_char(0));
    string_push(&mut out, '.');
    string_push(&mut out, d.get_char(1));
    string_push(&mut out, d.get_char(2));
    string_push(&mut out, ' ');
    string_push(&mut out, '\u{d7}');
    string_push(&mut out, ' ');
    string_push(&mut out, '1');
    string_push(&mut out, '0');
    string_push(&mut out, '^');
    if j > 0 {
        let exp = usize_to_decimal(j + 2);
        out.append(exp.as_str());
    } else if i <= 2 {
        let exp = usize_to_decimal((2 - i) as usize);
        out.append(exp.as_str());
    } else {
        string_push(&mut out, '-');
        let exp = usize_to_decimal((i - 2) as usize);
        out.append(exp.as_str());
    }
    out
}

/// Renders an interval as `point [point / (1 + ε), point · (1 + ε)]`, where
/// `1 + ε` is the fixed-point `factor / PAC_SCALE`: the point in scientific
/// notation and each end as its exact value truncated to three significant
/// digits. A zero factor would divide by zero.
pub fn interval_text(point: &BigUint, factor: u64) -> (r: String)
    requires
        factor > 0,
    ensures
        r@ == interval_text_of(big_value(*point), factor as nat),
{
    let scale = big_from_u64(PAC_SCALE);
    let factor_big = big_from_u64(factor);
    let lower_num = big_mul(point, &scale);
    let upper_num = big_mul(point, &factor_big);
    let mut out = sci(point);
    string_push(&mut out, ' ');
    string_push(&mut out, '[');
    let lower = sci_ratio(&lower_num, factor);
    out.append(lower.as_str());
    string_push(&mut out, ',');
    string_push(&mut out, ' ');
    let upper = sci_ratio(&upper_num, PAC_SCALE);
    out.append(upper.as_str());
    string_push(&mut out, ']');
    out
}

/// The number of decimal digits: one below ten, two below a hundred, and at
/// least three from a hundred on.
pub proof fn lemma_decimal_text_len(n: nat)
    ensures
        n < 10 ==> decimal_text(n).len() == 1,
        10 <= n < 100 ==> decimal_text(n).len() == 2,
        n >= 100 ==> decimal_text(n).len() >= 3,
    decreases n,
{
    if n >= 10 {
        lemma_decimal_text_len(n / 10);
    }
}

/// `sci` shows the first three digits of the numeral (zero where it is
/// shorter), a point after the first, ` × 10^`, and the number of digits
/// minus one.
pub proof fn lemma_sci_digits(n: nat)
    ensures
        sci_of(n)[0] == decimal_text(n)[0],
        sci_of(n)[1] == '.',
        n >= 10 ==> sci_of(n)[2] == decimal_text(n)[1],
        n >= 100 ==> sci_of(n)[3] == decimal_text(n)[2],
        n < 10 ==> sci_of(n)[2] == '0' && sci_of(n)[3] == '0',
        n < 100 ==> sci_of(n)[3] == '0',
        sci_of(n).subrange(4, 10) == seq![' ', '\u{d7}', ' ', '1', '0', '^'],
        sci_of(n).subrange(10, sci_of(n).len() as int) == decimal_text((decimal_text(n).len() - 1) as nat),
{
    lemma_decimal_text_len(n);
    lemma_decimal_text_nonempty(n);
    let t = sci_of(n);
    let d = decimal_text(n);
    assert(t.subrange(4, 10) =~= seq![' ', '\u{d7}', ' ', '1', '0', '^']);
    assert(t.subrange(10, t.len() as int) =~= decimal_text((d.len() - 1) as nat));
}

/// The digits of a three-digit number, hundreds first.
pub proof fn lemma_three_digit_chars(m: nat)
    requires
        100 <= m < 1000,
    ensures
        decimal_text(m).len() == 3,
        decimal_text(m)[0] == digit_char(m / 100),
        decimal_text(m)[1] == digit_char((m / 10) % 10),
        decimal_text(m)[2] == digit_char(m % 10),
{
    assert((m / 10) / 10 == m / 100);
    assert(decimal_text(m / 100) == seq![digit_char(m / 100)]);
    assert(decimal_text(m / 10) == decimal_text(m / 100).push(digit_char((m / 10) % 10)));
    assert(decimal_text(m) == decimal_text(m / 10).push(digit_char(m % 10)));
}

/// A positive ratio `a / b` is shown as the three digits `m` of its
/// truncation with a point after the first, ` × 10^`, and its exponent `e`,
/// signed where negative.
pub proof fn lemma_ratio_text_digits(a: nat, b: nat, m: nat, e: int)
    requires
        a > 0,
        b > 0,
        is_sci_truncation(a, b, m, e),
    ensures
        ratio_sci_text(a, b)[0] == digit_char(m / 100),
        ratio_sci_text(a, b)[1] == '.',
        ratio_sci_text(a, b)[2] == digit_char((m / 10) % 10),
        ratio_sci_text(a, b)[3] == digit_char(m % 10),
        ratio_sci_text(a, b).subrange(4, 10) == seq![' ', '\u{d7}', ' ', '1', '0', '^'],
        ratio_sci_text(a, b).subrange(10, ratio_sci_text(a, b).len() as int) == (if e >= 0 {
            decimal_text(e as nat)
        } else {
            seq!['-'] + decimal_text((-e) as nat)
        }),
{
    let (m2, e2) = choose|m2: nat, e2: int| is_sci_truncation(a, b, m2, e2);
    lemma_sci_truncation_unique(a, b, m, e, m2, e2);
    lemma_three_digit_chars(m);
    let t = ratio_sci_text(a, b);
    assert(t == sci_parts_text(m, e));
    assert(t.subrange(4, 10) =~= seq![' ', '\u{d7}', ' ', '1', '0', '^']);
    assert(t.subrange(10, t.len() as int) =~= exponent_text(e));
}

/// The interval text is the point in scientific notation followed by
/// `[lower, upper]`, where `lower` is the truncation of `point / (1 + ε)` and
/// `upper` that of `point · (1 + ε)` for the given fixed-point factor
/// `1 + ε = factor / 1_000_000`.
pub proof fn lemma_interval_text_ends(point: nat, factor: nat, m1: nat, e1: int, m2: nat, e2: int)
    requires
        point > 0,
        factor > 0,
        is_sci_truncation(point * 1_000_000, factor, m1, e1),
        is_sci_truncation(point * factor, 1_000_000, m2, e2),
    ensures
        interval_text_of(point, factor) == sci_of(point) + seq![' ', '['] + sci_parts_text(m1, e1)
            + seq![',', ' '] + sci_parts_text(m2, e2) + seq![']'],
{
    assert(point * factor > 0) by (nonlinear_arith)
        requires
            point > 0,
            factor > 0,
    ;
    let lower_num: nat = point * 1_000_000;
    let upper_num: nat = point * factor;
    let (n1, f1) = choose|n1: nat, f1: int| is_sci_truncation(lower_num, factor, n1, f1);
    lemma_sci_truncation_unique(lower_num, factor, m1, e1, n1, f1);
    let (n2, f2) = choose|n2: nat, f2: int| is_sci_truncation(upper_num, 1_000_000, n2, f2);
    lemma_sci_truncation_unique(upper_num, 1_000_000, m2, e2, n2, f2);
}

} // verus!
