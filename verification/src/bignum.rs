//! Arbitrary-precision naturals, taken from `num_bigint`, with the few
//! operations the library needs stated over their mathematical value.

use vstd::prelude::*;
use num_bigint::BigUint;

verus! {

#[verifier::external_type_specification]
#[verifier::external_body]
pub struct ExBigUint(num_bigint::BigUint);

/// The natural number that a `BigUint` stands for.
pub uninterp spec fn big_value(n: BigUint) -> nat;

/// The character of a decimal digit `d < 10`.
pub open spec fn digit_char(d: nat) -> char {
    (d + 48) as char
}

/// The decimal representation of `n`: most significant digit first, no
/// leading zeros, and `"0"` for zero.
pub open spec fn decimal_text(n: nat) -> Seq<char>
    decreases n,
{
    if n < 10 {
        seq![digit_char(n)]
    } else {
        decimal_text(n / 10).push(digit_char(n % 10))
    }
}

/// `BigUint::from(u64)`: the big natural equal to `x`.
#[verifier::external_body]
pub(crate) fn big_from_u64(x: u64) -> (r: BigUint)
    ensures
        big_value(r) == x as nat,
{
    BigUint::from(x)
}

/// `BigUint << u32`: multiplies by two to the power of `shift`. The result
/// takes about `shift` bits of memory; running out of it is not modelled.
#[verifier::external_body]
pub(crate) fn big_shl(n: BigUint, shift: u32) -> (r: BigUint)
    ensures
        big_value(r) == big_value(n) * vstd::arithmetic::power2::pow2(shift as nat),
{
    n << shift
}

/// `&BigUint * &BigUint`: the exact product.
#[verifier::external_body]
pub(crate) fn big_mul(a: &BigUint, b: &BigUint) -> (r: BigUint)
    ensures
        big_value(r) == big_value(*a) * big_value(*b),
{
    a * b
}

/// `&BigUint / &BigUint`: the quotient rounded down; it panics on a zero
/// divisor, which `requires` leaves out.
#[verifier::external_body]
pub(crate) fn big_div(a: &BigUint, b: &BigUint) -> (r: BigUint)
    requires
        big_value(*b) > 0,
    ensures
        big_value(r) == big_value(*a) / big_value(*b),
{
    a / b
}

/// `BigUint::to_string`: its `Display` impl prints the value in base ten.
#[verifier::external_body]
pub(crate) fn big_to_decimal(n: &BigUint) -> (r: String)
    ensures
        r@ == decimal_text(big_value(*n)),
{
    n.to_string()
}

/// `BigUint::clone`: a copy of the same value.
#[verifier::external_body]
pub(crate) fn big_clone(n: &BigUint) -> (r: BigUint)
    ensures
        big_value(r) == big_value(*n),
{
    n.clone()
}

/// `BigUint < BigUint`: compares the values.
#[verifier::external_body]
pub(crate) fn big_lt(a: &BigUint, b: &BigUint) -> (r: bool)
    ensures
        r == (big_value(*a) < big_value(*b)),
{
    a < b
}

/// The number a string of decimal digits spells, most significant first.
pub open spec fn numeral_value(s: Seq<char>) -> nat
    decreases s.len(),
{
    if s.len() == 0 {
        0
    } else {
        numeral_value(s.drop_last()) * 10 + ((s.last() as int - 48) as nat)
    }
}

/// `c` is one of `'0'` to `'9'`.
pub open spec fn is_decimal_digit(c: char) -> bool {
    48 <= (c as int) <= 57
}

/// `decimal_text(n)` is the numeral of `n`: decimal digits that spell `n`,
/// without a leading zero unless `n` is zero.
pub proof fn lemma_decimal_text_numeral(n: nat)
    ensures
        decimal_text(n).len() >= 1,
        numeral_value(decimal_text(n)) == n,
        forall|i: int| 0 <= i < decimal_text(n).len() ==> is_decimal_digit(#[trigger] decimal_text(n)[i]),
        decimal_text(n)[0] == '0' ==> n == 0,
    decreases n,
{
    if n < 10 {
        let s = decimal_text(n);
        assert(s.drop_last() =~= Seq::<char>::empty());
        assert(digit_char(n) as int == n + 48);
        assert(s.last() == digit_char(n));
        assert(numeral_value(s) == numeral_value(s.drop_last()) * 10 + ((s.last() as int - 48) as nat));
    } else {
        lemma_decimal_text_numeral(n / 10);
        let s = decimal_text(n);
        let prefix = decimal_text(n / 10);
        assert(s.drop_last() =~= prefix);
        assert(digit_char(n % 10) as int == n % 10 + 48);
        assert(s.last() == digit_char(n % 10));
        assert(s[0] == prefix[0]);
        assert(numeral_value(s) == numeral_value(prefix) * 10 + ((s.last() as int - 48) as nat));
        assert(n == (n / 10) * 10 + n % 10);
    }
}

} // verus!
