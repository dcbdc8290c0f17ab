//! From the counter's raw answer to a point estimate and its PAC interval.
//!
//! The counter reports `cell_sol_count` solutions in one cell of a random
//! partition into `2^hash_count` cells; the point estimate is their product.
//! The interval `[count / (1 + ε), count · (1 + ε)]` is computed in fixed
//! point: `factor` is `(1 + ε)` scaled by [`PAC_SCALE`].

use vstd::prelude::*;
use vstd::arithmetic::power2::pow2;
use vstd::arithmetic::div_mod::{lemma_div_is_ordered, lemma_div_multiples_vanish};
use vstd::arithmetic::mul::lemma_mul_inequality;
use num_bigint::BigUint;
use crate::bignum::{big_value, big_from_u64, big_shl, big_mul, big_div};
use crate::error::CountingError;

verus! {

/// The fixed-point scale of the interval factor: `factor = (1 + ε) · PAC_SCALE`.
pub const PAC_SCALE: u64 = 1_000_000;

/// The counter's raw answer: the point estimate is
/// `cell_sol_count · 2^hash_count`, meaningful only where `valid` is nonzero.
#[derive(Clone, Copy, Debug, PartialEq, Eq, Structural)]
pub struct AppMcCount {
    pub valid: i32,
    pub hash_count: u32,
    pub cell_sol_count: u64,
}

/// A point estimate together with the bounds of its PAC interval.
#[derive(Debug)]
pub struct PacInterval {
    pub point_estimate: BigUint,
    pub lower_bound: BigUint,
    pub upper_bound: BigUint,
}

/// The raw answer reports at least one model.
pub open spec fn count_has_models(count: AppMcCount) -> bool {
    count.valid != 0 && count.cell_sol_count != 0
}

/// The point estimate that a raw answer stands for.
pub open spec fn estimate_value(count: AppMcCount) -> nat {
    count.cell_sol_count as nat * pow2(count.hash_count as nat)
}

/// `point · (1 + ε)`, rounded down.
pub open spec fn upper_value(point: nat, factor: nat) -> nat {
    point * factor / (PAC_SCALE as nat)
}

/// `point / (1 + ε)`, rounded down.
pub open spec fn lower_value(point: nat, factor: nat) -> nat
    recommends
        factor > 0,
{
    point * (PAC_SCALE as nat) / factor
}

/// The point estimate of a raw answer, or `Unsatisfiable` where the answer
/// is invalid or counts no model.
pub fn point_estimate(count: &AppMcCount) -> (r: Result<BigUint, CountingError>)
    ensures
        r is Ok <==> count_has_models(*count),
        r matches Ok(p) ==> big_value(p) == estimate_value(*count),
        r matches Err(e) ==> e is Unsatisfiable,
        count.valid != 0 && count.cell_sol_count > 0 ==> (r matches Ok(p) && big_value(p)
            == count.cell_sol_count as nat * pow2(count.hash_count as nat)),
        count.valid == 0 || count.cell_sol_count == 0 ==> r matches Err(
            CountingError::Unsatisfiable,
        ),
{
    if count.valid == 0 || count.cell_sol_count == 0 {
        return Err(CountingError::Unsatisfiable);
    }
    let cells = big_from_u64(count.cell_sol_count);
    Ok(big_shl(cells, count.hash_count))
}

/// The PAC interval around `point` for the fixed-point factor `factor`:
/// `upper = point · factor / PAC_SCALE` and `lower = point · PAC_SCALE / factor`,
/// both rounded down. A zero factor would divide by zero.
pub fn pac_interval(point: BigUint, factor: u64) -> (r: PacInterval)
    requires
        factor > 0,
    ensures
        big_value(r.point_estimate) == big_value(point),
        big_value(r.upper_bound) == upper_value(big_value(point), factor as nat),
        big_value(r.lower_bound) == lower_value(big_value(point), factor as nat),
        big_value(r.upper_bound) == big_value(point) * factor / 1_000_000,
        big_value(r.lower_bound) == big_value(point) * 1_000_000 / (factor as nat),
        factor >= PAC_SCALE ==> big_value(r.lower_bound) <= big_value(r.point_estimate)
            <= big_value(r.upper_bound),
{
    proof {
        if factor >= PAC_SCALE {
            lemma_interval_contains_point(big_value(point), factor as nat);
        }
    }
    let scale = big_from_u64(PAC_SCALE);
    let factor_big = big_from_u64(factor);
    let scaled_up = big_mul(&point, &factor_big);
    let upper_bound = big_div(&scaled_up, &scale);
    let scaled_down = big_mul(&point, &scale);
    let lower_bound = big_div(&scaled_down, &factor_big);
    PacInterval { point_estimate: point, lower_bound, upper_bound }
}

/// `r` is the outcome of a count whose raw answer is `count`, for the
/// fixed-point factor `factor`: `Unsatisfiable` exactly where the answer
/// reports no model, else the PAC interval around its point estimate.
pub open spec fn is_count_result(
    count: AppMcCount,
    factor: nat,
    r: Result<PacInterval, CountingError>,
) -> bool {
    &&& r is Ok <==> count_has_models(count)
    &&& r matches Err(e) ==> e is Unsatisfiable
    &&& r matches Ok(b) ==> {
        &&& big_value(b.point_estimate) == estimate_value(count)
        &&& big_value(b.upper_bound) == upper_value(estimate_value(count), factor)
        &&& big_value(b.lower_bound) == lower_value(estimate_value(count), factor)
    }
}

/// The interval for a raw answer: `Unsatisfiable` exactly where the answer
/// reports no model, else the PAC interval around its point estimate.
pub fn finish_count(count: &AppMcCount, factor: u64) -> (r: Result<PacInterval, CountingError>)
    requires
        factor > 0,
    ensures
        is_count_result(*count, factor as nat, r),
        count.valid == 0 || count.cell_sol_count == 0 ==> r matches Err(
            CountingError::Unsatisfiable,
        ),
        count.valid != 0 && count.cell_sol_count > 0 ==> (r matches Ok(b) && {
            let point = count.cell_sol_count as nat * pow2(count.hash_count as nat);
            &&& big_value(b.point_estimate) == point
            &&& big_value(b.lower_bound) == point * 1_000_000 / (factor as nat)
            &&& big_value(b.upper_bound) == point * factor / 1_000_000
        }),
{
    match point_estimate(count) {
        Ok(point) => Ok(pac_interval(point, factor)),
        Err(e) => Err(e),
    }
}

/// Where `ε ≥ 0` (a factor of at least `PAC_SCALE`), the interval contains
/// its point estimate: `lower ≤ point ≤ upper`.
pub proof fn lemma_interval_contains_point(point: nat, factor: nat)
    requires
        factor >= PAC_SCALE as nat,
    ensures
        lower_value(point, factor) <= point <= upper_value(point, factor),
{
    lemma_mul_inequality(PAC_SCALE as int, factor as int, point as int);
    assert(point * (PAC_SCALE as nat) == (PAC_SCALE as nat) * point && point * factor == factor * point)
        by (nonlinear_arith);
    lemma_interval_contains_admissible(point, factor, point);
}

/// The interval contains every count that the PAC guarantee admits: a true
/// count `c` with `point / (1 + ε) ≤ c` is at least `lower`, and one with
/// `c ≤ point · (1 + ε)` is at most `upper`.
pub proof fn lemma_interval_contains_admissible(point: nat, factor: nat, c: nat)
    requires
        factor > 0,
    ensures
        point * (PAC_SCALE as nat) <= c * factor ==> lower_value(point, factor) <= c,
        c * (PAC_SCALE as nat) <= point * factor ==> c <= upper_value(point, factor),
{
    let s = PAC_SCALE as int;
    let f = factor as int;
    if point * (PAC_SCALE as nat) <= c * factor {
        lemma_div_is_ordered(point * s, c * f, f);
        lemma_div_multiples_vanish(c as int, f);
        assert(c * f == f * c) by (nonlinear_arith);
    }
    if c * (PAC_SCALE as nat) <= point * factor {
        lemma_div_is_ordered(c * s, point * f, s);
        lemma_div_multiples_vanish(c as int, s);
        assert(c * s == s * c) by (nonlinear_arith);
    }
}

/// A wider tolerance gives a wider interval: raising the factor never
/// raises the lower bound nor lowers the upper bound.
pub proof fn lemma_interval_widens(point: nat, factor1: nat, factor2: nat)
    requires
        0 < factor1 <= factor2,
    ensures
        lower_value(point, factor2) <= lower_value(point, factor1),
        upper_value(point, factor1) <= upper_value(point, factor2),
{
    lemma_mul_inequality(factor1 as int, factor2 as int, point as int);
    assert(point * factor1 == factor1 * point && point * factor2 == factor2 * point) by (nonlinear_arith);
    lemma_div_is_ordered((point * factor1) as int, (point * factor2) as int, PAC_SCALE as int);
    vstd::arithmetic::div_mod::lemma_div_is_ordered_by_denominator(
        (point * (PAC_SCALE as nat)) as int,
        factor1 as int,
        factor2 as int,
    );
}

/// The outcome of a count is determined by the counter's raw answer and the
/// factor: two outcomes that both meet `is_count_result` are the same error
/// or intervals with the same values.
pub proof fn lemma_count_result_determined(
    count: AppMcCount,
    factor: nat,
    r1: Result<PacInterval, CountingError>,
    r2: Result<PacInterval, CountingError>,
)
    requires
        is_count_result(count, factor, r1),
        is_count_result(count, factor, r2),
    ensures
        r1 is Ok <==> r2 is Ok,
        r1 matches Err(e1) ==> r2 matches Err(e2) && e1 is Unsatisfiable && e2 is Unsatisfiable,
        r1 matches Ok(b1) ==> r2 matches Ok(b2) && big_value(b1.point_estimate) == big_value(
            b2.point_estimate,
        ) && big_value(b1.lower_bound) == big_value(b2.lower_bound) && big_value(b1.upper_bound)
            == big_value(b2.upper_bound),
{
}

/// A raw answer reports models exactly where it is valid and its cell holds
/// at least one solution, and then it stands for `cell_sol_count` solutions
/// in each of `2^hash_count` cells.
pub proof fn lemma_answer_meaning(count: AppMcCount)
    ensures
        count_has_models(count) <==> (count.valid != 0 && count.cell_sol_count > 0),
        estimate_value(count) == count.cell_sol_count as nat * pow2(count.hash_count as nat),
        count.hash_count == 0 ==> estimate_value(count) == count.cell_sol_count,
{
    if count.hash_count == 0 {
        vstd::arithmetic::power2::lemma2_to64();
    }
}

/// The interval ends are `point / (1 + ε)` and `point · (1 + ε)`, rounded
/// down, where `1 + ε = factor / 1_000_000`, whatever the point.
pub proof fn lemma_interval_ends(point: nat, factor: nat)
    requires
        factor > 0,
    ensures
        lower_value(point, factor) == point * 1_000_000 / factor,
        upper_value(point, factor) == point * factor / 1_000_000,
        lower_value(point, factor) * factor <= point * 1_000_000,
        point * 1_000_000 < (lower_value(point, factor) + 1) * factor,
        upper_value(point, factor) * 1_000_000 <= point * factor,
        point * factor < (upper_value(point, factor) + 1) * 1_000_000,
{
    let l = point * 1_000_000 / factor;
    let u = point * factor / 1_000_000;
    vstd::arithmetic::div_mod::lemma_fundamental_div_mod((point * 1_000_000) as int, factor as int);
    vstd::arithmetic::div_mod::lemma_fundamental_div_mod((point * factor) as int, 1_000_000);
    assert(l * factor <= point * 1_000_000 < (l + 1) * factor) by (nonlinear_arith)
        requires
            l == point * 1_000_000 / factor,
            factor > 0,
            point * 1_000_000 == factor * l + (point * 1_000_000) % factor,
            0 <= (point * 1_000_000) % factor < factor,
    ;
    assert(u * 1_000_000 <= point * factor < (u + 1) * 1_000_000) by (nonlinear_arith)
        requires
            u == point * factor / 1_000_000,
            point * factor == 1_000_000 * u + (point * factor) % 1_000_000,
            0 <= (point * factor) % 1_000_000 < 1_000_000,
    ;
}

/// The outcome of a count with models carries the point estimate
/// `cell_sol_count · 2^hash_count` and, for every `hash_count`, the interval
/// ends `point / (1 + ε)` and `point · (1 + ε)` of the given factor.
pub proof fn lemma_count_result_bounds(
    count: AppMcCount,
    factor: nat,
    r: Result<PacInterval, CountingError>,
)
    requires
        factor > 0,
        count.valid != 0,
        count.cell_sol_count > 0,
        is_count_result(count, factor, r),
    ensures
        r matches Ok(b) && {
            let point = count.cell_sol_count as nat * pow2(count.hash_count as nat);
            &&& big_value(b.point_estimate) == point
            &&& big_value(b.lower_bound) == point * 1_000_000 / factor
            &&& big_value(b.upper_bound) == point * factor / 1_000_000
        },
{
    lemma_answer_meaning(count);
    lemma_interval_ends(estimate_value(count), factor);
}

/// A count without models, an invalid answer or an empty cell, is
/// `Unsatisfiable` and nothing else.
pub proof fn lemma_count_result_unsatisfiable(
    count: AppMcCount,
    factor: nat,
    r: Result<PacInterval, CountingError>,
)
    requires
        count.valid == 0 || count.cell_sol_count == 0,
        is_count_result(count, factor, r),
    ensures
        r matches Err(CountingError::Unsatisfiable),
{
    lemma_answer_meaning(count);
}

} // verus!
