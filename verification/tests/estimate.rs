use num_bigint::BigUint;
use rustsat_mc::{finish_count, pac_interval, point_estimate, AppMcCount, CountingError, PAC_SCALE};

fn count(valid: i32, hash_count: u32, cell_sol_count: u64) -> AppMcCount {
    AppMcCount { valid, hash_count, cell_sol_count }
}

#[test]
fn point_estimate_is_cells_times_power_of_two() {
    let p = point_estimate(&count(1, 3, 2)).expect("models");
    assert_eq!(p, BigUint::from(16u32));
    let p = point_estimate(&count(1, 0, 8)).expect("models");
    assert_eq!(p, BigUint::from(8u32));
}

#[test]
fn point_estimate_beyond_u64() {
    let p = point_estimate(&count(1, 70, 3)).expect("models");
    assert_eq!(p, BigUint::from(3u32) << 70u32);
}

#[test]
fn invalid_answer_is_unsatisfiable() {
    assert!(matches!(point_estimate(&count(0, 4, 5)), Err(CountingError::Unsatisfiable)));
}

#[test]
fn zero_cell_count_is_unsatisfiable() {
    assert!(matches!(point_estimate(&count(1, 4, 0)), Err(CountingError::Unsatisfiable)));
}

#[test]
fn interval_for_default_tolerance() {
    // epsilon 0.2 gives the factor 1.2 in fixed point.
    let b = pac_interval(BigUint::from(16u32), 1_200_000);
    assert_eq!(b.point_estimate, BigUint::from(16u32));
    assert_eq!(b.upper_bound, BigUint::from(19u32));
    assert_eq!(b.lower_bound, BigUint::from(13u32));
}

#[test]
fn interval_contains_point_and_exact_count() {
    let exact = BigUint::from(16u32);
    let b = pac_interval(exact.clone(), 1_200_000);
    assert!(b.lower_bound <= b.point_estimate);
    assert!(b.point_estimate <= b.upper_bound);
    assert!(b.lower_bound <= exact);
    assert!(exact <= b.upper_bound);
}

#[test]
fn interval_at_unit_factor_is_the_point() {
    let b = pac_interval(BigUint::from(12345u32), PAC_SCALE);
    assert_eq!(b.lower_bound, BigUint::from(12345u32));
    assert_eq!(b.upper_bound, BigUint::from(12345u32));
}

#[test]
fn wider_tolerance_widens_interval() {
    let narrow = pac_interval(BigUint::from(1000u32), 1_050_000);
    let wide = pac_interval(BigUint::from(1000u32), 1_800_000);
    assert_eq!(narrow.upper_bound, BigUint::from(1050u32));
    assert_eq!(wide.upper_bound, BigUint::from(1800u32));
    assert_eq!(narrow.lower_bound, BigUint::from(952u32));
    assert_eq!(wide.lower_bound, BigUint::from(555u32));
    assert!(wide.lower_bound <= narrow.lower_bound);
    assert!(narrow.upper_bound <= wide.upper_bound);
}

#[test]
fn interval_of_large_estimate() {
    let point = BigUint::from(1u32) << 100u32;
    let b = pac_interval(point.clone(), 1_200_000);
    assert_eq!(b.upper_bound, &point * BigUint::from(6u32) / BigUint::from(5u32));
    assert_eq!(b.lower_bound, &point * BigUint::from(5u32) / BigUint::from(6u32));
}

#[test]
fn finish_count_combines_estimate_and_interval() {
    let b = finish_count(&count(1, 2, 4), 1_200_000).expect("models");
    assert_eq!(b.point_estimate, BigUint::from(16u32));
    assert_eq!(b.upper_bound, BigUint::from(19u32));
    assert_eq!(b.lower_bound, BigUint::from(13u32));
    assert!(matches!(finish_count(&count(0, 2, 4), 1_200_000), Err(CountingError::Unsatisfiable)));
}
