use rustsat::instances::Cnf;
use rustsat::types::{Lit, Var};
use rustsat_mc::{
    clause_buffers, fits_counter, lit_to_ipasir, prepare, prepare_checked, sampling_vars,
    variable_count, VAR_MAX_IDX,
};

fn p(idx: u32) -> Lit {
    Lit::positive(idx)
}

fn n(idx: u32) -> Lit {
    Lit::negative(idx)
}

fn tautologies(k: u32) -> Cnf {
    let mut cnf = Cnf::new();
    for v in 0..k {
        cnf.add_nary(&[p(v), n(v)]);
    }
    cnf
}

#[test]
fn ipasir_is_one_based_and_signed() {
    assert_eq!(lit_to_ipasir(0, false), 1);
    assert_eq!(lit_to_ipasir(0, true), -1);
    assert_eq!(lit_to_ipasir(4, true), -5);
    assert_eq!(lit_to_ipasir(VAR_MAX_IDX - 1, false), i32::MAX);
    assert_eq!(lit_to_ipasir(VAR_MAX_IDX - 1, true), -i32::MAX);
}

#[test]
fn ipasir_agrees_with_rustsat() {
    for (v, neg) in [(0u32, false), (7, true), (123456, false)] {
        let lit = Lit::new(v, neg);
        assert_eq!(lit_to_ipasir(v, neg), lit.to_ipasir());
        let back = Lit::from_ipasir(lit_to_ipasir(v, neg)).expect("nonzero");
        assert_eq!(back, lit);
    }
}

#[test]
fn full_count_input_for_tautologies() {
    let input = prepare(&tautologies(3), None);
    assert_eq!(input.n_vars, 3);
    assert_eq!(input.clauses, vec![vec![1, -1], vec![2, -2], vec![3, -3]]);
    assert_eq!(input.sampling_vars, vec![0, 1, 2]);
    assert!(!input.projected);
}

#[test]
fn projected_input_keeps_projection_order() {
    let mut cnf = Cnf::new();
    cnf.add_nary(&[p(0), p(1)]);
    cnf.add_nary(&[n(0), n(1)]);
    cnf.add_nary(&[p(2), n(2)]);
    let proj = [Var::new(1), Var::new(0)];
    let input = prepare(&cnf, Some(&proj));
    assert_eq!(input.n_vars, 3);
    assert_eq!(input.clauses, vec![vec![1, 2], vec![-1, -2], vec![3, -3]]);
    assert_eq!(input.sampling_vars, vec![1, 0]);
    assert!(input.projected);
}

#[test]
fn projection_can_raise_variable_count() {
    let cnf = tautologies(2);
    let proj = [Var::new(9)];
    assert_eq!(variable_count(&cnf, Some(&proj)), 10);
    assert_eq!(variable_count(&cnf, None), 2);
}

#[test]
fn variable_count_uses_largest_index() {
    let mut cnf = Cnf::new();
    cnf.add_nary(&[n(41)]);
    cnf.add_nary(&[p(3), p(7)]);
    assert_eq!(variable_count(&cnf, None), 42);
}

#[test]
fn empty_formula_has_no_variables() {
    let cnf = Cnf::new();
    assert_eq!(variable_count(&cnf, None), 0);
    let input = prepare(&cnf, None);
    assert_eq!(input.n_vars, 0);
    assert!(input.clauses.is_empty());
    assert!(input.sampling_vars.is_empty());
    let empty: [Var; 0] = [];
    let input = prepare(&cnf, Some(&empty));
    assert!(input.projected);
    assert!(input.sampling_vars.is_empty());
}

#[test]
fn empty_clause_is_kept() {
    let mut cnf = Cnf::new();
    cnf.add_nary(&[]);
    cnf.add_nary(&[p(1)]);
    let bufs = clause_buffers(&cnf);
    assert_eq!(bufs, vec![vec![], vec![2]]);
}

#[test]
fn sampling_set_without_projection_is_every_variable() {
    let (vars, projected) = sampling_vars(None, 4);
    assert_eq!(vars, vec![0, 1, 2, 3]);
    assert!(!projected);
    let proj = [Var::new(5), Var::new(2)];
    let (vars, projected) = sampling_vars(Some(&proj), 4);
    assert_eq!(vars, vec![5, 2]);
    assert!(projected);
}

#[test]
fn highest_variable_does_not_fit_the_counter() {
    let mut cnf = Cnf::new();
    cnf.add_nary(&[Lit::positive(Var::MAX_IDX)]);
    assert_eq!(Var::MAX_IDX, VAR_MAX_IDX);
    assert!(!fits_counter(&cnf, None));
    assert!(prepare_checked(&cnf, None).is_none());
}

#[test]
fn second_highest_variable_fits_the_counter() {
    let mut cnf = Cnf::new();
    cnf.add_nary(&[Lit::negative(Var::MAX_IDX - 1)]);
    assert!(fits_counter(&cnf, None));
    // A projection keeps the sampling set small.
    let proj = [Var::new(0)];
    let input = prepare_checked(&cnf, Some(&proj)).expect("fits");
    assert_eq!(input.clauses, vec![vec![-i32::MAX]]);
    assert_eq!(input.n_vars, VAR_MAX_IDX);
    assert_eq!(input.sampling_vars, vec![0]);
}

#[test]
fn projection_at_u32_max_does_not_fit() {
    let cnf = tautologies(1);
    let proj = [Var::new_unchecked(u32::MAX)];
    assert!(!fits_counter(&cnf, Some(&proj)));
    assert!(prepare_checked(&cnf, Some(&proj)).is_none());
    assert!(fits_counter(&cnf, None));
}

#[test]
fn preparing_twice_gives_the_same_input() {
    let mut cnf = Cnf::new();
    cnf.add_nary(&[p(0), n(3)]);
    cnf.add_nary(&[p(2)]);
    let proj = [Var::new(3), Var::new(0)];
    let a = prepare(&cnf, Some(&proj));
    let b = prepare(&cnf, Some(&proj));
    assert_eq!(a.n_vars, b.n_vars);
    assert_eq!(a.clauses, b.clauses);
    assert_eq!(a.sampling_vars, b.sampling_vars);
    assert_eq!(a.projected, b.projected);
}
