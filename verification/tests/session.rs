use num_bigint::BigUint;
use rustsat::instances::Cnf;
use rustsat::types::{Lit, Var};
use rustsat_mc::{prepare, Action, AppMcCount, CountSession, CountingError, Event, Phase};

fn tag(a: &Action) -> String {
    match a {
        Action::Allocate => "alloc".to_string(),
        Action::Configure => "config".to_string(),
        Action::NewVars(n) => format!("vars {n}"),
        Action::AddClause(i) => format!("clause {i}"),
        Action::SetSampling => "sampling".to_string(),
        Action::Count => "count".to_string(),
        Action::Finish(_) => "finish".to_string(),
    }
}

/// Drives a session in which every native call succeeds and the counter
/// answers `answer`; returns the tags of the actions and the outcome.
fn drive(session: &mut CountSession, answer: AppMcCount) -> (Vec<String>, Action) {
    let mut tags = Vec::new();
    let mut event = Event::Started;
    loop {
        let action = session.next(event);
        tags.push(tag(&action));
        event = match &action {
            Action::Allocate => Event::Allocated(true),
            Action::Finish(_) => return (tags, action),
            Action::Count => Event::Counted(answer),
            _ => Event::Acknowledged,
        };
    }
}

#[test]
fn session_protocol_with_variables_and_clauses() {
    let mut cnf = Cnf::new();
    cnf.add_nary(&[Lit::positive(0), Lit::positive(1)]);
    cnf.add_nary(&[Lit::negative(0), Lit::negative(1)]);
    cnf.add_nary(&[Lit::positive(2), Lit::negative(2)]);
    let input = prepare(&cnf, None);
    let mut session = CountSession::new(&input, 1_200_000);
    assert_eq!(session.current_phase(), Phase::Start);
    let answer = AppMcCount { valid: 1, hash_count: 1, cell_sol_count: 2 };
    let (tags, outcome) = drive(&mut session, answer);
    assert_eq!(
        tags,
        vec!["alloc", "config", "vars 3", "clause 0", "clause 1", "clause 2", "sampling", "count", "finish"]
    );
    assert_eq!(session.current_phase(), Phase::Finished);
    match outcome {
        Action::Finish(Ok(b)) => {
            assert_eq!(b.point_estimate, BigUint::from(4u32));
            assert_eq!(b.upper_bound, BigUint::from(4u32));
            assert_eq!(b.lower_bound, BigUint::from(3u32));
        }
        other => panic!("unexpected outcome {other:?}"),
    }
}

#[test]
fn session_without_variables_skips_declaration() {
    let cnf = Cnf::new();
    let input = prepare(&cnf, None);
    let mut session = CountSession::new(&input, 1_200_000);
    let answer = AppMcCount { valid: 1, hash_count: 0, cell_sol_count: 1 };
    let (tags, _) = drive(&mut session, answer);
    assert_eq!(tags, vec!["alloc", "config", "sampling", "count", "finish"]);
}

#[test]
fn session_with_projection_declares_its_variables() {
    let cnf = Cnf::new();
    let proj = [Var::new(4)];
    let input = prepare(&cnf, Some(&proj));
    let mut session = CountSession::new(&input, 1_200_000);
    let answer = AppMcCount { valid: 1, hash_count: 0, cell_sol_count: 1 };
    let (tags, _) = drive(&mut session, answer);
    assert_eq!(tags, vec!["alloc", "config", "vars 5", "sampling", "count", "finish"]);
}

#[test]
fn failed_allocation_is_a_solver_error() {
    let input = prepare(&Cnf::new(), None);
    let mut session = CountSession::new(&input, 1_200_000);
    assert!(matches!(session.next(Event::Started), Action::Allocate));
    match session.next(Event::Allocated(false)) {
        Action::Finish(Err(CountingError::SolverError(m))) => {
            assert_eq!(m, "failed to allocate ApproxMC instance")
        }
        other => panic!("unexpected action {other:?}"),
    }
    assert_eq!(session.current_phase(), Phase::Finished);
}

#[test]
fn session_reports_unsatisfiable_answer() {
    let mut cnf = Cnf::new();
    cnf.add_nary(&[Lit::positive(0)]);
    cnf.add_nary(&[Lit::negative(0)]);
    let input = prepare(&cnf, None);
    let mut session = CountSession::new(&input, 1_200_000);
    let answer = AppMcCount { valid: 1, hash_count: 0, cell_sol_count: 0 };
    let (_, outcome) = drive(&mut session, answer);
    assert!(matches!(outcome, Action::Finish(Err(CountingError::Unsatisfiable))));
}
