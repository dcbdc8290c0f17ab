//! The protocol of one count against the native counter, as a state machine:
//! the driver performs each [`Action`] that [`CountSession::next`] returns and
//! hands back the [`Event`] it observed. The session allocates a counter,
//! configures it, declares the variables (where there are any), adds every
//! clause in order, sets the sampling set, counts, and finishes with the
//! interval or the error.

use vstd::prelude::*;
use crate::error::CountingError;
use crate::estimate::{AppMcCount, PacInterval, finish_count, is_count_result};
use crate::formula::SolverInput;

verus! {

/// Where a session stands.
#[derive(Clone, Copy, Debug, PartialEq, Eq, Structural)]
pub enum Phase {
    /// Nothing done yet.
    Start,
    /// A counter instance was asked for.
    Allocating,
    /// The instance was asked to take the tolerance, confidence and seed.
    Configuring,
    /// The instance was asked to allocate the variables.
    DeclaringVars,
    /// The clauses before this index were handed over.
    AddingClauses(usize),
    /// The sampling set was handed over.
    Sampling,
    /// The instance was asked to count.
    Counting,
    /// The session has produced its outcome.
    Finished,
}

/// What the driver observed after performing the last action.
pub enum Event {
    /// The session starts; no action was performed yet.
    Started,
    /// The counter instance was allocated (`true`) or could not be (`false`).
    Allocated(bool),
    /// The last action was carried out.
    Acknowledged,
    /// The counter's raw answer.
    Counted(AppMcCount),
}

/// What the driver is to do next.
#[derive(Debug)]
pub enum Action {
    /// Allocate a counter instance.
    Allocate,
    /// Set the tolerance, the confidence and the seed.
    Configure,
    /// Allocate this many variables.
    NewVars(u32),
    /// Add the clause at this index of the prepared input.
    AddClause(usize),
    /// Set the prepared sampling set.
    SetSampling,
    /// Run the count.
    Count,
    /// The session's outcome.
    Finish(Result<PacInterval, CountingError>),
}

/// An action without its payload of results.
#[derive(Clone, Copy, Debug, PartialEq, Eq, Structural)]
pub enum ActionTag {
    Allocate,
    Configure,
    NewVars(u32),
    AddClause(usize),
    SetSampling,
    Count,
    Finish,
}

/// The tag of an action.
pub open spec fn tag_of(a: Action) -> ActionTag {
    match a {
        Action::Allocate => ActionTag::Allocate,
        Action::Configure => ActionTag::Configure,
        Action::NewVars(n) => ActionTag::NewVars(n),
        Action::AddClause(i) => ActionTag::AddClause(i),
        Action::SetSampling => ActionTag::SetSampling,
        Action::Count => ActionTag::Count,
        Action::Finish(_) => ActionTag::Finish,
    }
}

/// The event that a driver can observe in `phase`; nothing is expected once
/// the session has finished.
pub open spec fn event_fits(phase: Phase, event: Event) -> bool {
    match phase {
        Phase::Start => event is Started,
        Phase::Allocating => event is Allocated,
        Phase::Counting => event is Counted,
        Phase::Finished => false,
        _ => event is Acknowledged,
    }
}

/// The step after the variables are declared: the first clause, or the
/// sampling set where there is no clause.
pub open spec fn after_vars(n_clauses: usize) -> (Phase, ActionTag) {
    if n_clauses > 0 {
        (Phase::AddingClauses(1), ActionTag::AddClause(0))
    } else {
        (Phase::Sampling, ActionTag::SetSampling)
    }
}

/// The next phase and action for `event` in `phase`.
pub open spec fn transition(phase: Phase, n_vars: u32, n_clauses: usize, event: Event) -> (
    Phase,
    ActionTag,
) {
    match phase {
        Phase::Start => (Phase::Allocating, ActionTag::Allocate),
        Phase::Allocating => if event matches Event::Allocated(true) {
            (Phase::Configuring, ActionTag::Configure)
        } else {
            (Phase::Finished, ActionTag::Finish)
        },
        Phase::Configuring => if n_vars > 0 {
            (Phase::DeclaringVars, ActionTag::NewVars(n_vars))
        } else {
            after_vars(n_clauses)
        },
        Phase::DeclaringVars => after_vars(n_clauses),
        Phase::AddingClauses(k) => if k < n_clauses {
            (Phase::AddingClauses((k + 1) as usize), ActionTag::AddClause(k))
        } else {
            (Phase::Sampling, ActionTag::SetSampling)
        },
        Phase::Sampling => (Phase::Counting, ActionTag::Count),
        Phase::Counting => (Phase::Finished, ActionTag::Finish),
        Phase::Finished => (Phase::Finished, ActionTag::Finish),
    }
}

/// The state of one count.
pub struct CountSession {
    phase: Phase,
    n_vars: u32,
    n_clauses: usize,
    factor: u64,
}

impl CountSession {
    #[verifier::type_invariant]
    spec fn well_formed(self) -> bool {
        &&& self.factor > 0
        &&& self.phase matches Phase::AddingClauses(k) ==> k <= self.n_clauses
    }

    /// Where the session stands.
    pub closed spec fn phase(self) -> Phase {
        self.phase
    }

    /// The number of variables to declare.
    pub closed spec fn n_vars(self) -> u32 {
        self.n_vars
    }

    /// The number of clauses to add.
    pub closed spec fn n_clauses(self) -> usize {
        self.n_clauses
    }

    /// The fixed-point interval factor.
    pub closed spec fn factor(self) -> u64 {
        self.factor
    }

    /// A session for the prepared `input` with the fixed-point factor
    /// `factor`; a zero factor would divide by zero.
    pub fn new(input: &SolverInput, factor: u64) -> (r: CountSession)
        requires
            factor > 0,
        ensures
            r.phase() == Phase::Start,
            r.n_vars() == input.n_vars,
            r.n_clauses() == input.clauses.len(),
            r.factor() == factor,
    {
        CountSession { phase: Phase::Start, n_vars: input.n_vars, n_clauses: input.clauses.len(), factor }
    }

    /// Where the session stands.
    pub fn current_phase(&self) -> (r: Phase)
        ensures
            r == self.phase(),
    {
        self.phase
    }

    /// Takes the event the driver observed and returns what it is to do next.
    /// A failed allocation finishes with a `SolverError`; the raw answer
    /// finishes with the count's outcome.
    pub fn next(&mut self, event: Event) -> (r: Action)
        requires
            event_fits(old(self).phase(), event),
        ensures
            (final(self).phase(), tag_of(r)) == transition(
                old(self).phase(),
                old(self).n_vars(),
                old(self).n_clauses(),
                event,
            ),
            final(self).n_vars() == old(self).n_vars(),
            final(self).n_clauses() == old(self).n_clauses(),
            final(self).factor() == old(self).factor(),
            (old(self).phase() is Allocating && event == Event::Allocated(false)) ==> (
            r matches Action::Finish(Err(CountingError::SolverError(m))) && m@
                == "failed to allocate ApproxMC instance"@),
            event matches Event::Counted(c) ==> r matches Action::Finish(res) && is_count_result(
                c,
                old(self).factor() as nat,
                res,
            ),
    {
        proof {
            use_type_invariant(&*self);
        }
        match self.phase {
            Phase::Start => {
                self.phase = Phase::Allocating;
                Action::Allocate
            },
            Phase::Allocating => {
                if let Event::Allocated(true) = event {
                    self.phase = Phase::Configuring;
                    Action::Configure
                } else {
                    self.phase = Phase::Finished;
                    let msg = String::from_str("failed to allocate ApproxMC instance");
                    Action::Finish(Err(CountingError::SolverError(msg)))
                }
            },
            Phase::Configuring => {
                if self.n_vars > 0 {
                    self.phase = Phase::DeclaringVars;
                    Action::NewVars(self.n_vars)
                } else {
                    self.after_vars()
                }
            },
            Phase::DeclaringVars => self.after_vars(),
            Phase::AddingClauses(k) => {
                if k < self.n_clauses {
                    self.phase = Phase::AddingClauses(k + 1);
                    Action::AddClause(k)
                } else {
                    self.phase = Phase::Sampling;
                    Action::SetSampling
                }
            },
            Phase::Sampling => {
                self.phase = Phase::Counting;
                Action::Count
            },
            Phase::Counting => {
                self.phase = Phase::Finished;
                match event {
                    Event::Counted(c) => Action::Finish(finish_count(&c, self.factor)),
                    _ => Action::Count,
                }
            },
            Phase::Finished => Action::Count,
        }
    }

    fn after_vars(&mut self) -> (r: Action)
        ensures
            (final(self).phase(), tag_of(r)) == after_vars(old(self).n_clauses()),
            final(self).n_vars() == old(self).n_vars(),
            final(self).n_clauses() == old(self).n_clauses(),
            final(self).factor() == old(self).factor(),
    {
        proof {
            use_type_invariant(&*self);
        }
        if self.n_clauses > 0 {
            self.phase = Phase::AddingClauses(1);
            Action::AddClause(0)
        } else {
            self.phase = Phase::Sampling;
            Action::SetSampling
        }
    }
}

/// The event a driver observes in `phase` when every action succeeds; the
/// raw answer in `Counting` does not change the action that follows it.
pub open spec fn success_event(phase: Phase) -> Event {
    match phase {
        Phase::Start => Event::Started,
        Phase::Allocating => Event::Allocated(true),
        Phase::Counting => Event::Counted(AppMcCount { valid: 1, hash_count: 0, cell_sol_count: 1 }),
        _ => Event::Acknowledged,
    }
}

/// The actions a session in `phase` issues, up to `fuel` of them, when every
/// action succeeds; it stops once it has finished.
pub open spec fn run_tags(phase: Phase, n_vars: u32, n_clauses: usize, fuel: nat) -> Seq<ActionTag>
    decreases fuel,
{
    if fuel == 0 || phase is Finished {
        Seq::empty()
    } else {
        let (next, tag) = transition(phase, n_vars, n_clauses, success_event(phase));
        seq![tag] + run_tags(next, n_vars, n_clauses, (fuel - 1) as nat)
    }
}

/// `AddClause(from)`, `AddClause(from + 1)`, ..., up to `n_clauses`.
pub open spec fn clause_tags(from: nat, n_clauses: nat) -> Seq<ActionTag> {
    Seq::new((n_clauses - from) as nat, |i: int| ActionTag::AddClause((from + i) as usize))
}

/// The protocol of a count in which every action succeeds.
pub open spec fn protocol_tags(n_vars: u32, n_clauses: usize) -> Seq<ActionTag> {
    seq![ActionTag::Allocate, ActionTag::Configure]
        + (if n_vars > 0 { seq![ActionTag::NewVars(n_vars)] } else { Seq::empty() })
        + clause_tags(0, n_clauses as nat)
        + seq![ActionTag::SetSampling, ActionTag::Count, ActionTag::Finish]
}

proof fn lemma_run_from_clauses(k: usize, n_vars: u32, n_clauses: usize, fuel: nat)
    requires
        k <= n_clauses,
        fuel >= n_clauses - k + 3,
    ensures
        run_tags(Phase::AddingClauses(k), n_vars, n_clauses, fuel) == clause_tags(k as nat, n_clauses as nat)
            + seq![ActionTag::SetSampling, ActionTag::Count, ActionTag::Finish],
    decreases n_clauses - k,
{
    assert(run_tags(Phase::Counting, n_vars, n_clauses, (fuel - (n_clauses - k) - 2) as nat)
        == seq![ActionTag::Finish]) by {
        reveal_with_fuel(run_tags, 2);
    }
    assert(run_tags(Phase::Sampling, n_vars, n_clauses, (fuel - (n_clauses - k) - 1) as nat)
        == seq![ActionTag::Count, ActionTag::Finish]);
    if k < n_clauses {
        lemma_run_from_clauses((k + 1) as usize, n_vars, n_clauses, (fuel - 1) as nat);
        assert(clause_tags(k as nat, n_clauses as nat) == seq![ActionTag::AddClause(k)] + clause_tags(
            (k + 1) as nat,
            n_clauses as nat,
        ));
    } else {
        assert(clause_tags(k as nat, n_clauses as nat) == Seq::<ActionTag>::empty());
    }
}

proof fn lemma_run_from_declared(n_vars: u32, n_clauses: usize, fuel: nat)
    requires
        fuel >= n_clauses + 3,
    ensures
        run_tags(Phase::DeclaringVars, n_vars, n_clauses, fuel) == clause_tags(0, n_clauses as nat)
            + seq![ActionTag::SetSampling, ActionTag::Count, ActionTag::Finish],
{
    if n_clauses > 0 {
        lemma_run_from_clauses(1, n_vars, n_clauses, (fuel - 1) as nat);
        assert(clause_tags(0, n_clauses as nat) == seq![ActionTag::AddClause(0)] + clause_tags(
            1,
            n_clauses as nat,
        ));
    } else {
        lemma_run_from_clauses(0, n_vars, n_clauses, fuel);
        assert(run_tags(Phase::AddingClauses(0), n_vars, n_clauses, fuel) == seq![
            ActionTag::SetSampling,
        ] + run_tags(Phase::Sampling, n_vars, n_clauses, (fuel - 1) as nat));
        assert(clause_tags(0, n_clauses as nat) == Seq::<ActionTag>::empty());
    }
}

/// A session in which every action succeeds allocates a counter, configures
/// it, declares the variables exactly where there are any, adds every clause
/// once and in order, sets the sampling set, counts, and then finishes; it
/// issues nothing after finishing.
pub proof fn lemma_session_protocol(n_vars: u32, n_clauses: usize, fuel: nat)
    requires
        fuel >= n_clauses + 6,
    ensures
        run_tags(Phase::Start, n_vars, n_clauses, fuel) == protocol_tags(n_vars, n_clauses),
{
    let tail = clause_tags(0, n_clauses as nat) + seq![
        ActionTag::SetSampling,
        ActionTag::Count,
        ActionTag::Finish,
    ];
    if n_vars > 0 {
        lemma_run_from_declared(n_vars, n_clauses, (fuel - 3) as nat);
        assert(run_tags(Phase::Configuring, n_vars, n_clauses, (fuel - 2) as nat) == seq![
            ActionTag::NewVars(n_vars),
        ] + tail);
    } else {
        lemma_run_from_declared(n_vars, n_clauses, (fuel - 2) as nat);
        assert(run_tags(Phase::Configuring, n_vars, n_clauses, (fuel - 2) as nat) == run_tags(
            Phase::DeclaringVars,
            n_vars,
            n_clauses,
            (fuel - 2) as nat,
        ));
    }
    assert(run_tags(Phase::Start, n_vars, n_clauses, fuel) == seq![ActionTag::Allocate]
        + run_tags(Phase::Allocating, n_vars, n_clauses, (fuel - 1) as nat));
}

} // verus!
