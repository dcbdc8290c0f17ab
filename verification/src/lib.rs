//! Verified core of a PAC model-counting front end: preparing a `rustsat` CNF
//! formula for an approximate model counter, and turning the counter's raw
//! answer into a point estimate with its confidence interval.
//!
//! - [`formula`]: the variable count, the clauses as IPASIR literals and the
//!   sampling set handed to the counter.
//! - [`estimate`]: the point estimate and its PAC interval.
//! - [`session`]: the protocol of one count against the native counter.
//! - [`text`]: rendering in `m.mm × 10^e` notation.
//! - [`bignum`]: the `num_bigint` operations used, over their values.
//! - [`error`]: the ways a count can fail.

pub mod bignum;
pub mod error;
pub mod estimate;
pub mod formula;
pub mod text;

pub use error::CountingError;
pub use estimate::{finish_count, pac_interval, point_estimate, AppMcCount, PacInterval, PAC_SCALE};
pub use formula::{
    clause_buffers, fits_counter, lit_to_ipasir, prepare, prepare_checked, sampling_vars,
    variable_count, SolverInput, VAR_MAX_IDX,
};
pub use session::{Action, CountSession, Event, Phase};
pub use text::{interval_text, sci, sci_ratio};
pub mod session;
