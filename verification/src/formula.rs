//! What the native counter is handed for a `rustsat` CNF formula: the number
//! of variables to allocate, each clause as IPASIR literals (variable index
//! plus one, negative where negated), and the sampling set.

use vstd::prelude::*;
use rustsat::instances::Cnf;
use rustsat::types::Var;

verus! {

#[verifier::external_type_specification]
#[verifier::external_body]
pub struct ExCnf(rustsat::instances::Cnf);

#[verifier::external_type_specification]
#[verifier::external_body]
pub struct ExVar(rustsat::types::Var);

/// The largest variable index that a `rustsat` literal can carry.
pub const VAR_MAX_IDX: u32 = 0x7fff_ffff;

/// The clauses of a CNF formula in order, each literal given as its
/// variable index and whether it is negated.
pub uninterp spec fn cnf_literals(cnf: Cnf) -> Seq<Seq<(u32, bool)>>;

/// The 32-bit index of a variable, as `Var::idx32` returns it.
pub uninterp spec fn var_index(v: Var) -> u32;

/// `Cnf::len`: the number of clauses.
#[verifier::external_body]
pub(crate) fn cnf_len(cnf: &Cnf) -> (r: usize)
    ensures
        r == cnf_literals(*cnf).len(),
{
    cnf.len()
}

/// The literals of clause `i` (`cnf[i].iter()`), each handed out as
/// `(lit.vidx32(), lit.is_neg())`. A literal is stored as `idx << 1 | negated`
/// in a `u32`, so its variable index is at most `VAR_MAX_IDX`.
#[verifier::external_body]
pub(crate) fn cnf_clause(cnf: &Cnf, i: usize) -> (r: Vec<(u32, bool)>)
    requires
        i < cnf_literals(*cnf).len(),
    ensures
        r@ == cnf_literals(*cnf)[i as int],
        forall|j: int| 0 <= j < r.len() ==> r[j].0 <= VAR_MAX_IDX,
{
    cnf[i].iter().map(|lit| (lit.vidx32(), lit.is_neg())).collect()
}

/// `Var::idx32`.
#[verifier::external_body]
pub(crate) fn var_idx32(v: &Var) -> (r: u32)
    ensures
        r == var_index(*v),
{
    v.idx32()
}

/// The variable indices of a projection, in order; empty where there is none.
pub open spec fn projection_indices(projection: Option<&[Var]>) -> Seq<u32> {
    match projection {
        Some(p) => p@.map_values(|v: Var| var_index(v)),
        None => Seq::empty(),
    }
}

/// The IPASIR integer of a literal: `var + 1`, negated where the literal is.
pub open spec fn ipasir_value(var: u32, negated: bool) -> int {
    if negated {
        -(var + 1)
    } else {
        var + 1
    }
}

/// Every literal's IPASIR integer fits in an `i32`.
pub open spec fn literals_fit_ipasir(lits: Seq<Seq<(u32, bool)>>) -> bool {
    forall|i: int, j: int|
        0 <= i < lits.len() && 0 <= j < lits[i].len() ==> #[trigger] lits[i][j].0 < i32::MAX
}

/// Every projection index leaves room for the variable count `index + 1`.
pub open spec fn projection_fits(proj: Seq<u32>) -> bool {
    forall|k: int| 0 <= k < proj.len() ==> #[trigger] proj[k] < u32::MAX
}

/// The formula or the projection mentions variable `v`.
pub open spec fn mentions(lits: Seq<Seq<(u32, bool)>>, proj: Seq<u32>, v: int) -> bool {
    ||| exists|i: int, j: int|
        0 <= i < lits.len() && 0 <= j < lits[i].len() && #[trigger] lits[i][j].0 == v
    ||| exists|k: int| 0 <= k < proj.len() && #[trigger] proj[k] == v
}

/// `n` is the number of variables the counter must allocate: one more than
/// the largest index that the clauses or the projection mention, or zero where
/// they mention none.
pub open spec fn is_variable_count(lits: Seq<Seq<(u32, bool)>>, proj: Seq<u32>, n: nat) -> bool {
    &&& forall|i: int, j: int|
        0 <= i < lits.len() && 0 <= j < lits[i].len() ==> #[trigger] lits[i][j].0 < n
    &&& forall|k: int| 0 <= k < proj.len() ==> #[trigger] proj[k] < n
    &&& (n == 0 || mentions(lits, proj, n - 1))
}

/// Everything the native counter is handed for one count.
#[derive(Debug)]
pub struct SolverInput {
    /// How many variables to allocate.
    pub n_vars: u32,
    /// The clauses, in order, as IPASIR literals.
    pub clauses: Vec<Vec<i32>>,
    /// The variables to count over.
    pub sampling_vars: Vec<u32>,
    /// Whether the sampling set is a projection given by the caller.
    pub projected: bool,
}

/// The input for counting `cnf`, projected onto `projection` where there is
/// one, else over every variable.
pub open spec fn is_solver_input(cnf: Cnf, projection: Option<&[Var]>, r: SolverInput) -> bool {
    let lits = cnf_literals(cnf);
    &&& is_variable_count(lits, projection_indices(projection), r.n_vars as nat)
    &&& r.clauses.len() == lits.len()
    &&& forall|i: int|
        0 <= i < lits.len() ==> (#[trigger] r.clauses[i])@.len() == lits[i].len()
    &&& forall|i: int, j: int|
        0 <= i < lits.len() && 0 <= j < lits[i].len() ==> #[trigger] r.clauses[i][j] as int
            == ipasir_value(lits[i][j].0, lits[i][j].1)
    &&& r.projected == projection.is_some()
    &&& r.sampling_vars@ == sampling_spec(projection, r.n_vars)
}

/// The sampling set: the projection where there is one, else `0..n_vars`.
pub open spec fn sampling_spec(projection: Option<&[Var]>, n_vars: u32) -> Seq<u32> {
    match projection {
        Some(_) => projection_indices(projection),
        None => Seq::new(n_vars as nat, |k: int| k as u32),
    }
}

/// Converts a literal to its 1-based signed IPASIR integer, as
/// `Lit::to_ipasir` does; that panics where `var + 1` does not fit in an
/// `i32`, which `requires` leaves out.
pub fn lit_to_ipasir(var: u32, negated: bool) -> (r: i32)
    requires
        var < i32::MAX,
    ensures
        r as int == ipasir_value(var, negated),
{
    let idx: i32 = (var + 1) as i32;
    if negated {
        -idx
    } else {
        idx
    }
}

/// The number of variables the counter must allocate for `cnf` and
/// `projection`.
pub fn variable_count(cnf: &Cnf, projection: Option<&[Var]>) -> (r: u32)
    requires
        projection_fits(projection_indices(projection)),
    ensures
        is_variable_count(cnf_literals(*cnf), projection_indices(projection), r as nat),
{
    let ghost lits = cnf_literals(*cnf);
    let ghost proj = projection_indices(projection);
    let n_clauses = cnf_len(cnf);
    let mut found = false;
    let mut max_idx: u32 = 0;
    let mut i: usize = 0;
    while i < n_clauses
        invariant
            n_clauses == lits.len(),
            lits == cnf_literals(*cnf),
            0 <= i <= n_clauses,
            !found ==> forall|i2: int| 0 <= i2 < i ==> #[trigger] lits[i2].len() == 0,
            found ==> max_idx <= VAR_MAX_IDX,
            found ==> forall|i2: int, j2: int|
                0 <= i2 < i && 0 <= j2 < lits[i2].len() ==> #[trigger] lits[i2][j2].0 <= max_idx,
            found ==> exists|i2: int, j2: int|
                0 <= i2 < i && 0 <= j2 < lits[i2].len() && #[trigger] lits[i2][j2].0 == max_idx,
        decreases n_clauses - i,
    {
        let clause = cnf_clause(cnf, i);
        let mut j: usize = 0;
        while j < clause.len()
            invariant
                n_clauses == lits.len(),
                0 <= i < n_clauses,
                clause@ == lits[i as int],
                forall|j3: int| 0 <= j3 < clause.len() ==> clause[j3].0 <= VAR_MAX_IDX,
                0 <= j <= clause.len(),
                !found ==> forall|i2: int| 0 <= i2 < i ==> #[trigger] lits[i2].len() == 0,
                !found ==> j == 0,
                found ==> max_idx <= VAR_MAX_IDX,
                found ==> forall|i2: int, j2: int|
                    0 <= i2 < i && 0 <= j2 < lits[i2].len() ==> #[trigger] lits[i2][j2].0 <= max_idx,
                found ==> forall|j2: int| 0 <= j2 < j ==> lits[i as int][j2].0 <= max_idx,
                found ==> exists|i2: int, j2: int|
                    0 <= i2 <= i && 0 <= j2 < lits[i2].len() && #[trigger] lits[i2][j2].0 == max_idx,
            decreases clause.len() - j,
        {
            let idx = clause[j].0;
            assert(lits[i as int][j as int].0 == idx);
            if !found || idx > max_idx {
                max_idx = idx;
            }
            found = true;
            j = j + 1;
        }
        i = i + 1;
    }
    if let Some(p) = projection {
        let mut k: usize = 0;
        while k < p.len()
            invariant
                proj == p@.map_values(|v: Var| var_index(v)),
                projection_fits(proj),
                0 <= k <= p.len(),
                n_clauses == lits.len(),
                !found ==> forall|i2: int| 0 <= i2 < n_clauses ==> #[trigger] lits[i2].len() == 0,
                !found ==> k == 0,
                found ==> max_idx < u32::MAX,
                found ==> forall|i2: int, j2: int|
                    0 <= i2 < n_clauses && 0 <= j2 < lits[i2].len() ==> #[trigger] lits[i2][j2].0
                        <= max_idx,
                found ==> forall|k2: int| 0 <= k2 < k ==> #[trigger] proj[k2] <= max_idx,
                found ==> mentions(lits, proj, max_idx as int),
            decreases p.len() - k,
        {
            let idx = var_idx32(&p[k]);
            assert(proj[k as int] == idx);
            if !found || idx > max_idx {
                max_idx = idx;
            }
            found = true;
            k = k + 1;
        }
    }
    if found {
        max_idx + 1
    } else {
        assert forall|k: int| 0 <= k < proj.len() implies #[trigger] proj[k] < 0 by {
            assert(projection is Some);
        }
        0
    }
}

/// Each clause of `cnf`, in order, as its literals' IPASIR integers.
pub fn clause_buffers(cnf: &Cnf) -> (r: Vec<Vec<i32>>)
    requires
        literals_fit_ipasir(cnf_literals(*cnf)),
    ensures
        r.len() == cnf_literals(*cnf).len(),
        forall|i: int|
            0 <= i < r.len() ==> (#[trigger] r[i])@.len() == cnf_literals(*cnf)[i].len(),
        forall|i: int, j: int|
            0 <= i < r.len() && 0 <= j < cnf_literals(*cnf)[i].len() ==> #[trigger] r[i][j] as int
                == ipasir_value(cnf_literals(*cnf)[i][j].0, cnf_literals(*cnf)[i][j].1),
{
    let ghost lits = cnf_literals(*cnf);
    let n_clauses = cnf_len(cnf);
    let mut out: Vec<Vec<i32>> = Vec::new();
    let mut i: usize = 0;
    while i < n_clauses
        invariant
            n_clauses == lits.len(),
            lits == cnf_literals(*cnf),
            literals_fit_ipasir(lits),
            0 <= i <= n_clauses,
            out.len() == i,
            forall|i2: int| 0 <= i2 < i ==> (#[trigger] out[i2])@.len() == lits[i2].len(),
            forall|i2: int, j2: int|
                0 <= i2 < i && 0 <= j2 < lits[i2].len() ==> #[trigger] out[i2][j2] as int
                    == ipasir_value(lits[i2][j2].0, lits[i2][j2].1),
        decreases n_clauses - i,
    {
        let clause = cnf_clause(cnf, i);
        let mut buf: Vec<i32> = Vec::new();
        let mut j: usize = 0;
        while j < clause.len()
            invariant
                0 <= i < lits.len(),
                clause@ == lits[i as int],
                literals_fit_ipasir(lits),
                0 <= j <= clause.len(),
                buf.len() == j,
                forall|j2: int| 0 <= j2 < j ==> #[trigger] buf[j2] as int
                    == ipasir_value(lits[i as int][j2].0, lits[i as int][j2].1),
            decreases clause.len() - j,
        {
            let (var, negated) = clause[j];
            assert(lits[i as int][j as int].0 < i32::MAX);
            buf.push(lit_to_ipasir(var, negated));
            j = j + 1;
        }
        out.push(buf);
        i = i + 1;
    }
    out
}

/// The sampling set and whether it is a projection: the projection's
/// variable indices in order where there is one, else every variable
/// `0..n_vars`.
pub fn sampling_vars(projection: Option<&[Var]>, n_vars: u32) -> (r: (Vec<u32>, bool))
    ensures
        r.0@ == sampling_spec(projection, n_vars),
        r.1 == projection.is_some(),
        projection matches Some(p) ==> r.0@ == p@.map_values(|v: Var| var_index(v)),
        projection is None ==> r.0@.len() == n_vars && forall|k: int|
            0 <= k < n_vars ==> #[trigger] r.0@[k] == k,
{
    let mut out: Vec<u32> = Vec::new();
    match projection {
        Some(p) => {
            let ghost proj = projection_indices(projection);
            let mut k: usize = 0;
            while k < p.len()
                invariant
                    proj == p@.map_values(|v: Var| var_index(v)),
                    0 <= k <= p.len(),
                    out@ == proj.take(k as int),
                decreases p.len() - k,
            {
                let idx = var_idx32(&p[k]);
                out.push(idx);
                assert(out@ == proj.take(k + 1));
                k = k + 1;
            }
            assert(out@ == proj);
            (out, true)
        },
        None => {
            let mut v: u32 = 0;
            while v < n_vars
                invariant
                    0 <= v <= n_vars,
                    out@ == Seq::new(v as nat, |k: int| k as u32),
                decreases n_vars - v,
            {
                out.push(v);
                assert(out@ == Seq::new((v + 1) as nat, |k: int| k as u32));
                v = v + 1;
            }
            (out, false)
        },
    }
}

/// Everything the native counter is handed to count `cnf`, projected onto
/// `projection` where there is one.
pub fn prepare(cnf: &Cnf, projection: Option<&[Var]>) -> (r: SolverInput)
    requires
        literals_fit_ipasir(cnf_literals(*cnf)),
        projection_fits(projection_indices(projection)),
    ensures
        is_solver_input(*cnf, projection, r),
{
    let n_vars = variable_count(cnf, projection);
    let clauses = clause_buffers(cnf);
    let (sampling, projected) = sampling_vars(projection, n_vars);
    SolverInput { n_vars, clauses, sampling_vars: sampling, projected }
}

/// Whether `prepare` can take `cnf` and `projection`: every literal's IPASIR
/// integer fits in an `i32` and every projection index is below `u32::MAX`.
pub fn fits_counter(cnf: &Cnf, projection: Option<&[Var]>) -> (r: bool)
    ensures
        r == (literals_fit_ipasir(cnf_literals(*cnf)) && projection_fits(
            projection_indices(projection),
        )),
{
    let ghost lits = cnf_literals(*cnf);
    let ghost proj = projection_indices(projection);
    let n_clauses = cnf_len(cnf);
    let mut i: usize = 0;
    while i < n_clauses
        invariant
            n_clauses == lits.len(),
            lits == cnf_literals(*cnf),
            0 <= i <= n_clauses,
            forall|i2: int, j2: int|
                0 <= i2 < i && 0 <= j2 < lits[i2].len() ==> #[trigger] lits[i2][j2].0 < i32::MAX,
        decreases n_clauses - i,
    {
        let clause = cnf_clause(cnf, i);
        let mut j: usize = 0;
        while j < clause.len()
            invariant
                0 <= i < lits.len(),
                lits == cnf_literals(*cnf),
                clause@ == lits[i as int],
                0 <= j <= clause.len(),
                forall|j2: int| 0 <= j2 < j ==> lits[i as int][j2].0 < i32::MAX,
            decreases clause.len() - j,
        {
            if clause[j].0 >= 0x7fff_ffff {
                assert(lits[i as int][j as int].0 >= i32::MAX);
                return false;
            }
            j = j + 1;
        }
        i = i + 1;
    }
    if let Some(p) = projection {
        let mut k: usize = 0;
        while k < p.len()
            invariant
                proj == p@.map_values(|v: Var| var_index(v)),
                proj == projection_indices(projection),
                0 <= k <= p.len(),
                forall|k2: int| 0 <= k2 < k ==> #[trigger] proj[k2] < u32::MAX,
            decreases p.len() - k,
        {
            if var_idx32(&p[k]) == u32::MAX {
                assert(proj[k as int] == u32::MAX);
                return false;
            }
            k = k + 1;
        }
    }
    true
}

/// `prepare` where it can take its inputs, else `None`: the native counter
/// could not be handed a literal whose IPASIR integer overflows an `i32`.
pub fn prepare_checked(cnf: &Cnf, projection: Option<&[Var]>) -> (r: Option<SolverInput>)
    ensures
        r is Some <==> (literals_fit_ipasir(cnf_literals(*cnf)) && projection_fits(
            projection_indices(projection),
        )),
        r matches Some(input) ==> is_solver_input(*cnf, projection, input),
{
    if fits_counter(cnf, projection) {
        Some(prepare(cnf, projection))
    } else {
        None
    }
}

/// Distinct literals get distinct IPASIR integers, none of them zero, and a
/// literal can be read back from its integer: the variable index is its
/// magnitude minus one and the sign tells whether it is negated.
pub proof fn lemma_ipasir_decodes(var1: u32, neg1: bool, var2: u32, neg2: bool)
    ensures
        ipasir_value(var1, neg1) != 0,
        (ipasir_value(var1, neg1) < 0) == neg1,
        (if neg1 { -ipasir_value(var1, neg1) } else { ipasir_value(var1, neg1) }) - 1 == var1,
        ipasir_value(var1, neg1) == ipasir_value(var2, neg2) ==> var1 == var2 && neg1 == neg2,
{
}

/// The variable count is determined by the formula and the projection: no
/// two different counts meet its definition.
pub proof fn lemma_variable_count_unique(
    lits: Seq<Seq<(u32, bool)>>,
    proj: Seq<u32>,
    n1: nat,
    n2: nat,
)
    requires
        is_variable_count(lits, proj, n1),
        is_variable_count(lits, proj, n2),
    ensures
        n1 == n2,
{
    if n1 != n2 {
        let top: int = if n1 < n2 { n2 - 1 } else { n1 - 1 };
        let low: nat = if n1 < n2 { n1 } else { n2 };
        assert(mentions(lits, proj, top));
        if exists|k: int| 0 <= k < proj.len() && #[trigger] proj[k] == top {
            let k = choose|k: int| 0 <= k < proj.len() && #[trigger] proj[k] == top;
            assert(proj[k] < low);
        } else {
            let (i, j) = choose|i: int, j: int|
                0 <= i < lits.len() && 0 <= j < lits[i].len() && #[trigger] lits[i][j].0 == top;
            assert(lits[i][j].0 < low);
        }
    }
}

/// What the counter is handed is determined by the formula and the
/// projection: two inputs that both meet `is_solver_input` agree, so a count
/// with a fixed seed is handed the same problem every time.
pub proof fn lemma_solver_input_determined(
    cnf: Cnf,
    projection: Option<&[Var]>,
    r1: SolverInput,
    r2: SolverInput,
)
    requires
        is_solver_input(cnf, projection, r1),
        is_solver_input(cnf, projection, r2),
    ensures
        r1.n_vars == r2.n_vars,
        r1.clauses.len() == r2.clauses.len(),
        forall|i: int| 0 <= i < r1.clauses.len() ==> (#[trigger] r1.clauses[i])@ == r2.clauses[i]@,
        r1.sampling_vars@ == r2.sampling_vars@,
        r1.projected == r2.projected,
{
    let lits = cnf_literals(cnf);
    lemma_variable_count_unique(
        lits,
        projection_indices(projection),
        r1.n_vars as nat,
        r2.n_vars as nat,
    );
    assert forall|i: int| 0 <= i < r1.clauses.len() implies (#[trigger] r1.clauses[i])@
        == r2.clauses[i]@ by {
        assert(r1.clauses[i]@.len() == lits[i].len());
        assert(r2.clauses[i]@.len() == lits[i].len());
        assert forall|j: int| 0 <= j < lits[i].len() implies r1.clauses[i]@[j] == r2.clauses[i]@[j] by {
            assert(r1.clauses[i][j] as int == ipasir_value(lits[i][j].0, lits[i][j].1));
            assert(r2.clauses[i][j] as int == ipasir_value(lits[i][j].0, lits[i][j].1));
        }
        assert(r1.clauses[i]@ =~= r2.clauses[i]@);
    }
}

/// The sampling set of a projected count is the projection's variable
/// indices, in order and whatever its length (an empty projection samples
/// nothing); without a projection it is every variable `0..n_vars`.
pub proof fn lemma_sampling_meaning(projection: Option<&[Var]>, n_vars: u32)
    ensures
        projection matches Some(p) ==> sampling_spec(projection, n_vars) == p@.map_values(
            |v: Var| var_index(v),
        ),
        projection matches Some(p) ==> sampling_spec(projection, n_vars).len() == p@.len(),
        projection is None ==> sampling_spec(projection, n_vars).len() == n_vars,
        projection is None ==> forall|k: int|
            0 <= k < n_vars ==> #[trigger] sampling_spec(projection, n_vars)[k] == k,
{
}

/// What the counter is handed samples exactly the projection where there is
/// one, and every variable otherwise.
pub proof fn lemma_solver_input_sampling(cnf: Cnf, projection: Option<&[Var]>, r: SolverInput)
    requires
        is_solver_input(cnf, projection, r),
    ensures
        r.projected == projection.is_some(),
        projection matches Some(p) ==> r.sampling_vars@ == p@.map_values(|v: Var| var_index(v)),
        projection is None ==> r.sampling_vars@.len() == r.n_vars && forall|k: int|
            0 <= k < r.n_vars ==> #[trigger] r.sampling_vars@[k] == k,
{
    lemma_sampling_meaning(projection, r.n_vars);
}

/// Some clause or the projection mentions a variable with index at least `n`.
pub open spec fn mentions_at_least(lits: Seq<Seq<(u32, bool)>>, proj: Seq<u32>, n: nat) -> bool {
    ||| exists|i: int, j: int|
        0 <= i < lits.len() && 0 <= j < lits[i].len() && #[trigger] lits[i][j].0 >= n
    ||| exists|k: int| 0 <= k < proj.len() && #[trigger] proj[k] >= n
}

/// The variable count is the least bound on the variables mentioned: every
/// mentioned index is below it, and any smaller count leaves a mentioned
/// index out.
pub proof fn lemma_variable_count_least(lits: Seq<Seq<(u32, bool)>>, proj: Seq<u32>, n: nat)
    requires
        is_variable_count(lits, proj, n),
    ensures
        forall|i: int, j: int|
            0 <= i < lits.len() && 0 <= j < lits[i].len() ==> #[trigger] lits[i][j].0 < n,
        forall|k: int| 0 <= k < proj.len() ==> #[trigger] proj[k] < n,
        forall|n2: nat| n2 < n ==> #[trigger] mentions_at_least(lits, proj, n2),
{
    assert forall|n2: nat| n2 < n implies #[trigger] mentions_at_least(lits, proj, n2) by {
        assert(mentions(lits, proj, n - 1));
        if exists|k: int| 0 <= k < proj.len() && #[trigger] proj[k] == n - 1 {
            let k = choose|k: int| 0 <= k < proj.len() && #[trigger] proj[k] == n - 1;
            assert(proj[k] >= n2);
        } else {
            let (i, j) = choose|i: int, j: int|
                0 <= i < lits.len() && 0 <= j < lits[i].len() && #[trigger] lits[i][j].0 == n - 1;
            assert(lits[i][j].0 >= n2);
        }
    }
}

} // verus!
