# rustsat_mc

PAC model counting for `rustsat` CNF formulas with the native ApproxMC
counter. The library under `src/` is verified with Verus:

- `formula`: what the counter is handed for a formula: the variable count
  (one more than the largest index mentioned), each clause as 1-based signed
  IPASIR literals, and the sampling set (the projection, or every variable).
- `session`: the protocol of one count as a state machine from event to
  action: allocate, configure, declare variables, add each clause in order,
  set the sampling set, count, finish.
- `estimate`: the point estimate `cell_sol_count · 2^hash_count` and its
  interval `[count / (1 + ε), count · (1 + ε)]` in fixed point, with proofs
  that the interval holds the estimate and every count the PAC guarantee
  admits.
- `text`: `m.mm × 10^e` rendering; interval ends are the exact values
  `count / (1 + ε)` and `count · (1 + ε)` truncated to three significant
  digits, with a proof that this truncation is unique.
- `bignum`: the `num_bigint` operations used, stated over their values.

`app/` drives the native counter through its C ABI, holds the
floating-point configuration (tolerance, confidence, seed) and its
validation, and implements `Display` and `std::error::Error`.
