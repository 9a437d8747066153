# halo2_learning

Small Plonkish circuits over the Pallas base field, written and proved in
Verus.

- `src/field.rs`: field elements; addition, subtraction, multiplication,
  equality and decimal parsing come from `pasta_curves` through trusted
  wrappers whose contracts state the field operation.
- `src/plonk.rs`, `src/mock_prover.rs`: a constraint system (columns,
  selectors, custom gates, lookups, equality columns) and the grid that a
  circuit's synthesis fills in; `MockProver::verify` is proved to decide
  whether the grid satisfies every gate, lookup and copy constraint, and to
  accept only grids whose range-checked cells lie below their ranges;
  `MockProver::failures` lists every gate, lookup and copy constraint that
  fails, with its row.
- `src/fibonacci.rs`: a Fibonacci circuit on one advice column, its custom
  gate enabled at the first row and on every row with two rows of the
  sequence below it. Its run is proved satisfied exactly when it has at least
  three rows and the exposed output is the expected element of the sequence,
  and the circuit is proved sound: any witness that
  satisfies it holds the sequence, so the exposed output is its last element.
- `src/range_check.rs`, `src/range_check_bits.rs`: range checks by a product
  gate, by a lookup table, and by a table of values beside their bit lengths.
- `src/context.rs`, `src/fibonacci_context.rs`: a single-column circuit built
  cell by cell under the vertical gate `q * (a + b * c - d) = 0`, and the
  Fibonacci computation laid out in it; the two Fibonacci circuits are
  proved to accept the same outputs.
- `tests/halo2_agreement.rs`: the same circuits written against
  `halo2_proofs` and run by its own `MockProver`, which must agree with
  `MockProver::verify`.
- `app/main.rs`: a command-line runner that reads the Fibonacci input from a
  JSON file and the step from `FIBONACCI_NUMBER`.
