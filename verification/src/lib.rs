//! Plonkish circuits over the Pallas base field, and a mock prover that
//! decides whether a circuit's witness satisfies its constraints.
//!
//! - `field`: field elements, with arithmetic from `pasta_curves`.
//! - `plonk`: the constraint system a circuit configures.
//! - `mock_prover`: the grid a circuit's synthesis fills in, and its check.
//! - `fibonacci`: a Fibonacci circuit whose last element is a public input.
//! - `range_check`: range checks by a product gate and by a lookup table.
//! - `range_check_bits`: a range check that also fixes a value's bit length.
//! - `context`: a single-column circuit built cell by cell under one
//!   vertical gate, and the chip that lays out additions in it.
//! - `fibonacci_context`: the Fibonacci computation written in a context.
pub mod context;
pub mod fibonacci;
pub mod fibonacci_context;
pub mod field;
pub mod mock_prover;
pub mod plonk;
pub mod range_check;
pub mod range_check_bits;
