//! The circuits of this crate, written again against `halo2_proofs` itself
//! and run by its `MockProver`: both checkers must accept the same public
//! inputs and witnesses.
use halo2_learning::fibonacci::FibonacciCircuit;
use halo2_learning::field::Felt;
use halo2_learning::mock_prover::MockProver;
use halo2_learning::plonk::ConstraintSystem;
use halo2_learning::range_check::RangeCheckConfig;
use halo2_learning::range_check_bits;
use halo2_proofs::circuit::floor_planner::V1;
use halo2_proofs::circuit::{Layouter, Value};
use halo2_proofs::dev::MockProver as Halo2MockProver;
use halo2_proofs::pasta::Fp;
use halo2_proofs::plonk::{
    Advice, Circuit, Column, ConstraintSystem as Halo2ConstraintSystem, Constraints, Error,
    Expression, Instance, Selector, TableColumn,
};
use halo2_proofs::poly::Rotation;

#[derive(Clone, Debug)]
struct FibConfig {
    advice: Column<Advice>,
    instance: Column<Instance>,
    selector: Selector,
}

/// The Fibonacci circuit with its custom gate at the first row and on every
/// row that has two rows of the sequence below it.
#[derive(Default)]
struct FibCircuit<const FIBONACCI_NUMBER: usize>;

impl<const FIBONACCI_NUMBER: usize> Circuit<Fp> for FibCircuit<FIBONACCI_NUMBER> {
    type Config = FibConfig;
    type FloorPlanner = V1;

    fn without_witnesses(&self) -> Self {
        Self::default()
    }

    fn configure(meta: &mut Halo2ConstraintSystem<Fp>) -> FibConfig {
        let advice = meta.advice_column();
        let instance = meta.instance_column();
        meta.enable_equality(advice);
        meta.enable_equality(instance);
        let selector = meta.selector();
        meta.create_gate("Fibonacci", |meta| {
            let a = meta.query_advice(advice, Rotation::cur());
            let b = meta.query_advice(advice, Rotation::next());
            let c = meta.query_advice(advice, Rotation(2));
            let s = meta.query_selector(selector);
            vec![s * (a + b - c)]
        });
        FibConfig { advice, instance, selector }
    }

    fn synthesize(&self, config: FibConfig, mut layouter: impl Layouter<Fp>) -> Result<(), Error> {
        let out = layouter.assign_region(
            || "Fibonacci Column",
            |mut region| {
                config.selector.enable(&mut region, 0)?;
                let mut a_cell = region.assign_advice_from_instance(
                    || "first",
                    config.instance,
                    0,
                    config.advice,
                    0,
                )?;
                let mut b_cell = region.assign_advice_from_instance(
                    || "second",
                    config.instance,
                    1,
                    config.advice,
                    1,
                )?;
                for row in 2..FIBONACCI_NUMBER {
                    let c_val = a_cell.value().and_then(|a| b_cell.value().map(|b| *a + *b));
                    let c_cell = region.assign_advice(|| "sum", config.advice, row, || c_val)?;
                    config.selector.enable(&mut region, row - 2)?;
                    a_cell = b_cell;
                    b_cell = c_cell;
                }
                Ok(b_cell)
            },
        )?;
        layouter.constrain_instance(out.cell(), config.instance, 2)
    }
}

/// The Fibonacci region as the learning repository's own code lays it out:
/// the custom gate at row 0, and from row 2 on at each row with two rows below it.
#[derive(Default)]
struct SkippingFibCircuit<const FIBONACCI_NUMBER: usize>;

impl<const FIBONACCI_NUMBER: usize> Circuit<Fp> for SkippingFibCircuit<FIBONACCI_NUMBER> {
    type Config = FibConfig;
    type FloorPlanner = V1;

    fn without_witnesses(&self) -> Self {
        Self::default()
    }

    fn configure(meta: &mut Halo2ConstraintSystem<Fp>) -> FibConfig {
        FibCircuit::<FIBONACCI_NUMBER>::configure(meta)
    }

    fn synthesize(&self, config: FibConfig, mut layouter: impl Layouter<Fp>) -> Result<(), Error> {
        let out = layouter.assign_region(
            || "Fibonacci Column",
            |mut region| {
                config.selector.enable(&mut region, 0)?;
                let mut a_cell = region.assign_advice_from_instance(
                    || "first",
                    config.instance,
                    0,
                    config.advice,
                    0,
                )?;
                let mut b_cell = region.assign_advice_from_instance(
                    || "second",
                    config.instance,
                    1,
                    config.advice,
                    1,
                )?;
                for row in 2..FIBONACCI_NUMBER {
                    if row < FIBONACCI_NUMBER - 2 {
                        config.selector.enable(&mut region, row)?;
                    }
                    let c_val = a_cell.value().and_then(|a| b_cell.value().map(|b| *a + *b));
                    let c_cell = region.assign_advice(|| "sum", config.advice, row, || c_val)?;
                    a_cell = b_cell;
                    b_cell = c_cell;
                }
                Ok(b_cell)
            },
        )?;
        layouter.constrain_instance(out.cell(), config.instance, 2)
    }
}

fn halo2_skipping_fibonacci<const FIBONACCI_NUMBER: usize>(public: &[u64]) -> Option<bool> {
    let instance: Vec<Fp> = public.iter().map(|x| Fp::from(*x)).collect();
    match Halo2MockProver::run(4, &SkippingFibCircuit::<FIBONACCI_NUMBER>, vec![instance]) {
        Ok(prover) => Some(prover.verify().is_ok()),
        Err(_) => None,
    }
}

fn halo2_fibonacci<const FIBONACCI_NUMBER: usize>(public: &[u64]) -> Option<bool> {
    let instance: Vec<Fp> = public.iter().map(|x| Fp::from(*x)).collect();
    match Halo2MockProver::run(4, &FibCircuit::<FIBONACCI_NUMBER>, vec![instance]) {
        Ok(prover) => Some(prover.verify().is_ok()),
        Err(_) => None,
    }
}

fn own_fibonacci(fibonacci_number: usize, public: &[u64]) -> Option<bool> {
    let instance: Vec<Felt> = public.iter().map(|x| Felt::from_u64(*x)).collect();
    match (FibonacciCircuit { fibonacci_number }).mock_run(4, vec![instance]) {
        Ok(prover) => Some(prover.verify()),
        Err(_) => None,
    }
}

#[test]
fn fibonacci_agrees_with_halo2_mock_prover() {
    for out in [1u64, 2, 3, 5, 8, 34, 55, 56, 89] {
        let public = [1u64, 1, out];
        assert_eq!(halo2_fibonacci::<2>(&public), own_fibonacci(2, &public));
        assert_eq!(halo2_fibonacci::<3>(&public), own_fibonacci(3, &public));
        assert_eq!(halo2_fibonacci::<5>(&public), own_fibonacci(5, &public));
        assert_eq!(halo2_fibonacci::<10>(&public), own_fibonacci(10, &public));
        assert_eq!(halo2_fibonacci::<11>(&public), own_fibonacci(11, &public));
    }
    assert_eq!(own_fibonacci(10, &[1, 1, 55]), Some(true));
    assert_eq!(own_fibonacci(10, &[1, 1, 56]), Some(false));
    assert_eq!(own_fibonacci(11, &[1, 1, 89]), None);
    let other = [2u64, 7, 25];
    assert_eq!(halo2_fibonacci::<5>(&other), own_fibonacci(5, &other));
    assert_eq!(own_fibonacci(5, &other), Some(true));
    let wrong = [2u64, 7, 43];
    assert_eq!(own_fibonacci(2, &[1, 1, 1]), Some(false));
    assert_eq!(halo2_fibonacci::<5>(&wrong), own_fibonacci(5, &wrong));
    assert_eq!(own_fibonacci(5, &wrong), Some(false));
}

#[derive(Clone, Debug)]
struct RangeConfig {
    value: Column<Advice>,
    q_range_check: Selector,
    q_lookup: Selector,
    table: TableColumn,
}

/// One value, checked below `RANGE` by the custom gate
/// `v * (1 - v) * ... * (RANGE - 1 - v)` when the claim is below `RANGE`,
/// and by a lookup in `0 .. LOOKUP_RANGE` otherwise.
struct RangeCircuit<const RANGE: usize, const LOOKUP_RANGE: usize> {
    value: u64,
    claimed: usize,
}

impl<const RANGE: usize, const LOOKUP_RANGE: usize> Circuit<Fp>
    for RangeCircuit<RANGE, LOOKUP_RANGE>
{
    type Config = RangeConfig;
    type FloorPlanner = V1;

    fn without_witnesses(&self) -> Self {
        Self { value: 0, claimed: self.claimed }
    }

    fn configure(meta: &mut Halo2ConstraintSystem<Fp>) -> RangeConfig {
        let value = meta.advice_column();
        let q_range_check = meta.selector();
        let q_lookup = meta.complex_selector();
        let table = meta.lookup_table_column();
        meta.create_gate("range check", |meta| {
            let q = meta.query_selector(q_range_check);
            let v = meta.query_advice(value, Rotation::cur());
            let poly = (1..RANGE).fold(v.clone(), |expr, i| {
                expr * (Expression::Constant(Fp::from(i as u64)) - v.clone())
            });
            Constraints::with_selector(q, [("range check", poly)])
        });
        meta.lookup(|meta| {
            let q = meta.query_selector(q_lookup);
            let v = meta.query_advice(value, Rotation::cur());
            vec![(q * v, table)]
        });
        RangeConfig { value, q_range_check, q_lookup, table }
    }

    fn synthesize(&self, config: RangeConfig, mut layouter: impl Layouter<Fp>) -> Result<(), Error> {
        layouter.assign_table(
            || "load range-check table",
            |mut table| {
                for i in 0..LOOKUP_RANGE {
                    table.assign_cell(|| "value", config.table, i, || {
                        Value::known(Fp::from(i as u64))
                    })?;
                }
                Ok(())
            },
        )?;
        layouter.assign_region(
            || "Assign value",
            |mut region| {
                if self.claimed < RANGE {
                    config.q_range_check.enable(&mut region, 0)?;
                } else {
                    config.q_lookup.enable(&mut region, 0)?;
                }
                region.assign_advice(|| "value", config.value, 0, || {
                    Value::known(Fp::from(self.value))
                })?;
                Ok(())
            },
        )
    }
}

fn halo2_range(value: u64, claimed: usize) -> bool {
    let circuit = RangeCircuit::<8, 256> { value, claimed };
    Halo2MockProver::run(9, &circuit, vec![]).unwrap().verify().is_ok()
}

fn own_range(value: u64, claimed: usize) -> bool {
    let mut cs = ConstraintSystem::new();
    let column = cs.advice_column();
    let config = RangeCheckConfig::configure(&mut cs, column, 8, 256);
    let mut prover = MockProver::new(9, cs, vec![]).unwrap();
    config.table.load(&mut prover).unwrap();
    config.assign(&mut prover, Felt::from_u64(value), claimed).unwrap();
    prover.verify()
}

#[test]
fn range_check_agrees_with_halo2_mock_prover() {
    for value in [0u64, 1, 5, 7, 8, 9, 100, 255, 256, 1000] {
        for claimed in [0usize, 7, 8, 256] {
            assert_eq!(halo2_range(value, claimed), own_range(value, claimed));
        }
    }
    assert!(own_range(7, 0));
    assert!(!own_range(8, 0));
    assert!(own_range(255, 8));
    assert!(!own_range(256, 8));
}

#[test]
fn fibonacci_honest_runs_agree_with_the_skipping_layout() {
    // On the witness synthesis writes, the layout that skips row 1 accepts
    // the same public inputs.
    for out in [1u64, 2, 3, 5, 8, 34, 55, 56, 89] {
        let public = [1u64, 1, out];
        assert_eq!(halo2_skipping_fibonacci::<2>(&public), own_fibonacci(2, &public));
        assert_eq!(halo2_skipping_fibonacci::<3>(&public), own_fibonacci(3, &public));
        assert_eq!(halo2_skipping_fibonacci::<4>(&public), own_fibonacci(4, &public));
        assert_eq!(halo2_skipping_fibonacci::<5>(&public), own_fibonacci(5, &public));
        assert_eq!(halo2_skipping_fibonacci::<10>(&public), own_fibonacci(10, &public));
        assert_eq!(halo2_skipping_fibonacci::<11>(&public), own_fibonacci(11, &public));
    }
}

#[derive(Clone, Debug)]
struct BitsConfig {
    value: Column<Advice>,
    num_bits: Column<Advice>,
    q_lookup: Selector,
    table_num_bits: TableColumn,
    table_value: TableColumn,
}

/// One value beside its claimed bit length, looked up in the table of
/// `(bit length, value)` for the values below `2^NUM_BITS` (0 counting as a
/// 1-bit value); rows without the lookup look up `(1, 0)`.
struct BitsCircuit<const NUM_BITS: usize> {
    value: u64,
    num_bits: u8,
}

fn bit_length(v: u64) -> u64 {
    if v == 0 {
        1
    } else {
        64 - u64::from(v.leading_zeros())
    }
}

impl<const NUM_BITS: usize> Circuit<Fp> for BitsCircuit<NUM_BITS> {
    type Config = BitsConfig;
    type FloorPlanner = V1;

    fn without_witnesses(&self) -> Self {
        Self { value: 0, num_bits: 1 }
    }

    fn configure(meta: &mut Halo2ConstraintSystem<Fp>) -> BitsConfig {
        let value = meta.advice_column();
        let num_bits = meta.advice_column();
        let _q_range_check = meta.selector();
        let q_lookup = meta.complex_selector();
        let table_num_bits = meta.lookup_table_column();
        let table_value = meta.lookup_table_column();
        meta.lookup(|meta| {
            let q = meta.query_selector(q_lookup);
            let nb = meta.query_advice(num_bits, Rotation::cur());
            let v = meta.query_advice(value, Rotation::cur());
            let not_q = Expression::Constant(Fp::one()) - q.clone();
            let nb_expr = q.clone() * nb + not_q.clone() * Expression::Constant(Fp::one());
            let v_expr = q * v + not_q * Expression::Constant(Fp::zero());
            vec![(nb_expr, table_num_bits), (v_expr, table_value)]
        });
        BitsConfig { value, num_bits, q_lookup, table_num_bits, table_value }
    }

    fn synthesize(&self, config: BitsConfig, mut layouter: impl Layouter<Fp>) -> Result<(), Error> {
        layouter.assign_table(
            || "load bit-length table",
            |mut table| {
                for v in 0..(1u64 << NUM_BITS) {
                    let row = v as usize;
                    table.assign_cell(|| "num_bits", config.table_num_bits, row, || {
                        Value::known(Fp::from(bit_length(v)))
                    })?;
                    table.assign_cell(|| "value", config.table_value, row, || {
                        Value::known(Fp::from(v))
                    })?;
                }
                Ok(())
            },
        )?;
        layouter.assign_region(
            || "assign value for lookup range check",
            |mut region| {
                config.q_lookup.enable(&mut region, 0)?;
                region.assign_advice(|| "num_bits", config.num_bits, 0, || {
                    Value::known(Fp::from(u64::from(self.num_bits)))
                })?;
                region.assign_advice(|| "value", config.value, 0, || {
                    Value::known(Fp::from(self.value))
                })?;
                Ok(())
            },
        )
    }
}

fn halo2_bits(value: u64, num_bits: u8) -> bool {
    let circuit = BitsCircuit::<8> { value, num_bits };
    Halo2MockProver::run(9, &circuit, vec![]).unwrap().verify().is_ok()
}

fn own_bits(value: u64, num_bits: u8) -> bool {
    let circuit = range_check_bits::RangeCheckCircuit {
        value: Felt::from_u64(value),
        num_bits,
        max_bits: 8,
    };
    circuit.mock_run(9).unwrap().verify()
}

#[test]
fn bit_length_check_agrees_with_halo2_mock_prover() {
    for value in [0u64, 1, 2, 3, 5, 100, 127, 128, 255, 256, 1000] {
        for num_bits in [0u8, 1, 2, 3, 7, 8, 9] {
            assert_eq!(halo2_bits(value, num_bits), own_bits(value, num_bits));
        }
    }
    assert!(own_bits(0, 1));
    assert!(own_bits(5, 3));
    assert!(!own_bits(5, 2));
    assert!(!own_bits(256, 9));
}
