use halo2_learning::field::Felt;
use halo2_learning::fibonacci::{FibonacciCircuit, FibonacciConfig};
use halo2_learning::mock_prover::{Failure, MockProver};
use halo2_learning::plonk::{CellRef, Column, ColumnKind, ConstraintSystem, Error};
use halo2_learning::range_check;
use halo2_learning::range_check_bits;

#[test]
fn test_fibonacci() {
    let k = 4;

    let a = Felt::from_u64(1);
    let b = Felt::from_u64(1);
    let out = Felt::from_u64(55);

    const FIBONACCI_NUMBER: usize = 10;

    let circuit = FibonacciCircuit { fibonacci_number: FIBONACCI_NUMBER };

    let public_input = vec![a, b, out];

    let prover = circuit.mock_run(k, vec![public_input]).unwrap();

    assert!(prover.verify());
}

#[test]
fn test_range_check_1() {
    let k = 9;
    const RANGE: usize = 8; // 3-bit value
    const LOOKUP_RANGE: usize = 256; // 8-bit value

    // Successful cases
    for i in 0..RANGE {
        let circuit = range_check::RangeCheckCircuit {
            value: Felt::from_u64(i as u64),
            large_value: Felt::from_u64(i as u64),
            range: RANGE,
            lookup_range: LOOKUP_RANGE,
        };

        let prover = circuit.mock_run(k).unwrap();
        assert!(prover.verify());
    }
}

#[test]
fn test_range_check_3() {
    let k = 9;
    const NUM_BITS: usize = 8; // 8-bit value
    const RANGE: usize = 256; // 8-bit value
    assert_eq!(RANGE, 1 << NUM_BITS);

    for numbits in 1u8..=NUM_BITS.try_into().unwrap() {
        for value in (1u64 << (numbits - 1))..(1u64 << numbits) {
            let circuit = range_check_bits::RangeCheckCircuit {
                value: Felt::from_u64(value),
                num_bits: numbits,
                max_bits: NUM_BITS,
            };

            let prover = circuit.mock_run(k).unwrap();
            assert!(prover.verify());
        }
    }
}

#[test]
fn fibonacci_wrong_output_is_rejected() {
    let circuit = FibonacciCircuit { fibonacci_number: 10 };
    let public_input = vec![Felt::from_u64(1), Felt::from_u64(1), Felt::from_u64(56)];
    let prover = circuit.mock_run(4, vec![public_input]).unwrap();
    assert!(!prover.verify());
}

#[test]
fn fibonacci_other_start_values() {
    // 2, 3, 5, 8, 13, 21
    let circuit = FibonacciCircuit { fibonacci_number: 6 };
    let public_input = vec![Felt::from_u64(2), Felt::from_u64(3), Felt::from_u64(21)];
    let prover = circuit.mock_run(4, vec![public_input]).unwrap();
    assert!(prover.verify());
}

#[test]
fn fibonacci_too_short_region_is_rejected() {
    // With fewer than three rows the custom gate enabled at row 0 reads an unassigned cell.
    let circuit = FibonacciCircuit { fibonacci_number: 2 };
    let public_input = vec![Felt::from_u64(1), Felt::from_u64(1), Felt::from_u64(1)];
    let prover = circuit.mock_run(4, vec![public_input]).unwrap();
    let enabled: Vec<usize> = (0..16).filter(|r| prover.selectors[0][*r]).collect();
    assert_eq!(enabled, vec![0]);
    assert!(!prover.verify());
    assert_eq!(prover.failures(), vec![Failure::Constraint { gate: 0, row: 0 }]);
    let prover = FibonacciCircuit { fibonacci_number: 1 }
        .mock_run(4, vec![vec![Felt::from_u64(4), Felt::from_u64(9), Felt::from_u64(9)]])
        .unwrap();
    assert!(!prover.verify());
}

#[test]
fn fibonacci_three_rows_enable_one_gate() {
    let circuit = FibonacciCircuit { fibonacci_number: 3 };
    let public_input = vec![Felt::from_u64(1), Felt::from_u64(1), Felt::from_u64(2)];
    let prover = circuit.mock_run(4, vec![public_input]).unwrap();
    let enabled: Vec<usize> = (0..16).filter(|r| prover.selectors[0][*r]).collect();
    assert_eq!(enabled, vec![0]);
    assert!(prover.verify());
}

#[test]
fn fibonacci_gate_ties_every_element() {
    // Changing the fourth element breaks the custom gate at row 1.
    let circuit = FibonacciCircuit { fibonacci_number: 10 };
    let public_input = vec![Felt::from_u64(1), Felt::from_u64(1), Felt::from_u64(55)];
    let mut prover = circuit.mock_run(4, vec![public_input]).unwrap();
    prover.advice[0][3] = Some(Felt::from_u64(4));
    assert!(!prover.verify());
}

#[test]
fn fibonacci_errors() {
    let circuit = FibonacciCircuit { fibonacci_number: 10 };
    let input = || vec![vec![Felt::from_u64(1), Felt::from_u64(1), Felt::from_u64(55)]];
    // 2^2 rows are fewer than the minimum.
    assert!(matches!(
        circuit.mock_run(2, input()),
        Err(Error::NotEnoughRowsAvailable { current_k: 2 })
    ));
    // 2^3 rows leave two usable rows: three public values do not fit, and
    // with two the region does not.
    assert!(matches!(circuit.mock_run(3, input()), Err(Error::InstanceTooLarge)));
    let two = vec![vec![Felt::from_u64(1), Felt::from_u64(1)]];
    assert!(matches!(
        circuit.mock_run(3, two),
        Err(Error::NotEnoughRowsAvailable { current_k: 3 })
    ));
    // A region of eleven rows does not fit in the ten usable rows of 2^4.
    let long = FibonacciCircuit { fibonacci_number: 11 };
    assert!(matches!(
        long.mock_run(4, input()),
        Err(Error::NotEnoughRowsAvailable { current_k: 4 })
    ));
    assert!(matches!(circuit.mock_run(4, vec![]), Err(Error::InvalidInstances)));
    let too_many: Vec<Felt> = (0..11).map(Felt::from_u64).collect();
    assert!(matches!(circuit.mock_run(4, vec![too_many]), Err(Error::InstanceTooLarge)));
}

#[test]
fn fibonacci_grid_contents() {
    let circuit = FibonacciCircuit { fibonacci_number: 10 };
    let public_input = vec![Felt::from_u64(1), Felt::from_u64(1), Felt::from_u64(55)];
    let prover = circuit.mock_run(4, vec![public_input]).unwrap();
    assert_eq!(prover.n, 16);
    assert_eq!(prover.usable_rows, 10);
    let expected = [1u64, 1, 2, 3, 5, 8, 13, 21, 34, 55];
    for (row, v) in expected.iter().enumerate() {
        assert!(prover.advice[0][row].unwrap().equals(&Felt::from_u64(*v)));
    }
    let enabled: Vec<usize> = (0..16).filter(|r| prover.selectors[0][*r]).collect();
    assert_eq!(enabled, vec![0, 1, 2, 3, 4, 5, 6, 7]);
    assert_eq!(prover.copies.len(), 3);
}

#[test]
fn expose_public_needs_usable_row() {
    let mut cs = ConstraintSystem::new();
    let config = FibonacciConfig::configure(&mut cs, 5);
    let instance = vec![vec![Felt::from_u64(1), Felt::from_u64(1), Felt::from_u64(5)]];
    let mut prover = MockProver::new(4, cs, instance).unwrap();
    let cell = config.assign(&mut prover).unwrap();
    assert_eq!(cell.cell.row, 4);
    assert!(cell.value.equals(&Felt::from_u64(5)));
    assert!(matches!(
        config.expose_public(&mut prover, cell, 10),
        Err(Error::NotEnoughRowsAvailable { current_k: 4 })
    ));
    assert!(config.expose_public(&mut prover, cell, 2).is_ok());
    assert!(prover.verify());
}

#[test]
fn copy_needs_equality_enabled_columns() {
    let mut cs = ConstraintSystem::new();
    let advice = cs.advice_column();
    let instance = cs.instance_column();
    cs.enable_equality(instance);
    let mut prover = MockProver::new(4, cs, vec![vec![Felt::from_u64(7)]]).unwrap();
    let left = CellRef { column: advice, row: 0 };
    let right = CellRef { column: instance, row: 0 };
    assert!(matches!(
        prover.copy(left, right),
        Err(Error::ColumnNotInPermutation(Column { kind: ColumnKind::Advice, index: 0 }))
    ));
}

#[test]
fn range_check_lookup_rejects_values_out_of_range() {
    let circuit = range_check::RangeCheckCircuit {
        value: Felt::from_u64(255),
        large_value: Felt::from_u64(256),
        range: 8,
        lookup_range: 256,
    };
    let prover = circuit.mock_run(9).unwrap();
    assert!(!prover.verify());
    let circuit = range_check::RangeCheckCircuit {
        value: Felt::from_u64(255),
        large_value: Felt::from_u64(200),
        range: 8,
        lookup_range: 256,
    };
    assert!(circuit.mock_run(9).unwrap().verify());
}

#[test]
fn range_check_table_errors() {
    let circuit = range_check::RangeCheckCircuit {
        value: Felt::from_u64(1),
        large_value: Felt::from_u64(1),
        range: 0,
        lookup_range: 0,
    };
    assert!(matches!(circuit.mock_run(9), Err(Error::Synthesis)));
    // A table of 256 rows needs more than the 250 usable rows of 2^8.
    let circuit = range_check::RangeCheckCircuit {
        value: Felt::from_u64(1),
        large_value: Felt::from_u64(1),
        range: 8,
        lookup_range: 256,
    };
    assert!(matches!(
        circuit.mock_run(8),
        Err(Error::NotEnoughRowsAvailable { current_k: 8 })
    ));
}

/// Builds the range-check grid by hand and assigns `v` claiming `claimed`.
fn range_gate_grid(v: u64, claimed: usize) -> MockProver {
    let mut cs = ConstraintSystem::new();
    let value = cs.advice_column();
    let config = range_check::RangeCheckConfig::configure(&mut cs, value, 8, 256);
    let mut prover = MockProver::new(9, cs, vec![]).unwrap();
    config.table.load(&mut prover).unwrap();
    config.assign(&mut prover, Felt::from_u64(v), claimed).unwrap();
    prover
}

#[test]
fn range_check_gate_accepts_values_below_range() {
    for v in 0..8 {
        assert!(range_gate_grid(v, 0).verify());
    }
}

#[test]
fn range_check_gate_rejects_values_from_range_on() {
    for v in [8u64, 9, 100, 255] {
        assert!(!range_gate_grid(v, 7).verify());
    }
}

#[test]
fn range_check_table_loads_once() {
    let mut cs = ConstraintSystem::new();
    let value = cs.advice_column();
    let config = range_check::RangeCheckConfig::configure(&mut cs, value, 8, 16);
    let mut prover = MockProver::new(6, cs, vec![]).unwrap();
    assert!(config.table.load(&mut prover).is_ok());
    assert!(matches!(config.table.load(&mut prover), Err(Error::Synthesis)));
    assert_eq!(prover.tables[0].len(), 16);
    assert!(prover.tables[0][15].equals(&Felt::from_u64(15)));
}

#[test]
fn range_check_bits_rejects_wrong_bit_count() {
    let wrong = range_check_bits::RangeCheckCircuit {
        value: Felt::from_u64(5),
        num_bits: 2,
        max_bits: 8,
    };
    assert!(!wrong.mock_run(9).unwrap().verify());
    let right = range_check_bits::RangeCheckCircuit {
        value: Felt::from_u64(5),
        num_bits: 3,
        max_bits: 8,
    };
    assert!(right.mock_run(9).unwrap().verify());
    let zero = range_check_bits::RangeCheckCircuit {
        value: Felt::from_u64(0),
        num_bits: 1,
        max_bits: 8,
    };
    assert!(zero.mock_run(9).unwrap().verify());
    let too_wide = range_check_bits::RangeCheckCircuit {
        value: Felt::from_u64(256),
        num_bits: 9,
        max_bits: 8,
    };
    assert!(!too_wide.mock_run(9).unwrap().verify());
}

#[test]
fn range_check_bits_table_must_fit() {
    let circuit = range_check_bits::RangeCheckCircuit {
        value: Felt::from_u64(5),
        num_bits: 3,
        max_bits: 8,
    };
    assert!(matches!(
        circuit.mock_run(8),
        Err(Error::NotEnoughRowsAvailable { current_k: 8 })
    ));
}

#[test]
fn range_check_bits_table_contents() {
    let mut cs = ConstraintSystem::new();
    let value = cs.advice_column();
    let num_bits = cs.advice_column();
    let config = range_check_bits::RangeCheckConfig::configure(&mut cs, value, num_bits, 3);
    let mut prover = MockProver::new(5, cs, vec![]).unwrap();
    config.table.load(&mut prover).unwrap();
    let expected_bits = [1u64, 1, 2, 2, 3, 3, 3, 3];
    assert_eq!(prover.tables[0].len(), 8);
    for j in 0..8 {
        assert!(prover.tables[0][j].equals(&Felt::from_u64(expected_bits[j])));
        assert!(prover.tables[1][j].equals(&Felt::from_u64(j as u64)));
    }
}

#[test]
fn failures_name_their_places() {
    let circuit = FibonacciCircuit { fibonacci_number: 10 };
    let right = vec![Felt::from_u64(1), Felt::from_u64(1), Felt::from_u64(55)];
    assert!(circuit.mock_run(4, vec![right.clone()]).unwrap().failures().is_empty());
    let wrong = vec![Felt::from_u64(1), Felt::from_u64(1), Felt::from_u64(56)];
    let prover = circuit.mock_run(4, vec![wrong]).unwrap();
    assert_eq!(prover.failures(), vec![Failure::Permutation { copy: 2 }]);
    // Changing the fourth element breaks the custom gate where it is a sum (row 1)
    // and where it is a summand (rows 2 and 3).
    let mut prover = circuit.mock_run(4, vec![right]).unwrap();
    prover.advice[0][3] = Some(Felt::from_u64(4));
    assert_eq!(
        prover.failures(),
        vec![
            Failure::Constraint { gate: 0, row: 1 },
            Failure::Constraint { gate: 0, row: 2 },
            Failure::Constraint { gate: 0, row: 3 },
        ]
    );
    assert_eq!(range_gate_grid(8, 0).failures(), vec![Failure::Constraint { gate: 0, row: 0 }]);
    assert_eq!(range_gate_grid(300, 8).failures(), vec![Failure::Lookup { lookup: 0, row: 0 }]);
    assert!(range_gate_grid(255, 8).failures().is_empty());
}

#[test]
fn fibonacci_layout_does_not_depend_on_inputs() {
    let circuit = FibonacciCircuit { fibonacci_number: 7 };
    let p1 = circuit
        .mock_run(4, vec![vec![Felt::from_u64(1), Felt::from_u64(1), Felt::from_u64(13)]])
        .unwrap();
    let p2 = circuit
        .mock_run(4, vec![vec![Felt::from_u64(2), Felt::from_u64(7), Felt::from_u64(3)]])
        .unwrap();
    assert_eq!(p1.selectors, p2.selectors);
    assert_eq!(p1.copies, p2.copies);
    assert_eq!(p1.next_row, p2.next_row);
    for r in 0..16 {
        assert_eq!(p1.advice[0][r].is_some(), p2.advice[0][r].is_some());
    }
    assert!(p1.verify());
    assert!(!p2.verify());
}

#[test]
fn fibonacci_configure_is_deterministic() {
    let mut m1 = ConstraintSystem::new();
    let mut m2 = ConstraintSystem::new();
    let c1 = FibonacciConfig::configure(&mut m1, 10);
    let c2 = FibonacciConfig::configure(&mut m2, 10);
    assert_eq!(c1.advice, c2.advice);
    assert_eq!(c1.instance, c2.instance);
    assert_eq!(c1.selector, c2.selector);
    assert_eq!(m1.num_advice, m2.num_advice);
    assert_eq!(m1.num_instance, m2.num_instance);
    assert_eq!(m1.num_selectors, m2.num_selectors);
    assert_eq!(m1.equality, m2.equality);
    assert_eq!(m1.gates, m2.gates);
    assert_eq!(m1.lookups, m2.lookups);
}

#[test]
fn fibonacci_assign_stops_where_rows_run_out() {
    let mut cs = ConstraintSystem::new();
    let config = FibonacciConfig::configure(&mut cs, 10);
    let public_input = vec![Felt::from_u64(1), Felt::from_u64(1), Felt::from_u64(55)];
    let mut prover = MockProver::new(4, cs, vec![public_input]).unwrap();
    // Start the region three rows before the end of the ten usable rows.
    prover.next_row = 7;
    assert!(matches!(
        config.assign(&mut prover),
        Err(Error::NotEnoughRowsAvailable { current_k: 4 })
    ));
    assert_eq!(prover.next_row, 7);
    let assigned: Vec<usize> = (0..16).filter(|r| prover.advice[0][*r].is_some()).collect();
    assert_eq!(assigned, vec![7, 8, 9]);
    assert!(prover.advice[0][9].unwrap().equals(&Felt::from_u64(2)));
    let enabled: Vec<usize> = (0..16).filter(|r| prover.selectors[0][*r]).collect();
    assert_eq!(enabled, vec![7]);
    assert_eq!(prover.copies.len(), 2);
    // With one row left only the first public input is copied in.
    let mut cs = ConstraintSystem::new();
    let config = FibonacciConfig::configure(&mut cs, 10);
    let public_input = vec![Felt::from_u64(1), Felt::from_u64(1), Felt::from_u64(55)];
    let mut prover = MockProver::new(4, cs, vec![public_input]).unwrap();
    prover.next_row = 9;
    assert!(config.assign(&mut prover).is_err());
    let assigned: Vec<usize> = (0..16).filter(|r| prover.advice[0][*r].is_some()).collect();
    assert_eq!(assigned, vec![9]);
    assert_eq!(prover.copies.len(), 1);
    let enabled: Vec<usize> = (0..16).filter(|r| prover.selectors[0][*r]).collect();
    assert_eq!(enabled, vec![9]);
}

#[test]
fn blinding_rows_follow_the_queries() {
    assert_eq!(ConstraintSystem::new().blinding_factors(), 5);
    let mut cs = ConstraintSystem::new();
    FibonacciConfig::configure(&mut cs, 10);
    assert_eq!(cs.blinding_factors(), 5);
    let mut cs = ConstraintSystem::new();
    let value = cs.advice_column();
    range_check::RangeCheckConfig::configure(&mut cs, value, 8, 256);
    assert_eq!(cs.blinding_factors(), 5);
    // 2^4 rows keep 5 blinding rows and one more, leaving 10 usable.
    let prover = MockProver::new(4, cs, vec![]).unwrap();
    assert_eq!(prover.usable_rows, 10);
}

#[test]
fn range_gate_on_any_grid() {
    let prover = range_gate_grid(5, 0);
    let gate = prover.cs.gates[0];
    assert!(prover.check_gate(gate, 0));
    // Where the selector is off the range-check gate asks nothing.
    assert!(prover.check_gate(gate, 1));
    let prover = range_gate_grid(9, 0);
    assert!(!prover.check_gate(gate, 0));
    assert!(MockProver::eval_range_poly(&Felt::from_u64(3), 8).equals(&Felt::zero()));
    // 9 * (1 - 9) * (2 - 9) = 504.
    assert!(MockProver::eval_range_poly(&Felt::from_u64(9), 3).equals(&Felt::from_u64(504)));
    assert!(MockProver::eval_range_poly(&Felt::from_u64(0), 1).equals(&Felt::zero()));
}

#[test]
fn gate_values_pass_the_lookup() {
    for v in 0..8 {
        assert!(range_gate_grid(v, 0).verify());
        assert!(range_gate_grid(v, 8).verify());
    }
}
