//! A Fibonacci circuit on one advice column.
//!
//! The first two public inputs are copied into rows 0 and 1, each further
//! row holds the sum of the two rows above it, and the cell of row
//! `fibonacci_number - 1` is exposed as the third public input. The custom gate
//! `s * (a + b - c)` is enabled at the region's first row and on every row
//! that has two rows below it in the region, so each element is tied to the
//! two before it (a region of fewer than three rows leaves the custom gate at row 0
//! reading an empty row, and the circuit unsatisfied):
//!
//! ```text
//!     |  advice  |  s  |
//!     |    1     |  1  |
//!     |    1     |  1  |
//!     |    2     |  1  |
//!     |   ...    | ... |
//!     |   34     |     |
//!     |   55     |     |
//! ```
use crate::field::{fadd, fsub, modulus, Felt};
use crate::mock_prover::{
    copy_error,
    opt_value,
    padded,
    setup_error,
    usable_rows_for,
    AssignedCell,
    MockProver,
};
use crate::plonk::{CellRef, Column, ColumnKind, ConstraintSystem, Error, Gate};
use vstd::prelude::*;

verus! {

/// The sequence in the field that starts `a, b` and continues with the sum
/// of the two elements before.
pub open spec fn fib(a: nat, b: nat, i: nat) -> nat
    decreases i,
{
    if i == 0 {
        a
    } else if i == 1 {
        b
    } else {
        fadd(fib(a, b, (i - 2) as nat), fib(a, b, (i - 1) as nat))
    }
}

/// The rows the Fibonacci region takes: rows 0 and 1 always, and one row
/// for each further element up to `fibonacci_number`.
pub open spec fn region_height(fibonacci_number: nat) -> nat {
    if fibonacci_number < 2 {
        2
    } else {
        fibonacci_number
    }
}

/// Whether the region enables its gate at offset `i`: always at offset 0,
/// and at every further offset with two more rows of the sequence below it,
/// so at offsets `0 ..= fibonacci_number - 3` when there are three rows or
/// more. With fewer, the custom gate at offset 0 reads a row the region never
/// writes, and the circuit is not satisfied.
pub open spec fn gate_enabled_at(fibonacci_number: nat, i: int) -> bool {
    i == 0 || (0 <= i && i + 2 < fibonacci_number)
}

/// The columns and selector of the Fibonacci circuit.
#[derive(Clone, Copy, Debug)]
pub struct FibonacciConfig {
    pub advice: Column,
    pub instance: Column,
    pub selector: usize,
    pub fibonacci_number: usize,
}

impl FibonacciConfig {
    /// The configuration's columns and selector are declared in `cs`, and
    /// both columns are enabled for equality.
    pub open spec fn wf_in(&self, cs: &ConstraintSystem) -> bool {
        &&& self.advice.kind == ColumnKind::Advice
        &&& self.advice.index < cs.num_advice
        &&& self.instance.kind == ColumnKind::Instance
        &&& self.instance.index < cs.num_instance
        &&& self.selector < cs.num_selectors
        &&& cs.equality_enabled(self.advice)
        &&& cs.equality_enabled(self.instance)
    }

    /// The two copy constraints that tie the region starting at row `s0` to
    /// the first two public inputs.
    pub open spec fn start_copies(&self, s0: int) -> Seq<(CellRef, CellRef)> {
        seq![
            (
                CellRef { column: self.advice, row: s0 as usize },
                CellRef { column: self.instance, row: 0 },
            ),
            (
                CellRef { column: self.advice, row: (s0 + 1) as usize },
                CellRef { column: self.instance, row: 1 },
            ),
        ]
    }

    /// Whether `assign` has enabled the custom gate at offset `i` once the first `m`
    /// rows of the region are written: offset 0 from the start, and each
    /// further offset `i` that `gate_enabled_at` names once row `i + 2` is
    /// written.
    pub open spec fn gate_written(&self, i: int, m: int) -> bool {
        &&& gate_enabled_at(self.fibonacci_number as nat, i)
        &&& if i == 0 {
            0 < m
        } else {
            i + 2 < m
        }
    }

    /// The cells and selectors of the first `m` rows of the region starting
    /// at `old`'s next free row, as grid `new` holds them: those rows of the
    /// advice column hold the sequence that starts with the first two public
    /// inputs, the custom gate is enabled at the offsets `gate_written`
    /// names, and every other cell and selector is as in `old`.
    pub open spec fn region_rows(&self, old: &MockProver, new: &MockProver, m: int) -> bool {
        let s0 = old.next_row as int;
        let a = old.instance_at(self.instance.index as int, 0);
        let b = old.instance_at(self.instance.index as int, 1);
        &&& forall|c: int, r: int|
            0 <= c < new.advice@.len() && 0 <= r < new.n ==> opt_value(
                #[trigger] new.advice_at(c, r),
            ) == if c == self.advice.index && s0 <= r < s0 + m {
                Some(fib(a, b, (r - s0) as nat))
            } else {
                opt_value(old.advice_at(c, r))
            }
        &&& forall|s: int, r: int|
            0 <= s < new.selectors@.len() && 0 <= r < new.n ==> #[trigger] new.selector_at(s, r) == (
            old.selector_at(s, r) || (s == self.selector && s0 <= r && self.gate_written(r - s0, m)))
    }

    /// What `assign` has done to grid `new`, started from grid `old`, once
    /// the first `m` rows of the region are written: `region_rows`, and the
    /// copy constraints of the public inputs whose rows are among them.
    pub open spec fn filled(&self, old: &MockProver, new: &MockProver, m: int) -> bool {
        &&& self.region_rows(old, new, m)
        &&& new.copies@ == old.copies@ + self.start_copies(old.next_row as int).take(
            if m < 2 {
                m
            } else {
                2
            },
        )
    }

    /// What `assign` leaves in grid `new`, started from grid `old`: the whole
    /// region filled, its last cell returned, and the next free row moved
    /// past it.
    pub open spec fn assigned(&self, old: &MockProver, new: &MockProver, cell: AssignedCell) -> bool {
        let s0 = old.next_row as int;
        let h = region_height(self.fibonacci_number as nat);
        let a = old.instance_at(self.instance.index as int, 0);
        let b = old.instance_at(self.instance.index as int, 1);
        &&& self.filled(old, new, h as int)
        &&& cell.cell == (CellRef { column: self.advice, row: (s0 + h - 1) as usize })
        &&& cell.value@ == fib(a, b, (h - 1) as nat)
        &&& new.next_row == s0 + h
    }

    /// What `configure` makes of constraint system `old`: the configuration
    /// names a new advice column, a new instance column and a new selector,
    /// `new` declares them, enables both columns for equality, and adds the
    /// custom gate `s * (a + b - c)` on the advice column; nothing else changes.
    pub open spec fn configured(
        &self,
        old: &ConstraintSystem,
        new: &ConstraintSystem,
        fibonacci_number: usize,
    ) -> bool {
        &&& self.advice == (Column { kind: ColumnKind::Advice, index: old.num_advice })
        &&& self.instance == (Column { kind: ColumnKind::Instance, index: old.num_instance })
        &&& self.selector == old.num_selectors
        &&& self.fibonacci_number == fibonacci_number
        &&& new.num_advice == old.num_advice + 1
        &&& new.num_instance == old.num_instance + 1
        &&& new.num_selectors == old.num_selectors + 1
        &&& new.num_tables == old.num_tables
        &&& new.equality@ == old.equality@.push(self.advice).push(self.instance)
        &&& new.gates@ == old.gates@.push(
            Gate::AddNext { selector: self.selector, advice: self.advice.index },
        )
        &&& new.lookups@ == old.lookups@
    }

    /// Declares the circuit's advice column, instance column (both enabled
    /// for equality) and selector, and the custom gate `s * (a + b - c)` on the
    /// advice column at rotations 0, 1 and 2.
    pub fn configure(meta: &mut ConstraintSystem, fibonacci_number: usize) -> (config: Self)
        requires
            old(meta).wf(),
            old(meta).num_advice < usize::MAX,
            old(meta).num_instance < usize::MAX,
            old(meta).num_selectors < usize::MAX,
        ensures
            final(meta).wf(),
            config.wf_in(final(meta)),
            config.configured(old(meta), final(meta), fibonacci_number),
    {
        let advice = meta.advice_column();
        let instance = meta.instance_column();
        proof {
            if meta.equality@.contains(advice) {
                let i = choose|i: int| 0 <= i < meta.equality@.len() && meta.equality@[i] == advice;
                assert(meta.column_wf(meta.equality@[i]));
            }
        }
        meta.enable_equality(advice);
        proof {
            if meta.equality@.contains(instance) {
                let i = choose|i: int|
                    0 <= i < meta.equality@.len() && meta.equality@[i] == instance;
                assert(meta.column_wf(meta.equality@[i]));
            }
        }
        meta.enable_equality(instance);
        let selector = meta.selector();
        meta.create_gate(Gate::AddNext { selector, advice: advice.index });
        proof {
            assert(meta.equality@[meta.equality@.len() - 2] == advice);
            assert(meta.equality@[meta.equality@.len() - 1] == instance);
        }
        FibonacciConfig { advice, instance, selector, fibonacci_number }
    }

    /// Fills the Fibonacci region: enables the custom gate at its first row,
    /// copies the first two public inputs into its first two rows, then
    /// writes each further row as the sum of the two before and enables the
    /// gate two rows above it, so that the custom gate ties the new cell to the two
    /// before it. Returns the region's last
    /// cell. When the grid runs out of usable rows, the rows written up to
    /// that point stay as `filled` describes them.
    pub fn assign(&self, prover: &mut MockProver) -> (res: Result<AssignedCell, Error>)
        requires
            old(prover).wf(),
            self.wf_in(&old(prover).cs),
        ensures
            final(prover).wf(),
            final(prover).same_shape(old(prover)),
            final(prover).instance@ == old(prover).instance@,
            final(prover).tables@ == old(prover).tables@,
            res is Ok <==> old(prover).next_row + region_height(self.fibonacci_number as nat)
                <= old(prover).usable_rows,
            res matches Err(e) ==> e == (Error::NotEnoughRowsAvailable {
                current_k: old(prover).k,
            }),
            res matches Ok(cell) ==> self.assigned(old(prover), final(prover), cell),
            res is Err ==> {
                &&& self.filled(
                    old(prover),
                    final(prover),
                    old(prover).usable_rows - old(prover).next_row,
                )
                &&& final(prover).next_row == old(prover).next_row
            },
    {
        let ghost p0 = *prover;
        let ghost a = p0.instance_at(self.instance.index as int, 0);
        let ghost b = p0.instance_at(self.instance.index as int, 1);
        let s0 = prover.next_row;
        let ghost start = self.start_copies(s0 as int);
        match prover.enable_selector(self.selector, s0) {
            Ok(()) => {},
            Err(e) => {
                proof {
                    assert(start.take(0) =~= Seq::<(CellRef, CellRef)>::empty());
                    assert(p0.copies@ + start.take(0) =~= p0.copies@);
                }
                return Err(e);
            },
        }
        let ghost pe = *prover;
        let a_cell = match prover.assign_advice_from_instance(self.instance, 0, self.advice, s0) {
            Ok(c) => c,
            Err(e) => {
                return Err(e);
            },
        };
        let ghost p1 = *prover;
        proof {
            assert(p1.copies@ =~= p0.copies@ + start.take(1));
            assert forall|s: int, r: int|
                0 <= s < p1.selectors@.len() && 0 <= r < p1.n implies #[trigger] p1.selector_at(
                s,
                r,
            ) == (p0.selector_at(s, r) || (s == self.selector && s0 <= r && self.gate_written(
                r - s0,
                1,
            ))) by {
                assert(pe.selector_at(s, r) == (p0.selector_at(s, r) || (s == self.selector && r
                    == s0)));
            }
            assert forall|c: int, r: int|
                0 <= c < p1.advice@.len() && 0 <= r < p1.n implies opt_value(
                #[trigger] p1.advice_at(c, r),
            ) == if c == self.advice.index && s0 <= r < s0 + 1 {
                Some(fib(a, b, (r - s0) as nat))
            } else {
                opt_value(p0.advice_at(c, r))
            } by {}
        }
        let b_cell = match prover.assign_advice_from_instance(
            self.instance,
            1,
            self.advice,
            s0 + 1,
        ) {
            Ok(c) => c,
            Err(e) => {
                return Err(e);
            },
        };
        let ghost p2 = *prover;
        proof {
            assert(p2.copies@ =~= p0.copies@ + start.take(2));
            assert forall|s: int, r: int|
                0 <= s < p2.selectors@.len() && 0 <= r < p2.n implies #[trigger] p2.selector_at(
                s,
                r,
            ) == (p0.selector_at(s, r) || (s == self.selector && s0 <= r && self.gate_written(
                r - s0,
                2,
            ))) by {
                assert(pe.selector_at(s, r) == (p0.selector_at(s, r) || (s == self.selector && r
                    == s0)));
                assert(p2.selector_at(s, r) == p1.selector_at(s, r));
            }
            assert forall|c: int, r: int|
                0 <= c < p2.advice@.len() && 0 <= r < p2.n implies opt_value(
                #[trigger] p2.advice_at(c, r),
            ) == if c == self.advice.index && s0 <= r < s0 + 2 {
                Some(fib(a, b, (r - s0) as nat))
            } else {
                opt_value(p0.advice_at(c, r))
            } by {
                assert(p1.advice_at(c, r) == if c == self.advice.index && r == s0 {
                    Some(a_cell.value)
                } else {
                    p0.advice_at(c, r)
                });
            }
        }
        let mut a_cell = a_cell;
        let mut b_cell = b_cell;
        let mut row: usize = 2;
        while row < self.fibonacci_number
            invariant
                p0 == *old(prover),
                prover.wf(),
                prover.same_shape(&p0),
                self.wf_in(&prover.cs),
                prover.instance@ == p0.instance@,
                prover.tables@ == p0.tables@,
                prover.next_row == s0,
                s0 == p0.next_row,
                start == self.start_copies(s0 as int),
                a == p0.instance_at(self.instance.index as int, 0),
                b == p0.instance_at(self.instance.index as int, 1),
                2 <= row,
                row <= region_height(self.fibonacci_number as nat),
                s0 + row <= prover.usable_rows,
                a_cell.value@ == fib(a, b, (row - 2) as nat),
                b_cell.value@ == fib(a, b, (row - 1) as nat),
                b_cell.cell == (CellRef { column: self.advice, row: (s0 + row - 1) as usize }),
                self.filled(&p0, prover, row as int),
            decreases self.fibonacci_number - row,
        {
            let ghost q0 = *prover;
            let c_val = a_cell.value.add(&b_cell.value);
            let c_cell = match prover.assign_advice(self.advice, s0 + row, c_val) {
                Ok(c) => c,
                Err(e) => {
                    return Err(e);
                },
            };
            let ghost q1 = *prover;
            match prover.enable_selector(self.selector, s0 + row - 2) {
                Ok(()) => {},
                Err(e) => {
                    return Err(e);
                },
            }
            proof {
                assert forall|c: int, r: int|
                    0 <= c < prover.advice@.len() && 0 <= r < prover.n implies opt_value(
                    #[trigger] prover.advice_at(c, r),
                ) == if c == self.advice.index && s0 <= r < s0 + row + 1 {
                    Some(fib(a, b, (r - s0) as nat))
                } else {
                    opt_value(p0.advice_at(c, r))
                } by {
                    assert(prover.advice_at(c, r) == q1.advice_at(c, r));
                    assert(q0.advice@.len() == prover.advice@.len());
                }
                assert forall|s: int, r: int|
                    0 <= s < prover.selectors@.len() && 0 <= r < prover.n implies #[trigger] prover.selector_at(
                    s,
                    r,
                ) == (p0.selector_at(s, r) || (s == self.selector && s0 <= r && self.gate_written(
                    r - s0,
                    row + 1,
                ))) by {
                    assert(q1.selector_at(s, r) == q0.selector_at(s, r));
                    assert(q0.selectors@.len() == prover.selectors@.len());
                }
                assert(start.take(2) == start.take(if row + 1 < 2 { row + 1 } else { 2 }));
            }
            a_cell = b_cell;
            b_cell = c_cell;
            row = row + 1;
        }
        proof {
            assert(row == region_height(self.fibonacci_number as nat));
        }
        let ghost q = *prover;
        prover.next_row = s0 + row;
        proof {
            assert forall|c: int, r: int|
                0 <= c < prover.advice@.len() && 0 <= r < prover.n implies opt_value(
                #[trigger] prover.advice_at(c, r),
            ) == if c == self.advice.index && s0 <= r < s0 + row {
                Some(fib(a, b, (r - s0) as nat))
            } else {
                opt_value(p0.advice_at(c, r))
            } by {
                assert(q.advice_at(c, r) == prover.advice_at(c, r));
            }
            assert forall|s: int, r: int|
                0 <= s < prover.selectors@.len() && 0 <= r < prover.n implies #[trigger] prover.selector_at(
                s,
                r,
            ) == (p0.selector_at(s, r) || (s == self.selector && s0 <= r && self.gate_written(
                r - s0,
                row as int,
            ))) by {
                assert(q.selector_at(s, r) == prover.selector_at(s, r));
            }
        }
        Ok(b_cell)
    }

    /// Constrains `cell` to equal row `row` of the instance column.
    pub fn expose_public(&self, prover: &mut MockProver, cell: AssignedCell, row: usize) -> (res:
        Result<(), Error>)
        requires
            old(prover).wf(),
            self.wf_in(&old(prover).cs),
            old(prover).cs.column_wf(cell.cell.column),
        ensures
            final(prover).wf(),
            res is Err <==> copy_error(
                old(prover),
                cell.cell,
                CellRef { column: self.instance, row },
            ) is Some,
            res matches Err(e) ==> copy_error(
                old(prover),
                cell.cell,
                CellRef { column: self.instance, row },
            ) == Some(e) && *final(prover) == *old(prover),
            res is Ok ==> {
                &&& final(prover).same_shape(old(prover))
                &&& final(prover).advice@ == old(prover).advice@
                &&& final(prover).selectors@ == old(prover).selectors@
                &&& final(prover).instance@ == old(prover).instance@
                &&& final(prover).tables@ == old(prover).tables@
                &&& final(prover).copies@ == old(prover).copies@.push(
                    (cell.cell, CellRef { column: self.instance, row }),
                )
                &&& final(prover).next_row == old(prover).next_row
            },
    {
        prover.copy(cell.cell, CellRef { column: self.instance, row })
    }
}

impl FibonacciConfig {
    /// What `synthesize` leaves in grid `new`, started from `old`: the region
    /// as `assign` fills it, and its last cell copied to public input 2.
    pub open spec fn synthesized(&self, old: &MockProver, new: &MockProver) -> bool {
        let s0 = old.next_row as int;
        let h = region_height(self.fibonacci_number as nat);
        &&& new.next_row == s0 + h
        &&& self.region_rows(old, new, h as int)
        &&& new.copies@ == (old.copies@ + self.start_copies(s0)).push(
            (
                CellRef { column: self.advice, row: (s0 + h - 1) as usize },
                CellRef { column: self.instance, row: 2 },
            ),
        )
    }
}

/// Why running the Fibonacci circuit on `2^k` rows and public input
/// `instance` fails, if it does.
pub open spec fn fibonacci_run_error(k: u32, fibonacci_number: nat, instance: Seq<Vec<Felt>>) -> Option<Error> {
    match setup_error(k, 1, instance) {
        Some(e) => Some(e),
        None => if region_height(fibonacci_number) > usable_rows_for(k) || 2 >= usable_rows_for(k) {
            Some(Error::NotEnoughRowsAvailable { current_k: k })
        } else {
            None
        },
    }
}

/// The Fibonacci circuit as a whole: the configuration, the region, and the
/// region's last cell exposed as public input 2.
#[derive(Clone, Copy, Debug)]
pub struct FibonacciCircuit {
    pub fibonacci_number: usize,
}

impl FibonacciCircuit {
    /// Declares the circuit's columns, selector and gate.
    pub fn configure(&self, meta: &mut ConstraintSystem) -> (config: FibonacciConfig)
        requires
            old(meta).wf(),
            old(meta).num_advice < usize::MAX,
            old(meta).num_instance < usize::MAX,
            old(meta).num_selectors < usize::MAX,
        ensures
            final(meta).wf(),
            config.wf_in(final(meta)),
            config.configured(old(meta), final(meta), self.fibonacci_number),
    {
        FibonacciConfig::configure(meta, self.fibonacci_number)
    }

    /// Fills the Fibonacci region and exposes its last cell as public input 2.
    pub fn synthesize(&self, config: &FibonacciConfig, prover: &mut MockProver) -> (res: Result<
        (),
        Error,
    >)
        requires
            old(prover).wf(),
            config.wf_in(&old(prover).cs),
            config.fibonacci_number == self.fibonacci_number,
        ensures
            final(prover).wf(),
            final(prover).same_shape(old(prover)),
            final(prover).instance@ == old(prover).instance@,
            final(prover).tables@ == old(prover).tables@,
            res is Ok <==> old(prover).next_row + region_height(self.fibonacci_number as nat)
                <= old(prover).usable_rows && 2 < old(prover).usable_rows,
            res matches Err(e) ==> e == (Error::NotEnoughRowsAvailable {
                current_k: old(prover).k,
            }),
            res is Ok ==> config.synthesized(old(prover), final(prover)),
    {
        let ghost p0 = *prover;
        let out_cell = match config.assign(prover) {
            Ok(c) => c,
            Err(e) => {
                return Err(e);
            },
        };
        let ghost p1 = *prover;
        let res = config.expose_public(prover, out_cell, 2);
        proof {
            if res is Ok {
                let s0 = p0.next_row as int;
                let h = region_height(self.fibonacci_number as nat);
                let a = p0.instance_at(config.instance.index as int, 0);
                let b = p0.instance_at(config.instance.index as int, 1);
                let start = config.start_copies(s0);
                assert(start.take(2) =~= start);
                assert forall|c: int, r: int|
                    0 <= c < prover.advice@.len() && 0 <= r < prover.n implies opt_value(
                    #[trigger] prover.advice_at(c, r),
                ) == if c == config.advice.index && s0 <= r < s0 + h {
                    Some(fib(a, b, (r - s0) as nat))
                } else {
                    opt_value(p0.advice_at(c, r))
                } by {
                    assert(p1.advice_at(c, r) == prover.advice_at(c, r));
                }
                assert forall|s: int, r: int|
                    0 <= s < prover.selectors@.len() && 0 <= r < prover.n implies #[trigger] prover.selector_at(
                    s,
                    r,
                ) == (p0.selector_at(s, r) || (s == config.selector && s0 <= r
                    && config.gate_written(r - s0, h as int))) by {
                    assert(p1.selector_at(s, r) == prover.selector_at(s, r));
                }
            }
        }
        res
    }

    /// Runs the circuit on a fresh grid of `2^k` rows with public input
    /// `instance`, as `MockProver::run` does: configures a constraint system,
    /// sets up the grid and synthesizes. The grid it returns satisfies the
    /// circuit exactly when the region has at least three rows (the custom gate at
    /// row 0 reads row 2) and public input 2 is element
    /// `fibonacci_number - 1` of the sequence that starts with public inputs
    /// 0 and 1.
    pub fn mock_run(&self, k: u32, instance: Vec<Vec<Felt>>) -> (res: Result<MockProver, Error>)
        requires
            (k as nat) < usize::BITS,
        ensures
            res is Err <==> fibonacci_run_error(k, self.fibonacci_number as nat, instance@) is Some,
            res matches Err(e) ==> fibonacci_run_error(
                k,
                self.fibonacci_number as nat,
                instance@,
            ) == Some(e),
            res matches Ok(p) ==> {
                &&& p.wf()
                &&& p.k == k
                &&& forall|r: int| 0 <= r < p.n ==> #[trigger] p.instance_at(0, r) == padded(instance@, 0, r)
                &&& fibonacci_grid(
                    p,
                    self.fibonacci_number as nat,
                    padded(instance@, 0, 0),
                    padded(instance@, 0, 1),
                )
                &&& p.satisfied() <==> (self.fibonacci_number >= 3 && padded(instance@, 0, 2)
                    == fib(
                    padded(instance@, 0, 0),
                    padded(instance@, 0, 1),
                    (self.fibonacci_number - 1) as nat,
                ))
            },
    {
        let ghost inst = instance@;
        let mut cs = ConstraintSystem::new();
        let config = self.configure(&mut cs);
        let mut prover = match MockProver::new(k, cs, instance) {
            Ok(p) => p,
            Err(e) => {
                return Err(e);
            },
        };
        let ghost p0 = prover;
        match self.synthesize(&config, &mut prover) {
            Ok(()) => {},
            Err(e) => {
                return Err(e);
            },
        }
        proof {
            let a = p0.instance_at(0, 0);
            let b = p0.instance_at(0, 1);
            assert(a == padded(inst, 0, 0));
            assert(b == padded(inst, 0, 1));
            assert(p0.instance_at(0, 2) == padded(inst, 0, 2));
            assert(prover.instance_at(0, 2) == p0.instance_at(0, 2));
            assert(p0.copies@ =~= Seq::<(CellRef, CellRef)>::empty());
            assert(p0.copies@ + config.start_copies(0) =~= config.start_copies(0));
            assert(prover.copies@ =~= seq![
                (
                    CellRef { column: Column { kind: ColumnKind::Advice, index: 0 }, row: 0 },
                    CellRef { column: Column { kind: ColumnKind::Instance, index: 0 }, row: 0 },
                ),
                (
                    CellRef { column: Column { kind: ColumnKind::Advice, index: 0 }, row: 1 },
                    CellRef { column: Column { kind: ColumnKind::Instance, index: 0 }, row: 1 },
                ),
                (
                    CellRef {
                        column: Column { kind: ColumnKind::Advice, index: 0 },
                        row: (region_height(self.fibonacci_number as nat) - 1) as usize,
                    },
                    CellRef { column: Column { kind: ColumnKind::Instance, index: 0 }, row: 2 },
                ),
            ]);
            assert forall|r: int| 0 <= r < prover.n implies opt_value(
                #[trigger] prover.advice_at(0, r),
            ) == if r < region_height(self.fibonacci_number as nat) {
                Some(fib(a, b, r as nat))
            } else {
                None::<nat>
            } by {
                assert(p0.advice_at(0, r) is None);
            }
            assert forall|r: int| 0 <= r < prover.n implies #[trigger] prover.selector_at(0, r)
                == gate_enabled_at(self.fibonacci_number as nat, r) by {
                assert(!p0.selector_at(0, r));
            }
            lemma_fibonacci_satisfied(prover, self.fibonacci_number as nat, a, b);
            assert forall|r: int| 0 <= r < prover.n implies #[trigger] prover.instance_at(0, r)
                == padded(inst, 0, r) by {
                assert(prover.instance_at(0, r) == p0.instance_at(0, r));
            }
        }
        Ok(prover)
    }
}

/// The grid of the Fibonacci circuit as `mock_run` leaves it: the circuit's
/// layout, with the advice column holding the sequence from `a` and `b` over
/// the region's rows and nothing below them.
pub open spec fn fibonacci_grid(p: MockProver, fibonacci_number: nat, a: nat, b: nat) -> bool {
    &&& fibonacci_layout(p, fibonacci_number)
    &&& p.cs.lookups@.len() == 0
    &&& a == p.instance_at(0, 0)
    &&& b == p.instance_at(0, 1)
    &&& 2 < p.usable_rows
    &&& forall|r: int|
        0 <= r < p.n ==> opt_value(#[trigger] p.advice_at(0, r)) == if r < region_height(
            fibonacci_number,
        ) {
            Some(fib(a, b, r as nat))
        } else {
            None::<nat>
        }
}

/// A grid holding exactly the Fibonacci circuit satisfies its constraints
/// exactly when the region has at least three rows (the custom gate at row 0 reads
/// row 2) and public input 2 is the element in the region's last row: the
/// copies tie rows 0 and 1 to public inputs 0 and 1, the custom gate ties
/// every further row to the two before it, and the last copy ties the last
/// row to public input 2.
pub proof fn lemma_fibonacci_satisfied(p: MockProver, fibonacci_number: nat, a: nat, b: nat)
    requires
        fibonacci_grid(p, fibonacci_number, a, b),
    ensures
        p.satisfied() <==> (fibonacci_number >= 3 && p.instance_at(0, 2) == fib(
            a,
            b,
            (region_height(fibonacci_number) - 1) as nat,
        )),
{
    let h = region_height(fibonacci_number);
    if fibonacci_number >= 3 && p.instance_at(0, 2) == fib(a, b, (h - 1) as nat) {
        assert forall|i: int, r: int|
            0 <= i < p.cs.gates@.len() && 0 <= r < p.n implies #[trigger] p.gate_holds(
            p.cs.gates@[i],
            r,
        ) by {
            if p.selector_at(0, r) {
                assert(r + 2 < h);
                assert(opt_value(p.advice_at(0, r)) == Some(fib(a, b, r as nat)));
                assert(opt_value(p.advice_at(0, r + 1)) == Some(fib(a, b, (r + 1) as nat)));
                assert(opt_value(p.advice_at(0, r + 2)) == Some(fib(a, b, (r + 2) as nat)));
                let x = fib(a, b, (r + 2) as nat);
                assert(x == fadd(fib(a, b, r as nat), fib(a, b, (r + 1) as nat)));
                assert(x < modulus());
                crate::field::lemma_small_mod(x);
                vstd::arithmetic::div_mod::lemma_mod_self_0(modulus() as int);
                assert(fsub(x, x) == 0);
            }
        }
        assert forall|i: int| 0 <= i < p.copies@.len() implies #[trigger] p.copy_holds(p.copies@[i]) by {
            assert(opt_value(p.advice_at(0, 0)) == Some(a));
            assert(opt_value(p.advice_at(0, 1)) == Some(b));
            assert(opt_value(p.advice_at(0, h - 1)) == Some(fib(a, b, (h - 1) as nat)));
        }
    }
    if p.satisfied() {
        assert(p.gate_holds(p.cs.gates@[0], 0));
        assert(p.selector_at(0, 0));
        if fibonacci_number < 3 {
            assert(opt_value(p.advice_at(0, 2)) == None::<nat>);
        }
        assert(p.copy_holds(p.copies@[2]));
        assert(opt_value(p.advice_at(0, h - 1)) == Some(fib(a, b, (h - 1) as nat)));
    }
}

/// The Fibonacci gate, on any values: at a row where its three cells are
/// assigned it holds exactly when its selector is off there or the third
/// cell is the sum of the first two.
pub proof fn lemma_fibonacci_gate(p: MockProver, selector: usize, advice: usize, r: int)
    requires
        r + 2 < p.n,
        p.advice_at(advice as int, r) is Some,
        p.advice_at(advice as int, r + 1) is Some,
        p.advice_at(advice as int, r + 2) is Some,
    ensures
        p.gate_holds(Gate::AddNext { selector, advice }, r) <==> (!p.selector_at(selector as int, r)
            || p.advice_at(advice as int, r + 2)->Some_0@ == fadd(
            p.advice_at(advice as int, r)->Some_0@,
            p.advice_at(advice as int, r + 1)->Some_0@,
        )),
{
    let x = fadd(p.advice_at(advice as int, r)->Some_0@, p.advice_at(advice as int, r + 1)->Some_0@);
    let z = p.advice_at(advice as int, r + 2)->Some_0;
    crate::field::lemma_value_bound(z);
    crate::field::lemma_fsub_zero(x, z@);
}

/// The layout `assign` makes does not depend on the values it copies in:
/// from two grids with the same next free row, enabled selectors, assigned
/// advice cells and copies, it enables the same selectors, assigns the same
/// cells, adds the same copies and returns a cell at the same place; only
/// the values in the cells may differ.
pub proof fn lemma_assign_layout_independent_of_values(
    config: FibonacciConfig,
    old1: MockProver,
    new1: MockProver,
    c1: AssignedCell,
    old2: MockProver,
    new2: MockProver,
    c2: AssignedCell,
)
    requires
        old1.wf(),
        old2.wf(),
        new1.wf(),
        new2.wf(),
        old1.same_shape(&old2),
        new1.same_shape(&old1),
        new2.same_shape(&old2),
        old1.next_row == old2.next_row,
        old1.copies@ == old2.copies@,
        forall|s: int, r: int|
            0 <= s < old1.selectors@.len() && 0 <= r < old1.n ==> #[trigger] old1.selector_at(s, r)
                == old2.selector_at(s, r),
        forall|c: int, r: int|
            0 <= c < old1.advice@.len() && 0 <= r < old1.n ==> (#[trigger] old1.advice_at(
                c,
                r,
            ) is Some) == (old2.advice_at(c, r) is Some),
        config.assigned(&old1, &new1, c1),
        config.assigned(&old2, &new2, c2),
    ensures
        c1.cell == c2.cell,
        new1.next_row == new2.next_row,
        new1.copies@ == new2.copies@,
        forall|s: int, r: int|
            0 <= s < new1.selectors@.len() && 0 <= r < new1.n ==> #[trigger] new1.selector_at(s, r)
                == new2.selector_at(s, r),
        forall|c: int, r: int|
            0 <= c < new1.advice@.len() && 0 <= r < new1.n ==> (#[trigger] new1.advice_at(
                c,
                r,
            ) is Some) == (new2.advice_at(c, r) is Some),
{
    assert forall|s: int, r: int|
        0 <= s < new1.selectors@.len() && 0 <= r < new1.n implies #[trigger] new1.selector_at(s, r)
        == new2.selector_at(s, r) by {
        assert(old1.selector_at(s, r) == old2.selector_at(s, r));
        assert(new2.selector_at(s, r) == (old2.selector_at(s, r) || (s == config.selector
            && old2.next_row <= r && config.gate_written(
            r - old2.next_row,
            region_height(config.fibonacci_number as nat) as int,
        ))));
    }
    assert forall|c: int, r: int|
        0 <= c < new1.advice@.len() && 0 <= r < new1.n implies (#[trigger] new1.advice_at(
            c,
            r,
        ) is Some) == (new2.advice_at(c, r) is Some) by {
        assert((old1.advice_at(c, r) is Some) == (old2.advice_at(c, r) is Some));
        assert(opt_value(new1.advice_at(c, r)) is Some <==> new1.advice_at(c, r) is Some);
        assert(opt_value(new2.advice_at(c, r)) is Some <==> new2.advice_at(c, r) is Some);
        assert(opt_value(old1.advice_at(c, r)) is Some <==> old1.advice_at(c, r) is Some);
        assert(opt_value(old2.advice_at(c, r)) is Some <==> old2.advice_at(c, r) is Some);
    }
}

/// Configuring is deterministic: two constraint systems that declare the
/// same columns, selectors, equality columns, gates and lookups are
/// configured into systems that again agree on all of these, with the same
/// configuration.
pub proof fn lemma_configure_deterministic(
    old1: ConstraintSystem,
    old2: ConstraintSystem,
    new1: ConstraintSystem,
    new2: ConstraintSystem,
    c1: FibonacciConfig,
    c2: FibonacciConfig,
    fibonacci_number: usize,
)
    requires
        old1.num_advice == old2.num_advice,
        old1.num_instance == old2.num_instance,
        old1.num_selectors == old2.num_selectors,
        old1.num_tables == old2.num_tables,
        old1.equality@ == old2.equality@,
        old1.gates@ == old2.gates@,
        old1.lookups@ == old2.lookups@,
        c1.configured(&old1, &new1, fibonacci_number),
        c2.configured(&old2, &new2, fibonacci_number),
    ensures
        c1 == c2,
        new1.num_advice == new2.num_advice,
        new1.num_instance == new2.num_instance,
        new1.num_selectors == new2.num_selectors,
        new1.num_tables == new2.num_tables,
        new1.equality@ == new2.equality@,
        new1.gates@ == new2.gates@,
        new1.lookups@ == new2.lookups@,
{
}

/// The layout of the Fibonacci circuit, whatever witness fills its advice
/// column: its one gate, its selector enabled at the rows `gate_enabled_at`
/// names, and the copies of the two starting values and of the output.
pub open spec fn fibonacci_layout(p: MockProver, fibonacci_number: nat) -> bool {
    &&& p.wf()
    &&& p.cs.gates@ == seq![Gate::AddNext { selector: 0, advice: 0 }]
    &&& p.advice@.len() == 1
    &&& p.selectors@.len() == 1
    &&& p.instance@.len() == 1
    &&& region_height(fibonacci_number) <= p.usable_rows
    &&& forall|r: int| 0 <= r < p.n ==> #[trigger] p.selector_at(0, r) == gate_enabled_at(fibonacci_number, r)
    &&& p.copies@ == seq![
        (
            CellRef { column: Column { kind: ColumnKind::Advice, index: 0 }, row: 0 },
            CellRef { column: Column { kind: ColumnKind::Instance, index: 0 }, row: 0 },
        ),
        (
            CellRef { column: Column { kind: ColumnKind::Advice, index: 0 }, row: 1 },
            CellRef { column: Column { kind: ColumnKind::Instance, index: 0 }, row: 1 },
        ),
        (
            CellRef {
                column: Column { kind: ColumnKind::Advice, index: 0 },
                row: (region_height(fibonacci_number) - 1) as usize,
            },
            CellRef { column: Column { kind: ColumnKind::Instance, index: 0 }, row: 2 },
        ),
    ]
}

/// The first `m` rows of a satisfied Fibonacci layout hold the sequence.
proof fn lemma_fibonacci_sound_upto(p: MockProver, fibonacci_number: nat, m: nat)
    requires
        fibonacci_layout(p, fibonacci_number),
        p.satisfied(),
        m <= region_height(fibonacci_number),
    ensures
        forall|r: int|
            0 <= r < m ==> opt_value(#[trigger] p.advice_at(0, r)) == Some(
                fib(p.instance_at(0, 0), p.instance_at(0, 1), r as nat),
            ),
    decreases m,
{
    let a = p.instance_at(0, 0);
    let b = p.instance_at(0, 1);
    if m > 0 {
        lemma_fibonacci_sound_upto(p, fibonacci_number, (m - 1) as nat);
        let r = m - 1;
        if r == 0 {
            assert(p.copy_holds(p.copies@[0]));
        } else if r == 1 {
            assert(p.copy_holds(p.copies@[1]));
        } else {
            assert(p.selector_at(0, r - 2));
            assert(p.gate_holds(p.cs.gates@[0], r - 2));
            lemma_fibonacci_gate(p, 0, 0, r - 2);
            assert(opt_value(p.advice_at(0, r - 2)) == Some(fib(a, b, (r - 2) as nat)));
            assert(opt_value(p.advice_at(0, r - 1)) == Some(fib(a, b, (r - 1) as nat)));
        }
    }
}

/// Soundness of the Fibonacci circuit: every witness that satisfies it, not
/// only the one synthesis writes, holds in the region's rows the sequence
/// that starts with public inputs 0 and 1, and then public input 2 is the
/// element in the region's last row.
pub proof fn lemma_fibonacci_sound(p: MockProver, fibonacci_number: nat)
    requires
        fibonacci_layout(p, fibonacci_number),
        p.satisfied(),
    ensures
        forall|r: int|
            0 <= r < region_height(fibonacci_number) ==> opt_value(#[trigger] p.advice_at(0, r))
                == Some(fib(p.instance_at(0, 0), p.instance_at(0, 1), r as nat)),
        p.instance_at(0, 2) == fib(
            p.instance_at(0, 0),
            p.instance_at(0, 1),
            (region_height(fibonacci_number) - 1) as nat,
        ),
{
    let h = region_height(fibonacci_number);
    lemma_fibonacci_sound_upto(p, fibonacci_number, h);
    assert(p.copy_holds(p.copies@[2]));
    assert(opt_value(p.advice_at(0, h - 1)) == Some(
        fib(p.instance_at(0, 0), p.instance_at(0, 1), (h - 1) as nat),
    ));
}

} // verus!
