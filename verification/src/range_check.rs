//! Range checks on one advice cell: below a small `range` with the custom gate
//! `s * v * (1 - v) * (2 - v) * ... * (range - 1 - v) = 0`, and below a
//! larger `lookup_range` by looking the value up in a table of
//! `0 .. lookup_range`.
use crate::field::{fmul, fsub, modulus, Felt};
use crate::mock_prover::{
    range_poly,
    value_or_zero,
    setup_error,
    table_error,
    usable_rows_for,
    MockProver,
};
use crate::plonk::{Column, ColumnKind, ConstraintSystem, Error, Gate, Lookup};
use vstd::prelude::*;

verus! {

/// A lookup table holding `0 .. lookup_range`.
#[derive(Clone, Copy, Debug)]
pub struct RangeTableConfig {
    pub value: usize,
    pub lookup_range: usize,
}

impl RangeTableConfig {
    /// Declares the table column.
    pub fn configure(meta: &mut ConstraintSystem, lookup_range: usize) -> (config: Self)
        requires
            old(meta).wf(),
            old(meta).num_tables < usize::MAX,
        ensures
            final(meta).wf(),
            config.value == old(meta).num_tables,
            config.lookup_range == lookup_range,
            final(meta).num_advice == old(meta).num_advice,
            final(meta).num_instance == old(meta).num_instance,
            final(meta).num_selectors == old(meta).num_selectors,
            final(meta).num_tables == old(meta).num_tables + 1,
            final(meta).same_constraints(old(meta)),
    {
        let value = meta.lookup_table_column();
        RangeTableConfig { value, lookup_range }
    }

    /// Loads `0, 1, ..., lookup_range - 1` into the table column.
    pub fn load(&self, prover: &mut MockProver) -> (res: Result<(), Error>)
        requires
            old(prover).wf(),
            self.value < old(prover).cs.num_tables,
        ensures
            final(prover).wf(),
            res is Err <==> table_error(old(prover), seq![self.value], self.lookup_range as nat) is Some,
            res matches Err(e) ==> table_error(
                old(prover),
                seq![self.value],
                self.lookup_range as nat,
            ) == Some(e) && *final(prover) == *old(prover),
            res is Ok ==> {
                &&& final(prover).same_shape(old(prover))
                &&& final(prover).advice@ == old(prover).advice@
                &&& final(prover).selectors@ == old(prover).selectors@
                &&& final(prover).instance@ == old(prover).instance@
                &&& final(prover).copies@ == old(prover).copies@
                &&& final(prover).next_row == old(prover).next_row
                &&& final(prover).tables@.len() == old(prover).tables@.len()
                &&& forall|t: int|
                    0 <= t < final(prover).tables@.len() && t != self.value
                        ==> #[trigger] final(prover).tables@[t] == old(prover).tables@[t]
                &&& final(prover).tables@[self.value as int]@.len() == self.lookup_range
                &&& forall|j: int|
                    0 <= j < self.lookup_range
                        ==> (#[trigger] final(prover).tables@[self.value as int]@[j])@ == j
            },
    {
        let mut values: Vec<Felt> = Vec::new();
        let mut i: usize = 0;
        while i < self.lookup_range
            invariant
                0 <= i <= self.lookup_range,
                values@.len() == i,
                forall|j: int| 0 <= j < i ==> (#[trigger] values@[j])@ == j,
            decreases self.lookup_range - i,
        {
            values.push(Felt::from_u64(i as u64));
            i = i + 1;
        }
        prover.assign_table(self.value, values)
    }
}

/// Whether the range-check region of `v` passes: below `range` by the custom gate
/// when `claimed < range`, below `lookup_range` by the lookup otherwise.
pub open spec fn range_check_passes(
    v: nat,
    claimed: nat,
    range: nat,
    lookup_range: nat,
) -> bool {
    if claimed < range {
        range_poly(v, range) == 0
    } else {
        v < lookup_range
    }
}

/// The selectors and column of the range check, with its two bounds.
#[derive(Clone, Copy, Debug)]
pub struct RangeCheckConfig {
    pub value: Column,
    pub q_range_check: usize,
    pub q_lookup: usize,
    pub table: RangeTableConfig,
    pub range: usize,
    pub lookup_range: usize,
}

impl RangeCheckConfig {
    /// The configuration's column, selectors and table are declared in `cs`.
    pub open spec fn wf_in(&self, cs: &ConstraintSystem) -> bool {
        &&& self.value.kind == ColumnKind::Advice
        &&& self.value.index < cs.num_advice
        &&& self.q_range_check < cs.num_selectors
        &&& self.q_lookup < cs.num_selectors
        &&& self.q_range_check != self.q_lookup
        &&& self.table.value < cs.num_tables
        &&& self.table.lookup_range == self.lookup_range
    }

    /// What `assign` leaves in grid `new`, started from `old`: `v` in the
    /// value column at `old`'s next free row, with the custom gate's selector enabled
    /// there when `claimed < range` and the lookup's selector otherwise.
    pub open spec fn assigned(&self, old: &MockProver, new: &MockProver, v: Felt, claimed: nat) -> bool {
        let s0 = old.next_row as int;
        let sel = if claimed < self.range {
            self.q_range_check
        } else {
            self.q_lookup
        };
        &&& new.next_row == s0 + 1
        &&& new.advice_updated(old, self.value.index as int, s0, v)
        &&& new.selector_enabled(old, sel as int, s0)
        &&& new.copies@ == old.copies@
    }

    /// Declares the two selectors and the table, the range-check gate on
    /// `value`, and the lookup of `q_lookup * value` in the table.
    pub fn configure(
        meta: &mut ConstraintSystem,
        value: Column,
        range: usize,
        lookup_range: usize,
    ) -> (config: Self)
        requires
            old(meta).wf(),
            value.kind == ColumnKind::Advice,
            value.index < old(meta).num_advice,
            old(meta).num_selectors + 2 <= usize::MAX,
            old(meta).num_tables < usize::MAX,
        ensures
            final(meta).wf(),
            config.wf_in(final(meta)),
            config.value == value,
            config.q_range_check == old(meta).num_selectors,
            config.q_lookup == old(meta).num_selectors + 1,
            config.table.value == old(meta).num_tables,
            config.range == range,
            config.lookup_range == lookup_range,
            final(meta).num_advice == old(meta).num_advice,
            final(meta).num_instance == old(meta).num_instance,
            final(meta).num_selectors == old(meta).num_selectors + 2,
            final(meta).num_tables == old(meta).num_tables + 1,
            final(meta).equality@ == old(meta).equality@,
            final(meta).gates@ == old(meta).gates@.push(
                Gate::RangeProduct {
                    selector: config.q_range_check,
                    advice: value.index,
                    range,
                },
            ),
            final(meta).lookups@ == old(meta).lookups@.push(
                Lookup::Scaled {
                    selector: config.q_lookup,
                    advice: value.index,
                    table: config.table.value,
                },
            ),
    {
        let q_range_check = meta.selector();
        let q_lookup = meta.complex_selector();
        let table = RangeTableConfig::configure(meta, lookup_range);
        meta.create_gate(Gate::RangeProduct { selector: q_range_check, advice: value.index, range });
        meta.lookup(Lookup::Scaled { selector: q_lookup, advice: value.index, table: table.value });
        RangeCheckConfig { value, q_range_check, q_lookup, table, range, lookup_range }
    }

    /// Assigns `v` in a region of one row, checked by the custom gate when
    /// `claimed < range` and by the lookup otherwise.
    pub fn assign(&self, prover: &mut MockProver, v: Felt, claimed: usize) -> (res: Result<
        (),
        Error,
    >)
        requires
            old(prover).wf(),
            self.wf_in(&old(prover).cs),
            claimed <= self.lookup_range,
        ensures
            final(prover).wf(),
            final(prover).same_shape(old(prover)),
            final(prover).instance@ == old(prover).instance@,
            final(prover).tables@ == old(prover).tables@,
            res is Ok <==> old(prover).next_row < old(prover).usable_rows,
            res matches Err(e) ==> e == (Error::NotEnoughRowsAvailable {
                current_k: old(prover).k,
            }) && *final(prover) == *old(prover),
            res is Ok ==> self.assigned(old(prover), final(prover), v, claimed as nat),
            res is Ok ==> final(prover).advice_at(
                self.value.index as int,
                old(prover).next_row as int,
            ) == Some(v),
            res is Ok && claimed < self.range ==> {
                &&& final(prover).selector_at(
                    self.q_range_check as int,
                    old(prover).next_row as int,
                )
                &&& final(prover).selector_at(self.q_lookup as int, old(prover).next_row as int)
                    == old(prover).selector_at(self.q_lookup as int, old(prover).next_row as int)
            },
            res is Ok && self.range <= claimed ==> {
                &&& final(prover).selector_at(self.q_lookup as int, old(prover).next_row as int)
                &&& final(prover).selector_at(
                    self.q_range_check as int,
                    old(prover).next_row as int,
                ) == old(prover).selector_at(
                    self.q_range_check as int,
                    old(prover).next_row as int,
                )
            },
            res is Ok && self.range <= claimed && 0 < self.lookup_range
                && old(prover).tables@[self.table.value as int]@.len() == self.lookup_range
                && (forall|j: int|
                0 <= j < self.lookup_range ==> (#[trigger] old(
                    prover,
                ).tables@[self.table.value as int]@[j])@ == j) ==> (final(prover).lookup_holds(
                Lookup::Scaled {
                    selector: self.q_lookup,
                    advice: self.value.index,
                    table: self.table.value,
                },
                old(prover).next_row as int,
            ) <==> v@ < self.lookup_range),
            res is Ok && claimed < self.range ==> {
                let g = Gate::RangeProduct {
                    selector: self.q_range_check,
                    advice: self.value.index,
                    range: self.range,
                };
                &&& final(prover).range_cell_below(g, old(prover).next_row as int) <==> v@
                    < self.range
                &&& v@ < self.range ==> final(prover).gate_holds(g, old(prover).next_row as int)
            },
    {
        let offset = prover.next_row;
        let sel = if claimed < self.range {
            self.q_range_check
        } else {
            self.q_lookup
        };
        let ghost p0 = *prover;
        match prover.enable_selector(sel, offset) {
            Ok(()) => {},
            Err(e) => {
                return Err(e);
            },
        }
        let ghost p1 = *prover;
        match prover.assign_advice(self.value, offset, v) {
            Ok(_) => {},
            Err(e) => {
                return Err(e);
            },
        }
        let ghost p2 = *prover;
        prover.next_row = offset + 1;
        proof {
            assert forall|c2: int, r2: int|
                0 <= c2 < prover.advice@.len() && 0 <= r2 < prover.n implies #[trigger] prover.advice_at(
                c2,
                r2,
            ) == if c2 == self.value.index && r2 == offset {
                Some(v)
            } else {
                p0.advice_at(c2, r2)
            } by {
                assert(prover.advice_at(c2, r2) == p2.advice_at(c2, r2));
                assert(p1.advice_at(c2, r2) == p0.advice_at(c2, r2));
            }
            assert forall|s2: int, r2: int|
                0 <= s2 < prover.selectors@.len() && 0 <= r2 < prover.n implies #[trigger] prover.selector_at(
                s2,
                r2,
            ) == (p0.selector_at(s2, r2) || (s2 == sel && r2 == offset)) by {
                assert(prover.selector_at(s2, r2) == p1.selector_at(s2, r2));
            }
            assert(prover.selector_at(sel as int, offset as int));
            assert(prover.selector_at(self.q_range_check as int, offset as int) == (p0.selector_at(
                self.q_range_check as int,
                offset as int,
            ) || sel == self.q_range_check));
            assert(prover.selector_at(self.q_lookup as int, offset as int) == (p0.selector_at(
                self.q_lookup as int,
                offset as int,
            ) || sel == self.q_lookup));
            if self.range <= claimed && 0 < self.lookup_range
                && p0.tables@[self.table.value as int]@.len() == self.lookup_range && (forall|j: int|
                0 <= j < self.lookup_range ==> (#[trigger] p0.tables@[self.table.value as int]@[j])@
                    == j) {
                lemma_range_lookup(
                    *prover,
                    self.q_lookup,
                    self.value.index,
                    self.table.value,
                    self.lookup_range as nat,
                    offset as int,
                );
            }
            if claimed < self.range {
                let g = Gate::RangeProduct {
                    selector: self.q_range_check,
                    advice: self.value.index,
                    range: self.range,
                };
                assert(prover.advice_at(self.value.index as int, offset as int) == Some(v));
                assert(prover.selector_at(self.q_range_check as int, offset as int));
                if v@ < self.range {
                    lemma_range_gate_holds(*prover, g, offset as int);
                }
            }
        }
        Ok(())
    }
}

/// Why running the range-check circuit on `2^k` rows fails, if it does.
pub open spec fn range_check_run_error(k: u32, lookup_range: nat) -> Option<Error> {
    match setup_error(k, 0, Seq::<Vec<Felt>>::empty()) {
        Some(e) => Some(e),
        None => if lookup_range >= usable_rows_for(k) {
            Some(Error::NotEnoughRowsAvailable { current_k: k })
        } else if lookup_range == 0 {
            Some(Error::Synthesis)
        } else {
            None
        },
    }
}

/// The range-check circuit as a whole: the table loaded, `value` assigned
/// with the claim `range`, `large_value` with the claim `lookup_range`.
#[derive(Clone, Copy, Debug)]
pub struct RangeCheckCircuit {
    pub value: Felt,
    pub large_value: Felt,
    pub range: usize,
    pub lookup_range: usize,
}

impl RangeCheckCircuit {
    /// Declares the value column and the range check on it.
    pub fn configure(&self, meta: &mut ConstraintSystem) -> (config: RangeCheckConfig)
        requires
            old(meta).wf(),
            old(meta).num_advice < usize::MAX,
            old(meta).num_selectors + 2 <= usize::MAX,
            old(meta).num_tables < usize::MAX,
        ensures
            final(meta).wf(),
            config.wf_in(final(meta)),
            config.value == (Column { kind: ColumnKind::Advice, index: old(meta).num_advice }),
            config.q_range_check == old(meta).num_selectors,
            config.q_lookup == old(meta).num_selectors + 1,
            config.table.value == old(meta).num_tables,
            config.range == self.range,
            config.lookup_range == self.lookup_range,
            final(meta).num_advice == old(meta).num_advice + 1,
            final(meta).num_instance == old(meta).num_instance,
            final(meta).num_selectors == old(meta).num_selectors + 2,
            final(meta).num_tables == old(meta).num_tables + 1,
            final(meta).equality@ == old(meta).equality@,
            final(meta).gates@ == old(meta).gates@.push(
                Gate::RangeProduct {
                    selector: config.q_range_check,
                    advice: config.value.index,
                    range: self.range,
                },
            ),
            final(meta).lookups@ == old(meta).lookups@.push(
                Lookup::Scaled {
                    selector: config.q_lookup,
                    advice: config.value.index,
                    table: config.table.value,
                },
            ),
    {
        let value = meta.advice_column();
        RangeCheckConfig::configure(meta, value, self.range, self.lookup_range)
    }

    /// Loads the table, then assigns `value` claiming `range` and
    /// `large_value` claiming `lookup_range`.
    pub fn synthesize(&self, config: &RangeCheckConfig, prover: &mut MockProver) -> (res: Result<
        (),
        Error,
    >)
        requires
            old(prover).wf(),
            config.wf_in(&old(prover).cs),
            config.range == self.range,
            config.lookup_range == self.lookup_range,
            self.range <= self.lookup_range,
        ensures
            final(prover).wf(),
            final(prover).same_shape(old(prover)),
            res is Ok <==> table_error(old(prover), seq![config.table.value], self.lookup_range as nat)
                is None && old(prover).next_row + 2 <= old(prover).usable_rows,
            res matches Err(e) ==> match table_error(
                old(prover),
                seq![config.table.value],
                self.lookup_range as nat,
            ) {
                Some(te) => e == te,
                None => e == (Error::NotEnoughRowsAvailable { current_k: old(prover).k }),
            },
            res is Ok ==> {
                let s0 = old(prover).next_row as int;
                &&& final(prover).next_row == s0 + 2
                &&& final(prover).copies@ == old(prover).copies@
                &&& final(prover).instance@ == old(prover).instance@
                &&& final(prover).tables@[config.table.value as int]@.len() == self.lookup_range
                &&& forall|j: int|
                    0 <= j < self.lookup_range
                        ==> (#[trigger] final(prover).tables@[config.table.value as int]@[j])@ == j
                &&& forall|t: int|
                    0 <= t < final(prover).tables@.len() && t != config.table.value
                        ==> #[trigger] final(prover).tables@[t] == old(prover).tables@[t]
                &&& forall|c: int, r: int|
                    0 <= c < final(prover).advice@.len() && 0 <= r < final(prover).n
                        ==> #[trigger] final(prover).advice_at(c, r) == if c == config.value.index
                        && r == s0 {
                        Some(self.value)
                    } else if c == config.value.index && r == s0 + 1 {
                        Some(self.large_value)
                    } else {
                        old(prover).advice_at(c, r)
                    }
                &&& forall|s: int, r: int|
                    0 <= s < final(prover).selectors@.len() && 0 <= r < final(prover).n
                        ==> #[trigger] final(prover).selector_at(s, r) == (old(prover).selector_at(s, r)
                        || (s == config.q_lookup && (r == s0 || r == s0 + 1)))
            },
    {
        let ghost p0 = *prover;
        match config.table.load(prover) {
            Ok(()) => {},
            Err(e) => {
                return Err(e);
            },
        }
        let ghost p1 = *prover;
        match config.assign(prover, self.value, self.range) {
            Ok(()) => {},
            Err(e) => {
                return Err(e);
            },
        }
        let ghost p2 = *prover;
        match config.assign(prover, self.large_value, self.lookup_range) {
            Ok(()) => {},
            Err(e) => {
                return Err(e);
            },
        }
        proof {
            let s0 = p0.next_row as int;
            assert forall|c: int, r: int|
                0 <= c < prover.advice@.len() && 0 <= r < prover.n implies #[trigger] prover.advice_at(
                c,
                r,
            ) == if c == config.value.index && r == s0 {
                Some(self.value)
            } else if c == config.value.index && r == s0 + 1 {
                Some(self.large_value)
            } else {
                p0.advice_at(c, r)
            } by {
                assert(p2.advice_at(c, r) == if c == config.value.index && r == s0 {
                    Some(self.value)
                } else {
                    p1.advice_at(c, r)
                });
                assert(p1.advice_at(c, r) == p0.advice_at(c, r));
            }
            assert forall|s: int, r: int|
                0 <= s < prover.selectors@.len() && 0 <= r < prover.n implies #[trigger] prover.selector_at(
                s,
                r,
            ) == (p0.selector_at(s, r) || (s == config.q_lookup && (r == s0 || r == s0 + 1))) by {
                assert(p2.selector_at(s, r) == (p1.selector_at(s, r) || (s == config.q_lookup && r
                    == s0)));
                assert(p1.selector_at(s, r) == p0.selector_at(s, r));
            }
            assert forall|t: int|
                0 <= t < prover.tables@.len() && t != config.table.value implies #[trigger] prover.tables@[t]
                == p0.tables@[t] by {
                assert(p1.tables@[t] == p0.tables@[t]);
            }
        }
        Ok(())
    }

    /// Runs the circuit on a fresh grid of `2^k` rows, as `MockProver::run`
    /// does. The grid it returns satisfies the circuit exactly when both
    /// values lie below `lookup_range`: with `range <= lookup_range`, both
    /// claims are checked by the lookup.
    pub fn mock_run(&self, k: u32) -> (res: Result<MockProver, Error>)
        requires
            (k as nat) < usize::BITS,
            self.range <= self.lookup_range,
        ensures
            res is Err <==> range_check_run_error(k, self.lookup_range as nat) is Some,
            res matches Err(e) ==> range_check_run_error(k, self.lookup_range as nat) == Some(e),
            res matches Ok(p) ==> {
                &&& p.wf()
                &&& p.k == k
                &&& range_check_grid(
                    p,
                    self.value,
                    self.large_value,
                    self.range as nat,
                    self.lookup_range as nat,
                )
                &&& p.satisfied() <==> (range_check_passes(
                    self.value@,
                    self.range as nat,
                    self.range as nat,
                    self.lookup_range as nat,
                ) && range_check_passes(
                    self.large_value@,
                    self.lookup_range as nat,
                    self.range as nat,
                    self.lookup_range as nat,
                ))
            },
    {
        let mut cs = ConstraintSystem::new();
        let config = self.configure(&mut cs);
        let mut prover = match MockProver::new(k, cs, Vec::new()) {
            Ok(p) => p,
            Err(e) => {
                return Err(e);
            },
        };
        let ghost p0 = prover;
        proof {
            assert(seq![config.table.value][0] == 0);
        }
        match self.synthesize(&config, &mut prover) {
            Ok(()) => {},
            Err(e) => {
                return Err(e);
            },
        }
        proof {
            assert forall|r: int| 0 <= r < prover.n implies #[trigger] prover.advice_at(0, r) == if r
                == 0 {
                Some(self.value)
            } else if r == 1 {
                Some(self.large_value)
            } else {
                None::<Felt>
            } by {
                assert(p0.advice_at(0, r) is None);
            }
            assert forall|s: int, r: int|
                0 <= s < 2 && 0 <= r < prover.n implies #[trigger] prover.selector_at(s, r) == (s
                == 1 && (r == 0 || r == 1)) by {
                assert(!p0.selector_at(s, r));
            }
            lemma_range_check_satisfied(prover, self.value, self.large_value, self.range as nat, self.lookup_range as nat);
        }
        Ok(prover)
    }
}

/// A table column holding `0 .. len` contains exactly the values below `len`.
proof fn lemma_in_range_table(p: MockProver, t: int, len: nat, x: nat)
    requires
        p.wf(),
        0 <= t < p.tables@.len(),
        p.tables@[t]@.len() == len,
        0 < len,
        forall|j: int| 0 <= j < len ==> (#[trigger] p.tables@[t]@[j])@ == j,
    ensures
        p.in_table(t, x) <==> x < len,
{
    if x < len {
        assert(p.table_value(t, x as int) == x);
    }
    if p.in_table(t, x) {
        let j = choose|j: int| 0 <= j < p.usable_rows && #[trigger] p.table_value(t, j) == x;
        if j >= len {
            assert(p.tables@[t]@[0]@ == 0);
        }
    }
}

/// The grid of the range-check circuit as `mock_run` leaves it: `value` and
/// `large_value` in rows 0 and 1 of the one advice column, both with the
/// lookup enabled, and the table of `0 .. lookup_range` loaded.
pub open spec fn range_check_grid(p: MockProver, value: Felt, large_value: Felt, range: nat, lookup_range: nat) -> bool {
    &&& p.wf()
    &&& range <= lookup_range
    &&& 0 < lookup_range
    &&& p.cs.gates@ == seq![Gate::RangeProduct { selector: 0, advice: 0, range: range as usize }]
    &&& p.cs.lookups@ == seq![Lookup::Scaled { selector: 1, advice: 0, table: 0 }]
    &&& p.advice@.len() == 1
    &&& p.selectors@.len() == 2
    &&& p.tables@.len() == 1
    &&& p.tables@[0]@.len() == lookup_range
    &&& forall|j: int| 0 <= j < lookup_range ==> (#[trigger] p.tables@[0]@[j])@ == j
    &&& forall|r: int|
        0 <= r < p.n ==> #[trigger] p.advice_at(0, r) == if r == 0 {
            Some(value)
        } else if r == 1 {
            Some(large_value)
        } else {
            None::<Felt>
        }
    &&& forall|s: int, r: int|
        0 <= s < 2 && 0 <= r < p.n ==> #[trigger] p.selector_at(s, r) == (s == 1 && (r == 0
            || r == 1))
    &&& p.copies@.len() == 0
}

/// The grid of the range-check circuit satisfies its constraints exactly
/// when both values pass their checks.
pub proof fn lemma_range_check_satisfied(p: MockProver, value: Felt, large_value: Felt, range: nat, lookup_range: nat)
    requires
        range_check_grid(p, value, large_value, range, lookup_range),
    ensures
        p.satisfied() <==> (range_check_passes(value@, range, range, lookup_range)
            && range_check_passes(large_value@, lookup_range, range, lookup_range)),
{
    assert forall|i: int, r: int|
        0 <= i < p.cs.gates@.len() && 0 <= r < p.n implies #[trigger] p.gate_holds(
        p.cs.gates@[i],
        r,
    ) by {
        assert(!p.selector_at(0, r));
    }
    if value@ < lookup_range && large_value@ < lookup_range {
        assert forall|i: int, r: int|
            0 <= i < p.cs.lookups@.len() && 0 <= r < p.usable_rows implies #[trigger] p.lookup_holds(
            p.cs.lookups@[i],
            r,
        ) by {
            lemma_in_range_table(p, 0, lookup_range, p.scaled_input(1, 0, r));
        }
    }
    if p.satisfied() {
        assert(p.lookup_holds(p.cs.lookups@[0], 0));
        assert(p.lookup_holds(p.cs.lookups@[0], 1));
        lemma_in_range_table(p, 0, lookup_range, value@);
        lemma_in_range_table(p, 0, lookup_range, large_value@);
        assert(p.scaled_input(1, 0, 0) == value@);
        assert(p.scaled_input(1, 0, 1) == large_value@);
    }
}

/// The range-check polynomial vanishes at every value below its range:
/// `v` itself is a factor when `v == 0`, and `(v - v)` is one otherwise.
pub proof fn lemma_range_poly_vanishes_below(v: nat, range: nat)
    requires
        v < modulus(),
        v < range,
    ensures
        range_poly(v, range) == 0,
    decreases range,
{
    if range <= 1 {
        assert(v == 0);
    } else if range == v + 1 {
        crate::field::lemma_fsub_zero(v, v);
        assert(fmul(range_poly(v, v), 0) == 0);
    } else {
        lemma_range_poly_vanishes_below(v, (range - 1) as nat);
        assert(fmul(0, fsub((range - 1) as nat, v)) == 0);
    }
}

/// A range-check gate of a non-empty range holds at a row where the cell it
/// reads is assigned a value below the range. With `MockProver::verify`,
/// which accepts a grid only when every such cell is below its range, the
/// gate at a row holds exactly when its cell is below the range.
pub proof fn lemma_range_gate_holds(p: MockProver, g: Gate, r: int)
    requires
        g is RangeProduct,
        1 <= g->range,
        p.range_cell_below(g, r),
    ensures
        p.gate_holds(g, r),
{
    match g {
        Gate::RangeProduct { selector, advice, range } => {
            if p.selector_at(selector as int, r) {
                let x = p.advice_at(advice as int, r)->Some_0;
                crate::field::lemma_value_bound(x);
                lemma_range_poly_vanishes_below(x@, range as nat);
            }
        },
        Gate::AddNext { .. } => {},
    }
}

/// The range lookup, on any values: with `0 .. lookup_range` loaded into
/// table column `t`, the lookup of `q * v` holds at a usable row exactly when
/// its selector is off there (the input is then 0, a row of the table) or
/// the cell it reads holds a value below `lookup_range` (an unassigned cell
/// counting as 0).
pub proof fn lemma_range_lookup(
    p: MockProver,
    selector: usize,
    advice: usize,
    t: usize,
    lookup_range: nat,
    r: int,
)
    requires
        p.wf(),
        t < p.tables@.len(),
        p.tables@[t as int]@.len() == lookup_range,
        0 < lookup_range,
        forall|j: int| 0 <= j < lookup_range ==> (#[trigger] p.tables@[t as int]@[j])@ == j,
    ensures
        p.lookup_holds(Lookup::Scaled { selector, advice, table: t }, r) <==> (!p.selector_at(
            selector as int,
            r,
        ) || value_or_zero(p.advice_at(advice as int, r)) < lookup_range),
{
    lemma_in_range_table(p, t as int, lookup_range, p.scaled_input(selector, advice, r));
}

/// Every value the range-check gate accepts passes the lookup too, when
/// `range <= lookup_range`: a cell that an enabled range gate reads and that
/// holds a value below `range` (what `MockProver::verify` asks of every such
/// cell) passes the lookup of the same cell in a table of
/// `0 .. lookup_range`.
pub proof fn lemma_gate_values_pass_lookup(
    p: MockProver,
    q_range_check: usize,
    q_lookup: usize,
    advice: usize,
    t: usize,
    range: usize,
    lookup_range: nat,
    r: int,
)
    requires
        p.wf(),
        t < p.tables@.len(),
        p.tables@[t as int]@.len() == lookup_range,
        forall|j: int| 0 <= j < lookup_range ==> (#[trigger] p.tables@[t as int]@[j])@ == j,
        1 <= range <= lookup_range,
        p.selector_at(q_range_check as int, r),
        p.range_cell_below(Gate::RangeProduct { selector: q_range_check, advice, range }, r),
    ensures
        p.lookup_holds(Lookup::Scaled { selector: q_lookup, advice, table: t }, r),
{
    lemma_range_lookup(p, q_lookup, advice, t, lookup_range, r);
}

/// Which check a claim selects: after `assign` of `v` with claim `claimed`
/// at the grid's next free row, a claim below `range` has the range-check
/// gate's selector on there and leaves the lookup's selector as it was, and
/// any claim from `range` on (up to `lookup_range`) has the lookup's
/// selector on and leaves the range-check gate's selector as it was; the row's value
/// cell holds `v` either way.
pub proof fn lemma_claim_selects_check(
    config: RangeCheckConfig,
    old: MockProver,
    new: MockProver,
    v: Felt,
    claimed: nat,
)
    requires
        old.wf(),
        new.wf(),
        new.same_shape(&old),
        config.wf_in(&old.cs),
        old.next_row < old.usable_rows,
        config.assigned(&old, &new, v, claimed),
    ensures
        new.advice_at(config.value.index as int, old.next_row as int) == Some(v),
        claimed < config.range ==> new.selector_at(config.q_range_check as int, old.next_row as int)
            && new.selector_at(config.q_lookup as int, old.next_row as int) == old.selector_at(
            config.q_lookup as int,
            old.next_row as int,
        ),
        config.range <= claimed ==> new.selector_at(config.q_lookup as int, old.next_row as int)
            && new.selector_at(config.q_range_check as int, old.next_row as int)
            == old.selector_at(config.q_range_check as int, old.next_row as int),
{
    let s0 = old.next_row as int;
    assert(new.selector_at(config.q_range_check as int, s0) == (old.selector_at(
        config.q_range_check as int,
        s0,
    ) || claimed < config.range));
    assert(new.selector_at(config.q_lookup as int, s0) == (old.selector_at(
        config.q_lookup as int,
        s0,
    ) || config.range <= claimed));
}

} // verus!
