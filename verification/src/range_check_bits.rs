//! A range check that also pins down a value's bit length: the pair
//! `(num_bits, value)` is looked up in a table that lists every value below
//! `2^max_bits` beside its number of bits (0 counting as a one-bit value).
use crate::field::{modulus, Felt};
use crate::mock_prover::{
    opt_value,
    setup_error,
    table_error,
    usable_rows_for,
    value_or_zero,
    MockProver,
};
use crate::plonk::{Column, ColumnKind, ConstraintSystem, Error, Lookup};
use vstd::arithmetic::power2::{lemma2_to64, lemma_pow2_pos, lemma_pow2_unfold, pow2};
use vstd::prelude::*;

verus! {

/// The number of bits of `v`; 0, like 1, takes one bit.
pub open spec fn bit_length(v: nat) -> nat
    decreases v,
{
    if v <= 1 {
        1
    } else {
        1 + bit_length(v / 2)
    }
}

/// A value from `2^(nb-1)` up to below `2^nb` has `nb` bits.
pub proof fn lemma_bit_length(v: nat, nb: nat)
    requires
        1 <= nb,
        pow2((nb - 1) as nat) <= v < pow2(nb),
    ensures
        bit_length(v) == nb,
    decreases nb,
{
    lemma_pow2_unfold(nb);
    if nb == 1 {
        lemma2_to64();
    } else {
        lemma_pow2_unfold((nb - 1) as nat);
        lemma_pow2_pos((nb - 2) as nat);
        lemma_bit_length(v / 2, (nb - 1) as nat);
    }
}

/// A positive value with `nb` bits lies from `2^(nb-1)` up to below `2^nb`.
pub proof fn lemma_bit_length_bounds(v: nat)
    requires
        1 <= v,
    ensures
        1 <= bit_length(v),
        pow2((bit_length(v) - 1) as nat) <= v < pow2(bit_length(v)),
    decreases v,
{
    if v <= 1 {
        lemma2_to64();
    } else {
        lemma_bit_length_bounds(v / 2);
        let nb = bit_length(v);
        lemma_pow2_unfold(nb);
        lemma_pow2_unfold((nb - 1) as nat);
    }
}

/// A positive value has `nb` bits exactly when it lies from `2^(nb-1)` up
/// to below `2^nb`.
pub proof fn lemma_bit_length_iff(v: nat, nb: nat)
    requires
        1 <= v,
    ensures
        bit_length(v) == nb <==> (1 <= nb && pow2((nb - 1) as nat) <= v < pow2(nb)),
{
    lemma_bit_length_bounds(v);
    if 1 <= nb && pow2((nb - 1) as nat) <= v < pow2(nb) {
        lemma_bit_length(v, nb);
    }
}

/// The two table columns: bit lengths and values.
#[derive(Clone, Copy, Debug)]
pub struct RangeTableConfig {
    pub num_bits: usize,
    pub value: usize,
    pub max_bits: usize,
}

impl RangeTableConfig {
    /// Declares the two table columns.
    pub fn configure(meta: &mut ConstraintSystem, max_bits: usize) -> (config: Self)
        requires
            old(meta).wf(),
            old(meta).num_tables + 2 <= usize::MAX,
        ensures
            final(meta).wf(),
            config.num_bits == old(meta).num_tables,
            config.value == old(meta).num_tables + 1,
            config.max_bits == max_bits,
            final(meta).num_advice == old(meta).num_advice,
            final(meta).num_instance == old(meta).num_instance,
            final(meta).num_selectors == old(meta).num_selectors,
            final(meta).num_tables == old(meta).num_tables + 2,
            final(meta).same_constraints(old(meta)),
    {
        let num_bits = meta.lookup_table_column();
        let value = meta.lookup_table_column();
        RangeTableConfig { num_bits, value, max_bits }
    }

    /// Loads the rows `(1, 0)` and then `(nb, v)` for each `nb` from 1 to
    /// `max_bits` and each `v` from `2^(nb-1)` up to below `2^nb`: row `j`
    /// holds `j` and its bit length.
    pub fn load(&self, prover: &mut MockProver) -> (res: Result<(), Error>)
        requires
            old(prover).wf(),
            self.num_bits < old(prover).cs.num_tables,
            self.value < old(prover).cs.num_tables,
            self.num_bits != self.value,
            self.max_bits < 64,
        ensures
            final(prover).wf(),
            res is Err <==> table_error(
                old(prover),
                seq![self.num_bits, self.value],
                pow2(self.max_bits as nat),
            ) is Some,
            res matches Err(e) ==> table_error(
                old(prover),
                seq![self.num_bits, self.value],
                pow2(self.max_bits as nat),
            ) == Some(e) && *final(prover) == *old(prover),
            res is Ok ==> {
                &&& final(prover).same_shape(old(prover))
                &&& final(prover).advice@ == old(prover).advice@
                &&& final(prover).selectors@ == old(prover).selectors@
                &&& final(prover).instance@ == old(prover).instance@
                &&& final(prover).copies@ == old(prover).copies@
                &&& final(prover).next_row == old(prover).next_row
                &&& final(prover).tables@.len() == old(prover).tables@.len()
                &&& forall|t: int|
                    0 <= t < final(prover).tables@.len() && t != self.num_bits && t != self.value
                        ==> #[trigger] final(prover).tables@[t] == old(prover).tables@[t]
                &&& final(prover).tables@[self.value as int]@.len() == pow2(self.max_bits as nat)
                &&& final(prover).tables@[self.num_bits as int]@.len() == pow2(
                    self.max_bits as nat,
                )
                &&& forall|j: int|
                    0 <= j < pow2(self.max_bits as nat)
                        ==> (#[trigger] final(prover).tables@[self.value as int]@[j])@ == j
                &&& forall|j: int|
                    0 <= j < pow2(self.max_bits as nat)
                        ==> (#[trigger] final(prover).tables@[self.num_bits as int]@[j])@
                        == bit_length(j as nat)
            },
    {
        proof {
            assert(seq![self.num_bits, self.value][0] == self.num_bits);
            assert(seq![self.num_bits, self.value][1] == self.value);
            lemma_pow2_pos(self.max_bits as nat);
            lemma2_to64();
        }
        if prover.tables[self.num_bits].len() > 0 || prover.tables[self.value].len() > 0 {
            return Err(Error::Synthesis);
        }
        let mut nb_col: Vec<Felt> = Vec::new();
        let mut v_col: Vec<Felt> = Vec::new();
        nb_col.push(Felt::one());
        v_col.push(Felt::zero());
        let mut num_bits: usize = 1;
        while num_bits <= self.max_bits
            invariant
                *prover == *old(prover),
                prover.wf(),
                self.num_bits < prover.tables@.len(),
                self.value < prover.tables@.len(),
                prover.tables@[self.num_bits as int]@.len() == 0,
                prover.tables@[self.value as int]@.len() == 0,
                self.max_bits < 64,
                1 <= num_bits <= self.max_bits + 1,
                nb_col@.len() == v_col@.len(),
                nb_col@.len() == pow2((num_bits - 1) as nat),
                nb_col@.len() < prover.usable_rows,
                forall|j: int| 0 <= j < v_col@.len() ==> (#[trigger] v_col@[j])@ == j,
                forall|j: int|
                    0 <= j < nb_col@.len() ==> (#[trigger] nb_col@[j])@ == bit_length(j as nat),
            decreases self.max_bits + 1 - num_bits,
        {
            let lo = nb_col.len();
            let mut count: usize = 0;
            proof {
                lemma_pow2_unfold(num_bits as nat);
            }
            while count < lo
                invariant
                    *prover == *old(prover),
                    prover.wf(),
                    self.num_bits < prover.tables@.len(),
                    self.value < prover.tables@.len(),
                    prover.tables@[self.num_bits as int]@.len() == 0,
                    prover.tables@[self.value as int]@.len() == 0,
                    1 <= num_bits <= self.max_bits,
                    self.max_bits < 64,
                    lo == pow2((num_bits - 1) as nat),
                    pow2(num_bits as nat) == 2 * lo,
                    0 <= count <= lo,
                    nb_col@.len() == v_col@.len(),
                    nb_col@.len() == lo + count,
                    nb_col@.len() < prover.usable_rows,
                    forall|j: int| 0 <= j < v_col@.len() ==> (#[trigger] v_col@[j])@ == j,
                    forall|j: int|
                        0 <= j < nb_col@.len() ==> (#[trigger] nb_col@[j])@ == bit_length(
                            j as nat,
                        ),
                decreases lo - count,
            {
                let v = lo + count;
                proof {
                    lemma_bit_length(v as nat, num_bits as nat);
                }
                nb_col.push(Felt::from_u64(num_bits as u64));
                v_col.push(Felt::from_u64(v as u64));
                if nb_col.len() >= prover.usable_rows {
                    proof {
                        assert(pow2(self.max_bits as nat) >= pow2(num_bits as nat)) by {
                            if num_bits < self.max_bits {
                                vstd::arithmetic::power2::lemma_pow2_strictly_increases(
                                    num_bits as nat,
                                    self.max_bits as nat,
                                );
                            }
                        }
                    }
                    return Err(Error::NotEnoughRowsAvailable { current_k: prover.k });
                }
                count = count + 1;
            }
            num_bits = num_bits + 1;
        }
        proof {
            assert(num_bits == self.max_bits + 1);
        }
        prover.assign_table_pair(self.num_bits, self.value, nb_col, v_col)
    }
}

/// The columns, selectors and table of the bit-length range check.
#[derive(Clone, Copy, Debug)]
pub struct RangeCheckConfig {
    pub value: Column,
    pub num_bits: Column,
    pub q_range_check: usize,
    pub q_lookup: usize,
    pub table: RangeTableConfig,
}

impl RangeCheckConfig {
    /// The configuration's columns, selectors and table are declared in `cs`.
    pub open spec fn wf_in(&self, cs: &ConstraintSystem) -> bool {
        &&& self.value.kind == ColumnKind::Advice
        &&& self.value.index < cs.num_advice
        &&& self.num_bits.kind == ColumnKind::Advice
        &&& self.num_bits.index < cs.num_advice
        &&& self.value.index != self.num_bits.index
        &&& self.q_range_check < cs.num_selectors
        &&& self.q_lookup < cs.num_selectors
        &&& self.table.num_bits < cs.num_tables
        &&& self.table.value < cs.num_tables
        &&& self.table.num_bits != self.table.value
    }

    /// Declares the selectors and the table, and the lookup of
    /// `(q * num_bits + (1 - q) * 1, q * value + (1 - q) * 0)` in the table:
    /// where the lookup is off its input is `(1, 0)`, a row of the table.
    pub fn configure(
        meta: &mut ConstraintSystem,
        value: Column,
        num_bits: Column,
        max_bits: usize,
    ) -> (config: Self)
        requires
            old(meta).wf(),
            value.kind == ColumnKind::Advice,
            value.index < old(meta).num_advice,
            num_bits.kind == ColumnKind::Advice,
            num_bits.index < old(meta).num_advice,
            value.index != num_bits.index,
            old(meta).num_selectors + 2 <= usize::MAX,
            old(meta).num_tables + 2 <= usize::MAX,
        ensures
            final(meta).wf(),
            config.wf_in(final(meta)),
            config.value == value,
            config.num_bits == num_bits,
            config.q_range_check == old(meta).num_selectors,
            config.q_lookup == old(meta).num_selectors + 1,
            config.table.num_bits == old(meta).num_tables,
            config.table.value == old(meta).num_tables + 1,
            config.table.max_bits == max_bits,
            final(meta).num_advice == old(meta).num_advice,
            final(meta).num_instance == old(meta).num_instance,
            final(meta).num_selectors == old(meta).num_selectors + 2,
            final(meta).num_tables == old(meta).num_tables + 2,
            final(meta).equality@ == old(meta).equality@,
            final(meta).gates@ == old(meta).gates@,
            final(meta).lookups@ == old(meta).lookups@.push(
                Lookup::Pair {
                    selector: config.q_lookup,
                    first: num_bits.index,
                    second: value.index,
                    first_table: config.table.num_bits,
                    second_table: config.table.value,
                    first_default: 1,
                    second_default: 0,
                },
            ),
    {
        let q_range_check = meta.selector();
        let q_lookup = meta.complex_selector();
        let table = RangeTableConfig::configure(meta, max_bits);
        meta.lookup(
            Lookup::Pair {
                selector: q_lookup,
                first: num_bits.index,
                second: value.index,
                first_table: table.num_bits,
                second_table: table.value,
                first_default: 1,
                second_default: 0,
            },
        );
        RangeCheckConfig { value, num_bits, q_range_check, q_lookup, table }
    }

    /// Assigns `num_bits` and `v` side by side in a region of one row, with
    /// the lookup enabled.
    pub fn assign(&self, prover: &mut MockProver, v: Felt, num_bits: u8) -> (res: Result<
        (),
        Error,
    >)
        requires
            old(prover).wf(),
            self.wf_in(&old(prover).cs),
        ensures
            final(prover).wf(),
            final(prover).same_shape(old(prover)),
            final(prover).instance@ == old(prover).instance@,
            final(prover).tables@ == old(prover).tables@,
            res is Ok <==> old(prover).next_row < old(prover).usable_rows,
            res matches Err(e) ==> e == (Error::NotEnoughRowsAvailable {
                current_k: old(prover).k,
            }) && *final(prover) == *old(prover),
            res is Ok ==> {
                let s0 = old(prover).next_row as int;
                &&& final(prover).next_row == s0 + 1
                &&& final(prover).copies@ == old(prover).copies@
                &&& forall|c: int, r: int|
                    0 <= c < final(prover).advice@.len() && 0 <= r < final(prover).n
                        ==> opt_value(#[trigger] final(prover).advice_at(c, r)) == if c
                        == self.value.index && r == s0 {
                        Some(v@)
                    } else if c == self.num_bits.index && r == s0 {
                        Some(num_bits as nat)
                    } else {
                        opt_value(old(prover).advice_at(c, r))
                    }
                &&& forall|s: int, r: int|
                    0 <= s < final(prover).selectors@.len() && 0 <= r < final(prover).n
                        ==> #[trigger] final(prover).selector_at(s, r) == (old(prover).selector_at(s, r)
                        || (s == self.q_lookup && r == s0))
            },
    {
        let offset = prover.next_row;
        let ghost p0 = *prover;
        match prover.enable_selector(self.q_lookup, offset) {
            Ok(()) => {},
            Err(e) => {
                return Err(e);
            },
        }
        let ghost p1 = *prover;
        let nb = Felt::from_u64(num_bits as u64);
        match prover.assign_advice(self.num_bits, offset, nb) {
            Ok(_) => {},
            Err(e) => {
                return Err(e);
            },
        }
        let ghost p2 = *prover;
        match prover.assign_advice(self.value, offset, v) {
            Ok(_) => {},
            Err(e) => {
                return Err(e);
            },
        }
        let ghost p3 = *prover;
        prover.next_row = offset + 1;
        proof {
            assert forall|c: int, r: int|
                0 <= c < prover.advice@.len() && 0 <= r < prover.n implies opt_value(
                #[trigger] prover.advice_at(c, r),
            ) == if c == self.value.index && r == offset {
                Some(v@)
            } else if c == self.num_bits.index && r == offset {
                Some(num_bits as nat)
            } else {
                opt_value(p0.advice_at(c, r))
            } by {
                assert(prover.advice_at(c, r) == p3.advice_at(c, r));
                assert(p1.advice_at(c, r) == p0.advice_at(c, r));
            }
            assert forall|s2: int, r2: int|
                0 <= s2 < prover.selectors@.len() && 0 <= r2 < prover.n implies #[trigger] prover.selector_at(
                s2,
                r2,
            ) == (p0.selector_at(s2, r2) || (s2 == self.q_lookup && r2 == offset)) by {
                assert(prover.selector_at(s2, r2) == p1.selector_at(s2, r2));
            }
        }
        Ok(())
    }
}

/// Why running the bit-length circuit on `2^k` rows fails, if it does.
pub open spec fn bits_run_error(k: u32, max_bits: nat) -> Option<Error> {
    match setup_error(k, 0, Seq::<Vec<Felt>>::empty()) {
        Some(e) => Some(e),
        None => if pow2(max_bits) >= usable_rows_for(k) {
            Some(Error::NotEnoughRowsAvailable { current_k: k })
        } else {
            None
        },
    }
}

/// The bit-length circuit as a whole: the table loaded and `value` assigned
/// beside its claimed bit count `num_bits`.
#[derive(Clone, Copy, Debug)]
pub struct RangeCheckCircuit {
    pub value: Felt,
    pub num_bits: u8,
    pub max_bits: usize,
}

impl RangeCheckCircuit {
    /// Declares the value and bit-count columns and the check on them.
    pub fn configure(&self, meta: &mut ConstraintSystem) -> (config: RangeCheckConfig)
        requires
            old(meta).wf(),
            old(meta).num_advice + 2 <= usize::MAX,
            old(meta).num_selectors + 2 <= usize::MAX,
            old(meta).num_tables + 2 <= usize::MAX,
        ensures
            final(meta).wf(),
            config.wf_in(final(meta)),
            config.value == (Column { kind: ColumnKind::Advice, index: old(meta).num_advice }),
            config.num_bits == (Column {
                kind: ColumnKind::Advice,
                index: (old(meta).num_advice + 1) as usize,
            }),
            config.q_range_check == old(meta).num_selectors,
            config.q_lookup == old(meta).num_selectors + 1,
            config.table.num_bits == old(meta).num_tables,
            config.table.value == old(meta).num_tables + 1,
            config.table.max_bits == self.max_bits,
            final(meta).num_advice == old(meta).num_advice + 2,
            final(meta).num_instance == old(meta).num_instance,
            final(meta).num_selectors == old(meta).num_selectors + 2,
            final(meta).num_tables == old(meta).num_tables + 2,
            final(meta).equality@ == old(meta).equality@,
            final(meta).gates@ == old(meta).gates@,
            final(meta).lookups@ == old(meta).lookups@.push(
                Lookup::Pair {
                    selector: config.q_lookup,
                    first: config.num_bits.index,
                    second: config.value.index,
                    first_table: config.table.num_bits,
                    second_table: config.table.value,
                    first_default: 1,
                    second_default: 0,
                },
            ),
    {
        let value = meta.advice_column();
        let num_bits = meta.advice_column();
        RangeCheckConfig::configure(meta, value, num_bits, self.max_bits)
    }

    /// Runs the circuit on a fresh grid of `2^k` rows, as `MockProver::run`
    /// does: loads the table, then assigns `value` and `num_bits`. The grid
    /// it returns satisfies the circuit exactly when `value` lies below
    /// `2^max_bits` and has `num_bits` bits.
    pub fn mock_run(&self, k: u32) -> (res: Result<MockProver, Error>)
        requires
            (k as nat) < usize::BITS,
            self.max_bits < 64,
        ensures
            res is Err <==> bits_run_error(k, self.max_bits as nat) is Some,
            res matches Err(e) ==> bits_run_error(k, self.max_bits as nat) == Some(e),
            res matches Ok(p) ==> {
                &&& p.wf()
                &&& p.k == k
                &&& bits_grid(p, self.value@, self.num_bits as nat, self.max_bits as nat)
                &&& p.satisfied() <==> (self.value@ < pow2(self.max_bits as nat)
                    && self.num_bits as nat == bit_length(self.value@))
            },
    {
        let mut cs = ConstraintSystem::new();
        let config = self.configure(&mut cs);
        let mut prover = match MockProver::new(k, cs, Vec::new()) {
            Ok(p) => p,
            Err(e) => {
                return Err(e);
            },
        };
        let ghost p0 = prover;
        proof {
            assert(seq![config.table.num_bits, config.table.value][0] == 0);
            assert(seq![config.table.num_bits, config.table.value][1] == 1);
            assert(p0.tables@[0]@.len() == 0);
            assert(p0.tables@[1]@.len() == 0);
            lemma_pow2_pos(self.max_bits as nat);
            assert(p0.usable_rows == usable_rows_for(k));
        }
        match self.synthesize(&config, &mut prover) {
            Ok(()) => {},
            Err(e) => {
                return Err(e);
            },
        }
        proof {
            crate::field::lemma_value_bound(self.value);
            assert forall|c: int, r: int| 0 <= c < 2 && 0 <= r < prover.n implies opt_value(
                #[trigger] prover.advice_at(c, r),
            ) == if r == 0 {
                if c == 0 {
                    Some(self.value@)
                } else {
                    Some(self.num_bits as nat)
                }
            } else {
                None::<nat>
            } by {
                assert(p0.advice_at(c, r) is None);
            }
            assert forall|s: int, r: int|
                0 <= s < 2 && 0 <= r < prover.n implies #[trigger] prover.selector_at(s, r) == (s
                == 1 && r == 0) by {
                assert(!p0.selector_at(s, r));
            }
            lemma_bits_satisfied(prover, self.value@, self.num_bits as nat, self.max_bits as nat);
        }
        Ok(prover)
    }

    /// Loads the table and assigns `value` beside `num_bits`.
    pub fn synthesize(&self, config: &RangeCheckConfig, prover: &mut MockProver) -> (res: Result<
        (),
        Error,
    >)
        requires
            old(prover).wf(),
            config.wf_in(&old(prover).cs),
            config.table.max_bits == self.max_bits,
            self.max_bits < 64,
        ensures
            final(prover).wf(),
            final(prover).same_shape(old(prover)),
            res is Ok <==> table_error(
                old(prover),
                seq![config.table.num_bits, config.table.value],
                pow2(self.max_bits as nat),
            ) is None && old(prover).next_row < old(prover).usable_rows,
            res matches Err(e) ==> match table_error(
                old(prover),
                seq![config.table.num_bits, config.table.value],
                pow2(self.max_bits as nat),
            ) {
                Some(te) => e == te,
                None => e == (Error::NotEnoughRowsAvailable { current_k: old(prover).k }),
            },
            res is Ok ==> {
                let s0 = old(prover).next_row as int;
                &&& final(prover).next_row == s0 + 1
                &&& final(prover).copies@ == old(prover).copies@
                &&& final(prover).instance@ == old(prover).instance@
                &&& final(prover).tables@[config.table.value as int]@.len() == pow2(
                    self.max_bits as nat,
                )
                &&& final(prover).tables@[config.table.num_bits as int]@.len() == pow2(
                    self.max_bits as nat,
                )
                &&& forall|j: int|
                    0 <= j < pow2(self.max_bits as nat)
                        ==> (#[trigger] final(prover).tables@[config.table.value as int]@[j])@
                        == j
                &&& forall|j: int|
                    0 <= j < pow2(self.max_bits as nat)
                        ==> (#[trigger] final(prover).tables@[config.table.num_bits as int]@[j])@
                        == bit_length(j as nat)
                &&& forall|c: int, r: int|
                    0 <= c < final(prover).advice@.len() && 0 <= r < final(prover).n
                        ==> opt_value(#[trigger] final(prover).advice_at(c, r)) == if c
                        == config.value.index && r == s0 {
                        Some(self.value@)
                    } else if c == config.num_bits.index && r == s0 {
                        Some(self.num_bits as nat)
                    } else {
                        opt_value(old(prover).advice_at(c, r))
                    }
                &&& forall|s: int, r: int|
                    0 <= s < final(prover).selectors@.len() && 0 <= r < final(prover).n
                        ==> #[trigger] final(prover).selector_at(s, r) == (old(prover).selector_at(s, r)
                        || (s == config.q_lookup && r == s0))
            },
    {
        let ghost p0 = *prover;
        match config.table.load(prover) {
            Ok(()) => {},
            Err(e) => {
                return Err(e);
            },
        }
        let ghost p1 = *prover;
        match config.assign(prover, self.value, self.num_bits) {
            Ok(()) => {},
            Err(e) => {
                return Err(e);
            },
        }
        proof {
            let s0 = p0.next_row as int;
            assert forall|c: int, r: int|
                0 <= c < prover.advice@.len() && 0 <= r < prover.n implies opt_value(
                #[trigger] prover.advice_at(c, r),
            ) == if c == config.value.index && r == s0 {
                Some(self.value@)
            } else if c == config.num_bits.index && r == s0 {
                Some(self.num_bits as nat)
            } else {
                opt_value(p0.advice_at(c, r))
            } by {
                assert(p1.advice_at(c, r) == p0.advice_at(c, r));
            }
            assert forall|s: int, r: int|
                0 <= s < prover.selectors@.len() && 0 <= r < prover.n implies #[trigger] prover.selector_at(
                s,
                r,
            ) == (p0.selector_at(s, r) || (s == config.q_lookup && r == s0)) by {
                assert(p1.selector_at(s, r) == p0.selector_at(s, r));
            }
        }
        Ok(())
    }
}

/// The table of bit lengths holds `(bit_length(y), y)` for every `y` below
/// its length, and nothing else.
proof fn lemma_in_bits_table(p: MockProver, len: nat, x: nat, y: nat)
    requires
        p.wf(),
        p.tables@.len() == 2,
        p.tables@[0]@.len() == len,
        p.tables@[1]@.len() == len,
        0 < len,
        forall|j: int| 0 <= j < len ==> (#[trigger] p.tables@[1]@[j])@ == j,
        forall|j: int| 0 <= j < len ==> (#[trigger] p.tables@[0]@[j])@ == bit_length(j as nat),
    ensures
        p.in_table_pair(0, 1, x, y) <==> (y < len && x == bit_length(y)),
{
    if y < len && x == bit_length(y) {
        assert(p.table_value(0, y as int) == x);
        assert(p.table_value(1, y as int) == y);
    }
    if p.in_table_pair(0, 1, x, y) {
        let j = choose|j: int|
            0 <= j < p.usable_rows && #[trigger] p.table_value(0, j) == x && p.table_value(1, j)
                == y;
        if j >= len {
            assert(p.tables@[1]@[0]@ == 0);
            assert(p.tables@[0]@[0]@ == bit_length(0));
        }
    }
}

/// The grid of the bit-length circuit as `mock_run` leaves it: `value` and
/// `num_bits` side by side in row 0 with the lookup enabled, and the table of
/// every value below `2^max_bits` beside its bit length loaded.
pub open spec fn bits_grid(p: MockProver, value: nat, num_bits: nat, max_bits: nat) -> bool {
    &&& p.wf()
    &&& max_bits < 64
    &&& value < modulus()
    &&& num_bits < 256
    &&& p.cs.gates@.len() == 0
    &&& p.cs.lookups@ == seq![
        Lookup::Pair {
            selector: 1,
            first: 1,
            second: 0,
            first_table: 0,
            second_table: 1,
            first_default: 1,
            second_default: 0,
        },
    ]
    &&& p.advice@.len() == 2
    &&& p.selectors@.len() == 2
    &&& p.tables@.len() == 2
    &&& p.tables@[0]@.len() == pow2(max_bits)
    &&& p.tables@[1]@.len() == pow2(max_bits)
    &&& forall|j: int| 0 <= j < pow2(max_bits) ==> (#[trigger] p.tables@[1]@[j])@ == j
    &&& forall|j: int|
        0 <= j < pow2(max_bits) ==> (#[trigger] p.tables@[0]@[j])@ == bit_length(j as nat)
    &&& forall|c: int, r: int|
        0 <= c < 2 && 0 <= r < p.n ==> opt_value(#[trigger] p.advice_at(c, r)) == if r == 0 {
            if c == 0 {
                Some(value)
            } else {
                Some(num_bits)
            }
        } else {
            None::<nat>
        }
    &&& forall|s: int, r: int|
        0 <= s < 2 && 0 <= r < p.n ==> #[trigger] p.selector_at(s, r) == (s == 1 && r == 0)
    &&& p.copies@.len() == 0
}

/// The grid of the bit-length circuit satisfies its constraints exactly when
/// `(num_bits, value)` is a row of the table.
pub proof fn lemma_bits_satisfied(p: MockProver, value: nat, num_bits: nat, max_bits: nat)
    requires
        bits_grid(p, value, num_bits, max_bits),
    ensures
        p.satisfied() <==> (value < pow2(max_bits) && num_bits == bit_length(value)),
{
    lemma_pow2_pos(max_bits);
    lemma2_to64();
    if value < pow2(max_bits) && num_bits == bit_length(value) {
        assert forall|i: int, r: int|
            0 <= i < p.cs.lookups@.len() && 0 <= r < p.usable_rows implies #[trigger] p.lookup_holds(
            p.cs.lookups@[i],
            r,
        ) by {
            if r == 0 {
                assert(opt_value(p.advice_at(0, 0)) == Some(value));
                assert(opt_value(p.advice_at(1, 0)) == Some(num_bits));
                lemma_in_bits_table(p, pow2(max_bits), num_bits, value);
            } else {
                vstd::arithmetic::div_mod::lemma_small_mod(1, modulus());
                vstd::arithmetic::div_mod::lemma_small_mod(0, modulus());
                lemma_in_bits_table(p, pow2(max_bits), 1, 0);
            }
        }
    }
    if p.satisfied() {
        assert(p.lookup_holds(p.cs.lookups@[0], 0));
        assert(opt_value(p.advice_at(0, 0)) == Some(value));
        assert(opt_value(p.advice_at(1, 0)) == Some(num_bits));
        lemma_in_bits_table(p, pow2(max_bits), num_bits, value);
    }
}

/// The bit-length lookup, on any values: with every value below
/// `2^max_bits` loaded into table column 1 beside its bit length in table
/// column 0, the lookup holds at a row exactly when its selector is off
/// there (the input is then `(1, 0)`, a row of the table) or the cells it
/// reads form a row of the table: the value (an unassigned cell counting as
/// 0) is below `2^max_bits` and the claimed number of bits is its bit
/// length.
pub proof fn lemma_bits_lookup(
    p: MockProver,
    selector: usize,
    value: usize,
    num_bits: usize,
    max_bits: nat,
    r: int,
)
    requires
        p.wf(),
        max_bits < 64,
        p.tables@.len() == 2,
        p.tables@[0]@.len() == pow2(max_bits),
        p.tables@[1]@.len() == pow2(max_bits),
        forall|j: int| 0 <= j < pow2(max_bits) ==> (#[trigger] p.tables@[1]@[j])@ == j,
        forall|j: int|
            0 <= j < pow2(max_bits) ==> (#[trigger] p.tables@[0]@[j])@ == bit_length(j as nat),
    ensures
        p.lookup_holds(
            Lookup::Pair {
                selector,
                first: num_bits,
                second: value,
                first_table: 0,
                second_table: 1,
                first_default: 1,
                second_default: 0,
            },
            r,
        ) <==> (!p.selector_at(selector as int, r) || (value_or_zero(p.advice_at(value as int, r))
            < pow2(max_bits) && value_or_zero(p.advice_at(num_bits as int, r)) == bit_length(
            value_or_zero(p.advice_at(value as int, r)),
        ))),
{
    lemma_pow2_pos(max_bits);
    if p.selector_at(selector as int, r) {
        lemma_in_bits_table(
            p,
            pow2(max_bits),
            value_or_zero(p.advice_at(num_bits as int, r)),
            value_or_zero(p.advice_at(value as int, r)),
        );
    } else {
        vstd::arithmetic::div_mod::lemma_small_mod(1, modulus());
        vstd::arithmetic::div_mod::lemma_small_mod(0, modulus());
        lemma_in_bits_table(p, pow2(max_bits), 1, 0);
    }
}

} // verus!
