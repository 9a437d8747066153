//! The grid that a circuit's synthesis fills in, and the check that it
//! satisfies the circuit's constraint system.
use crate::field::{fadd, fmul, fsub, modulus, Felt};
use crate::plonk::{CellRef, Column, ColumnKind, ConstraintSystem, Error, Gate, Lookup};
use vstd::arithmetic::power2::pow2;
use vstd::prelude::*;

verus! {

/// The rows a grid keeps back for blinding, `ConstraintSystem::blinding_rows`:
/// every gate and lookup of this crate queries an advice column at no more
/// than 3 rotations, so this is `max(3, q) + 2 = 5` for every system
/// (`lemma_blinding_rows`).
pub open spec fn blinding_factors() -> nat {
    5
}

/// Every constraint system of this crate keeps back `blinding_factors()`
/// rows for blinding.
pub proof fn lemma_blinding_rows(cs: &ConstraintSystem)
    ensures
        cs.blinding_rows() == blinding_factors(),
{
}

/// The fewest rows a grid may have: the blinding rows, one row for
/// `l_last`, one for `l_0` and one usable row.
pub open spec fn minimum_rows() -> nat {
    blinding_factors() + 3
}

/// The value of an advice cell, an unassigned cell counting as 0.
pub open spec fn value_or_zero(o: Option<Felt>) -> nat {
    match o {
        Some(x) => x@,
        None => 0,
    }
}

/// The value of an advice cell, if it was assigned.
pub open spec fn opt_value(o: Option<Felt>) -> Option<nat> {
    match o {
        Some(x) => Some(x@),
        None => None,
    }
}

/// The range-check polynomial `v * (1 - v) * (2 - v) * ... * (range - 1 - v)`:
/// `v` times the factor `(i - v)` for each `i` in `1 .. range`.
pub open spec fn range_poly(v: nat, range: nat) -> nat
    decreases range,
{
    if range <= 1 {
        v % modulus()
    } else {
        fmul(range_poly(v, (range - 1) as nat), fsub((range - 1) as nat, v))
    }
}

/// A place where a grid fails its constraint system.
#[derive(Clone, Copy, Debug, PartialEq, Eq, Structural)]
pub enum Failure {
    /// Gate `gate` of the constraint system does not hold at row `row`.
    Constraint { gate: usize, row: usize },
    /// Lookup `lookup` does not hold at usable row `row`.
    Lookup { lookup: usize, row: usize },
    /// Copy constraint `copy`, counted in the order they were made, does
    /// not hold.
    Permutation { copy: usize },
}

/// A cell that synthesis assigned, with its value.
#[derive(Clone, Copy, Debug)]
pub struct AssignedCell {
    pub cell: CellRef,
    pub value: Felt,
}

/// The grid of a circuit under synthesis, with the constraint system it is
/// checked against.
pub struct MockProver {
    /// The grid has `2^k` rows.
    pub k: u32,
    pub n: usize,
    /// Rows `0 .. usable_rows` may be assigned; the rest are blinding rows.
    pub usable_rows: usize,
    pub cs: ConstraintSystem,
    /// Advice cells by column, then row; `None` where nothing was assigned.
    pub advice: Vec<Vec<Option<Felt>>>,
    /// Instance cells by column, then row: the public input, padded with 0.
    pub instance: Vec<Vec<Felt>>,
    /// Whether each selector is enabled, by selector, then row.
    pub selectors: Vec<Vec<bool>>,
    /// The values loaded into each lookup-table column from row 0 on; the
    /// remaining usable rows repeat the value at row 0.
    pub tables: Vec<Vec<Felt>>,
    /// The copy constraints, in the order they were made.
    pub copies: Vec<(CellRef, CellRef)>,
    /// The first row that no region has used yet; regions are placed one
    /// after the other.
    pub next_row: usize,
}

impl MockProver {
    pub open spec fn advice_at(&self, c: int, r: int) -> Option<Felt> {
        self.advice@[c]@[r]
    }

    pub open spec fn selector_at(&self, s: int, r: int) -> bool {
        self.selectors@[s]@[r]
    }

    pub open spec fn instance_at(&self, c: int, r: int) -> nat {
        self.instance@[c]@[r]@
    }

    /// The value in row `j` of table column `t`.
    pub open spec fn table_value(&self, t: int, j: int) -> nat {
        let col = self.tables@[t]@;
        if j < col.len() {
            col[j]@
        } else if col.len() > 0 {
            col[0]@
        } else {
            0
        }
    }

    /// The value of a cell: an advice cell's if assigned, an instance cell's
    /// always.
    pub open spec fn cell_value(&self, cell: CellRef) -> Option<nat> {
        match cell.column.kind {
            ColumnKind::Advice => opt_value(self.advice_at(cell.column.index as int, cell.row as int)),
            ColumnKind::Instance => Some(
                self.instance_at(cell.column.index as int, cell.row as int),
            ),
        }
    }

    /// A cell inside the grid, in a declared column and a usable row.
    pub open spec fn cell_wf(&self, cell: CellRef) -> bool {
        &&& self.cs.column_wf(cell.column)
        &&& cell.row < self.usable_rows
    }

    pub open spec fn copy_wf(&self, c: (CellRef, CellRef)) -> bool {
        &&& self.cell_wf(c.0)
        &&& self.cell_wf(c.1)
        &&& self.cs.equality_enabled(c.0.column)
        &&& self.cs.equality_enabled(c.1.column)
    }

    /// The shape of the grid matches its constraint system.
    pub open spec fn wf(&self) -> bool {
        &&& self.n == pow2(self.k as nat)
        &&& self.n >= minimum_rows()
        &&& self.n < usize::MAX
        &&& self.usable_rows == self.n - (blinding_factors() + 1)
        &&& self.cs.wf()
        &&& self.advice@.len() == self.cs.num_advice
        &&& forall|c: int|
            0 <= c < self.advice@.len() ==> (#[trigger] self.advice@[c])@.len() == self.n
        &&& forall|c: int, r: int|
            0 <= c < self.advice@.len() && self.usable_rows <= r < self.n ==> (
            #[trigger] self.advice@[c]@[r]) is None
        &&& self.instance@.len() == self.cs.num_instance
        &&& forall|c: int|
            0 <= c < self.instance@.len() ==> (#[trigger] self.instance@[c])@.len() == self.n
        &&& self.selectors@.len() == self.cs.num_selectors
        &&& forall|s: int|
            0 <= s < self.selectors@.len() ==> (#[trigger] self.selectors@[s])@.len() == self.n
        &&& forall|s: int, r: int|
            0 <= s < self.selectors@.len() && self.usable_rows <= r < self.n ==> !(
            #[trigger] self.selectors@[s]@[r])
        &&& self.tables@.len() == self.cs.num_tables
        &&& forall|t: int|
            0 <= t < self.tables@.len() ==> (#[trigger] self.tables@[t])@.len()
                < self.usable_rows
        &&& forall|i: int| 0 <= i < self.copies@.len() ==> self.copy_wf(#[trigger] self.copies@[i])
        &&& self.next_row <= self.usable_rows
    }

    /// Whether gate `g` holds at row `r`: where its selector is enabled, the
    /// cells it reads are assigned and its polynomial is zero. (The circuits
    /// of this crate assign the cells a region's selectors read inside that
    /// same region, so assignment anywhere in the grid is what is asked.)
    pub open spec fn gate_holds(&self, g: Gate, r: int) -> bool {
        match g {
            Gate::AddNext { selector, advice } => self.selector_at(selector as int, r) ==> {
                let c = advice as int;
                &&& r + 2 < self.n
                &&& self.advice_at(c, r) is Some
                &&& self.advice_at(c, r + 1) is Some
                &&& self.advice_at(c, r + 2) is Some
                &&& fsub(
                    fadd(
                        self.advice_at(c, r)->Some_0@,
                        self.advice_at(c, r + 1)->Some_0@,
                    ),
                    self.advice_at(c, r + 2)->Some_0@,
                ) == 0
            },
            Gate::RangeProduct { selector, advice, range } => self.selector_at(selector as int, r)
                ==> {
                &&& self.advice_at(advice as int, r) is Some
                &&& range_poly(self.advice_at(advice as int, r)->Some_0@, range as nat) == 0
            },
        }
    }

    /// Whether, if `g` is a range-check gate of a non-empty range enabled at
    /// row `r`, the cell it reads is assigned a value below that range.
    pub open spec fn range_cell_below(&self, g: Gate, r: int) -> bool {
        match g {
            Gate::RangeProduct { selector, advice, range } => (1 <= range && self.selector_at(
                selector as int,
                r,
            )) ==> {
                &&& self.advice_at(advice as int, r) is Some
                &&& self.advice_at(advice as int, r)->Some_0@ < range
            },
            Gate::AddNext { .. } => true,
        }
    }

    /// Every range-check gate of a non-empty range reads, at every row where
    /// it is enabled, a value below its range.
    pub open spec fn range_cells_below(&self) -> bool {
        forall|i: int, r: int|
            0 <= i < self.cs.gates@.len() && 0 <= r < self.n ==> #[trigger] self.range_cell_below(
                self.cs.gates@[i],
                r,
            )
    }

    /// The input of a single-column lookup at row `r`.
    pub open spec fn scaled_input(&self, selector: usize, advice: usize, r: int) -> nat {
        if self.selector_at(selector as int, r) {
            value_or_zero(self.advice_at(advice as int, r))
        } else {
            0
        }
    }

    /// The input of a two-column lookup at row `r`.
    pub open spec fn pair_input(
        &self,
        selector: usize,
        first: usize,
        second: usize,
        first_default: u64,
        second_default: u64,
        r: int,
    ) -> (nat, nat) {
        if self.selector_at(selector as int, r) {
            (
                value_or_zero(self.advice_at(first as int, r)),
                value_or_zero(self.advice_at(second as int, r)),
            )
        } else {
            (first_default as nat % modulus(), second_default as nat % modulus())
        }
    }

    /// Whether `x` occurs in some usable row of table column `t`.
    pub open spec fn in_table(&self, t: int, x: nat) -> bool {
        exists|j: int| 0 <= j < self.usable_rows && #[trigger] self.table_value(t, j) == x
    }

    /// Whether `(x, y)` occurs in some usable row of table columns `t1`, `t2`.
    pub open spec fn in_table_pair(&self, t1: int, t2: int, x: nat, y: nat) -> bool {
        exists|j: int|
            0 <= j < self.usable_rows && #[trigger] self.table_value(t1, j) == x
                && self.table_value(t2, j) == y
    }

    /// Whether lookup `l` holds at row `r`.
    pub open spec fn lookup_holds(&self, l: Lookup, r: int) -> bool {
        match l {
            Lookup::Scaled { selector, advice, table } => self.in_table(
                table as int,
                self.scaled_input(selector, advice, r),
            ),
            Lookup::Pair {
                selector,
                first,
                second,
                first_table,
                second_table,
                first_default,
                second_default,
            } => {
                let inp = self.pair_input(
                    selector,
                    first,
                    second,
                    first_default,
                    second_default,
                    r,
                );
                self.in_table_pair(first_table as int, second_table as int, inp.0, inp.1)
            },
        }
    }

    /// Whether copy constraint `c` holds: both cells hold the same value
    /// (or are both unassigned).
    pub open spec fn copy_holds(&self, c: (CellRef, CellRef)) -> bool {
        self.cell_value(c.0) == self.cell_value(c.1)
    }

    /// The grid satisfies every gate at every row, every lookup at every
    /// usable row, and every copy constraint.
    pub open spec fn satisfied(&self) -> bool {
        &&& forall|i: int, r: int|
            0 <= i < self.cs.gates@.len() && 0 <= r < self.n ==> #[trigger] self.gate_holds(
                self.cs.gates@[i],
                r,
            )
        &&& forall|i: int, r: int|
            0 <= i < self.cs.lookups@.len() && 0 <= r < self.usable_rows
                ==> #[trigger] self.lookup_holds(self.cs.lookups@[i], r)
        &&& forall|i: int| 0 <= i < self.copies@.len() ==> #[trigger] self.copy_holds(self.copies@[i])
    }
}

impl MockProver {
    /// The value in row `j` of table column `t`.
    fn table_value_at(&self, t: usize, j: usize) -> (x: Felt)
        requires
            self.wf(),
            t < self.tables@.len(),
        ensures
            x@ == self.table_value(t as int, j as int),
    {
        let col = &self.tables[t];
        if j < col.len() {
            col[j]
        } else if col.len() > 0 {
            col[0]
        } else {
            Felt::zero()
        }
    }

    /// Whether `x` occurs in some usable row of table column `t`.
    fn table_contains(&self, t: usize, x: &Felt) -> (b: bool)
        requires
            self.wf(),
            t < self.tables@.len(),
        ensures
            b == self.in_table(t as int, x@),
    {
        let m = self.tables[t].len();
        let mut j: usize = 0;
        while j <= m
            invariant
                self.wf(),
                t < self.tables@.len(),
                m == self.tables@[t as int]@.len(),
                m < self.usable_rows,
                0 <= j <= m + 1,
                forall|j2: int| 0 <= j2 < j ==> self.table_value(t as int, j2) != x@,
            decreases m + 1 - j,
        {
            let y = self.table_value_at(t, j);
            if y.equals(x) {
                return true;
            }
            j = j + 1;
        }
        assert forall|j2: int| 0 <= j2 < self.usable_rows implies #[trigger] self.table_value(
            t as int,
            j2,
        ) != x@ by {
            if j2 > m {
                assert(self.table_value(t as int, j2) == self.table_value(t as int, m as int));
            }
        }
        false
    }

    /// Whether `(x, y)` occurs in some usable row of table columns `t1`, `t2`.
    fn table_contains_pair(&self, t1: usize, t2: usize, x: &Felt, y: &Felt) -> (b: bool)
        requires
            self.wf(),
            t1 < self.tables@.len(),
            t2 < self.tables@.len(),
        ensures
            b == self.in_table_pair(t1 as int, t2 as int, x@, y@),
    {
        let m1 = self.tables[t1].len();
        let m2 = self.tables[t2].len();
        let m = if m1 < m2 {
            m2
        } else {
            m1
        };
        let mut j: usize = 0;
        while j <= m
            invariant
                self.wf(),
                t1 < self.tables@.len(),
                t2 < self.tables@.len(),
                m1 == self.tables@[t1 as int]@.len(),
                m2 == self.tables@[t2 as int]@.len(),
                m1 <= m,
                m2 <= m,
                m < self.usable_rows,
                0 <= j <= m + 1,
                forall|j2: int|
                    0 <= j2 < j ==> !(self.table_value(t1 as int, j2) == x@ && self.table_value(
                        t2 as int,
                        j2,
                    ) == y@),
            decreases m + 1 - j,
        {
            let a = self.table_value_at(t1, j);
            let b = self.table_value_at(t2, j);
            if a.equals(x) && b.equals(y) {
                return true;
            }
            j = j + 1;
        }
        assert forall|j2: int| 0 <= j2 < self.usable_rows implies !(#[trigger] self.table_value(
            t1 as int,
            j2,
        ) == x@ && self.table_value(t2 as int, j2) == y@) by {
            if j2 > m {
                assert(self.table_value(t1 as int, j2) == self.table_value(t1 as int, m as int));
                assert(self.table_value(t2 as int, j2) == self.table_value(t2 as int, m as int));
            }
        }
        false
    }

    /// The value of an advice cell, 0 if unassigned.
    fn advice_or_zero(&self, c: usize, r: usize) -> (x: Felt)
        requires
            self.wf(),
            c < self.advice@.len(),
            r < self.n,
        ensures
            x@ == value_or_zero(self.advice_at(c as int, r as int)),
    {
        match self.advice[c][r] {
            Some(v) => v,
            None => Felt::zero(),
        }
    }

    /// Evaluates the range-check polynomial at `v`. For a non-empty range
    /// it is zero exactly when `v` lies below the range: each factor
    /// `(i - v)` is zero only at `v == i`, and the field has no zero divisors.
    pub fn eval_range_poly(v: &Felt, range: usize) -> (x: Felt)
        ensures
            x@ == range_poly(v@, range as nat),
            1 <= range ==> (x@ == 0 <==> v@ < range),
    {
        let mut acc = *v;
        proof {
            crate::field::lemma_value_bound(*v);
            crate::field::lemma_small_mod(v@);
        }
        let mut i: usize = 1;
        while i < range
            invariant
                1 <= i,
                i <= range || i == 1,
                v@ < modulus(),
                acc@ == range_poly(v@, i as nat),
                acc@ == 0 <==> v@ < i,
            decreases range - i,
        {
            let c = Felt::from_u64(i as u64);
            let d = c.sub(v);
            proof {
                assert(i < modulus());
                crate::field::lemma_fsub_zero(i as nat, v@);
            }
            acc = acc.mul(&d);
            i = i + 1;
        }
        acc
    }

    /// Whether gate `g` holds at row `r`, whatever the grid holds. A
    /// range-check gate of a non-empty range holds exactly when its selector
    /// is off at `r` or the cell it reads is assigned a value below the
    /// range.
    pub fn check_gate(&self, g: Gate, r: usize) -> (b: bool)
        requires
            self.wf(),
            self.cs.gate_wf(g),
            r < self.n,
        ensures
            b == self.gate_holds(g, r as int),
            b ==> self.range_cell_below(g, r as int),
            g is RangeProduct && 1 <= g->range ==> (b <==> self.range_cell_below(g, r as int)),
    {
        match g {
            Gate::AddNext { selector, advice } => {
                if !self.selectors[selector][r] {
                    return true;
                }
                if r + 2 >= self.n {
                    return false;
                }
                let x0 = self.advice[advice][r];
                let x1 = self.advice[advice][r + 1];
                let x2 = self.advice[advice][r + 2];
                match (x0, x1, x2) {
                    (Some(a), Some(b), Some(c)) => {
                        let s = a.add(&b).sub(&c);
                        s.equals(&Felt::zero())
                    },
                    _ => false,
                }
            },
            Gate::RangeProduct { selector, advice, range } => {
                if !self.selectors[selector][r] {
                    return true;
                }
                match self.advice[advice][r] {
                    Some(v) => {
                        let p = Self::eval_range_poly(&v, range);
                        p.equals(&Felt::zero())
                    },
                    None => false,
                }
            },
        }
    }

    /// Whether lookup `l` holds at row `r`.
    fn check_lookup(&self, l: Lookup, r: usize) -> (b: bool)
        requires
            self.wf(),
            self.cs.lookup_wf(l),
            r < self.usable_rows,
        ensures
            b == self.lookup_holds(l, r as int),
    {
        match l {
            Lookup::Scaled { selector, advice, table } => {
                let x = if self.selectors[selector][r] {
                    self.advice_or_zero(advice, r)
                } else {
                    Felt::zero()
                };
                self.table_contains(table, &x)
            },
            Lookup::Pair {
                selector,
                first,
                second,
                first_table,
                second_table,
                first_default,
                second_default,
            } => {
                let (x, y) = if self.selectors[selector][r] {
                    (self.advice_or_zero(first, r), self.advice_or_zero(second, r))
                } else {
                    (Felt::from_u64(first_default), Felt::from_u64(second_default))
                };
                proof {
                    vstd::arithmetic::div_mod::lemma_small_mod(first_default as nat, modulus());
                    vstd::arithmetic::div_mod::lemma_small_mod(second_default as nat, modulus());
                }
                self.table_contains_pair(first_table, second_table, &x, &y)
            },
        }
    }

    /// The value of a cell, if assigned.
    fn cell_value_exec(&self, cell: CellRef) -> (v: Option<Felt>)
        requires
            self.wf(),
            self.cell_wf(cell),
        ensures
            opt_value(v) == self.cell_value(cell),
    {
        match cell.column.kind {
            ColumnKind::Advice => self.advice[cell.column.index][cell.row],
            ColumnKind::Instance => Some(self.instance[cell.column.index][cell.row]),
        }
    }

    /// Whether copy constraint `c` holds.
    fn check_copy(&self, c: (CellRef, CellRef)) -> (b: bool)
        requires
            self.wf(),
            self.copy_wf(c),
        ensures
            b == self.copy_holds(c),
    {
        let l = self.cell_value_exec(c.0);
        let r = self.cell_value_exec(c.1);
        match (l, r) {
            (Some(a), Some(b)) => a.equals(&b),
            (None, None) => true,
            _ => false,
        }
    }

    /// Whether the grid satisfies the constraint system: every gate at
    /// every row, every lookup at every usable row, every copy constraint.
    /// A grid it accepts holds, in every cell an enabled range-check gate of
    /// a non-empty range reads, a value below that range.
    pub fn verify(&self) -> (b: bool)
        requires
            self.wf(),
        ensures
            b == self.satisfied(),
            b ==> self.range_cells_below(),
    {
        let mut i: usize = 0;
        while i < self.cs.gates.len()
            invariant
                self.wf(),
                0 <= i <= self.cs.gates@.len(),
                forall|i2: int, r: int|
                    0 <= i2 < i && 0 <= r < self.n ==> #[trigger] self.gate_holds(
                        self.cs.gates@[i2],
                        r,
                    ),
                forall|i2: int, r: int|
                    0 <= i2 < i && 0 <= r < self.n ==> #[trigger] self.range_cell_below(
                        self.cs.gates@[i2],
                        r,
                    ),
            decreases self.cs.gates@.len() - i,
        {
            let g = self.cs.gates[i];
            let mut r: usize = 0;
            while r < self.n
                invariant
                    self.wf(),
                    0 <= i < self.cs.gates@.len(),
                    g == self.cs.gates@[i as int],
                    0 <= r <= self.n,
                    forall|r2: int| 0 <= r2 < r ==> #[trigger] self.gate_holds(g, r2),
                    forall|r2: int| 0 <= r2 < r ==> #[trigger] self.range_cell_below(g, r2),
                decreases self.n - r,
            {
                if !self.check_gate(g, r) {
                    return false;
                }
                r = r + 1;
            }
            i = i + 1;
        }
        let mut i: usize = 0;
        while i < self.cs.lookups.len()
            invariant
                self.wf(),
                0 <= i <= self.cs.lookups@.len(),
                forall|i2: int, r: int|
                    0 <= i2 < self.cs.gates@.len() && 0 <= r < self.n
                        ==> #[trigger] self.gate_holds(self.cs.gates@[i2], r),
                self.range_cells_below(),
                forall|i2: int, r: int|
                    0 <= i2 < i && 0 <= r < self.usable_rows ==> #[trigger] self.lookup_holds(
                        self.cs.lookups@[i2],
                        r,
                    ),
            decreases self.cs.lookups@.len() - i,
        {
            let l = self.cs.lookups[i];
            let mut r: usize = 0;
            while r < self.usable_rows
                invariant
                    self.wf(),
                    0 <= i < self.cs.lookups@.len(),
                    l == self.cs.lookups@[i as int],
                    0 <= r <= self.usable_rows,
                    forall|r2: int| 0 <= r2 < r ==> #[trigger] self.lookup_holds(l, r2),
                decreases self.usable_rows - r,
            {
                if !self.check_lookup(l, r) {
                    return false;
                }
                r = r + 1;
            }
            i = i + 1;
        }
        let mut i: usize = 0;
        while i < self.copies.len()
            invariant
                self.wf(),
                0 <= i <= self.copies@.len(),
                forall|i2: int, r: int|
                    0 <= i2 < self.cs.gates@.len() && 0 <= r < self.n
                        ==> #[trigger] self.gate_holds(self.cs.gates@[i2], r),
                self.range_cells_below(),
                forall|i2: int, r: int|
                    0 <= i2 < self.cs.lookups@.len() && 0 <= r < self.usable_rows
                        ==> #[trigger] self.lookup_holds(self.cs.lookups@[i2], r),
                forall|i2: int| 0 <= i2 < i ==> #[trigger] self.copy_holds(self.copies@[i2]),
            decreases self.copies@.len() - i,
        {
            if !self.check_copy(self.copies[i]) {
                return false;
            }
            i = i + 1;
        }
        true
    }
}

impl MockProver {
    /// Whether the grid fails its constraint system at `f`.
    pub open spec fn fails_at(&self, f: Failure) -> bool {
        match f {
            Failure::Constraint { gate, row } => gate < self.cs.gates@.len() && row < self.n
                && !self.gate_holds(self.cs.gates@[gate as int], row as int),
            Failure::Lookup { lookup, row } => lookup < self.cs.lookups@.len() && row
                < self.usable_rows && !self.lookup_holds(self.cs.lookups@[lookup as int], row as int),
            Failure::Permutation { copy } => copy < self.copies@.len() && !self.copy_holds(
                self.copies@[copy as int],
            ),
        }
    }

    /// Every place where the grid fails its constraint system: the gates
    /// (gate by gate, row by row), then the lookups, then the copy
    /// constraints. The list is empty exactly when the grid is satisfied.
    pub fn failures(&self) -> (fs: Vec<Failure>)
        requires
            self.wf(),
        ensures
            forall|k: int| 0 <= k < fs@.len() ==> self.fails_at(#[trigger] fs@[k]),
            forall|f: Failure| self.fails_at(f) ==> #[trigger] fs@.contains(f),
            fs@.len() == 0 <==> self.satisfied(),
    {
        let mut fs: Vec<Failure> = Vec::new();
        let mut i: usize = 0;
        while i < self.cs.gates.len()
            invariant
                self.wf(),
                0 <= i <= self.cs.gates@.len(),
                forall|k: int| 0 <= k < fs@.len() ==> self.fails_at(#[trigger] fs@[k]),
                forall|g: usize, r: usize|
                    self.fails_at(Failure::Constraint { gate: g, row: r }) && g < i
                        ==> #[trigger] fs@.contains(Failure::Constraint { gate: g, row: r }),
            decreases self.cs.gates@.len() - i,
        {
            let g = self.cs.gates[i];
            let mut r: usize = 0;
            while r < self.n
                invariant
                    self.wf(),
                    0 <= i < self.cs.gates@.len(),
                    g == self.cs.gates@[i as int],
                    0 <= r <= self.n,
                    forall|k: int| 0 <= k < fs@.len() ==> self.fails_at(#[trigger] fs@[k]),
                    forall|g2: usize, r2: usize|
                        self.fails_at(Failure::Constraint { gate: g2, row: r2 }) && (g2 < i || (g2
                            == i && r2 < r)) ==> #[trigger] fs@.contains(
                            Failure::Constraint { gate: g2, row: r2 },
                        ),
                decreases self.n - r,
            {
                if !self.check_gate(g, r) {
                    let ghost before = fs@;
                    fs.push(Failure::Constraint { gate: i, row: r });
                    proof {
                        lemma_push_keeps(before, Failure::Constraint { gate: i, row: r });
                    }
                }
                r = r + 1;
            }
            i = i + 1;
        }
        let mut i: usize = 0;
        while i < self.cs.lookups.len()
            invariant
                self.wf(),
                0 <= i <= self.cs.lookups@.len(),
                forall|k: int| 0 <= k < fs@.len() ==> self.fails_at(#[trigger] fs@[k]),
                forall|g: usize, r: usize|
                    self.fails_at(Failure::Constraint { gate: g, row: r })
                        ==> #[trigger] fs@.contains(Failure::Constraint { gate: g, row: r }),
                forall|l: usize, r: usize|
                    self.fails_at(Failure::Lookup { lookup: l, row: r }) && l < i
                        ==> #[trigger] fs@.contains(Failure::Lookup { lookup: l, row: r }),
            decreases self.cs.lookups@.len() - i,
        {
            let l = self.cs.lookups[i];
            let mut r: usize = 0;
            while r < self.usable_rows
                invariant
                    self.wf(),
                    0 <= i < self.cs.lookups@.len(),
                    l == self.cs.lookups@[i as int],
                    0 <= r <= self.usable_rows,
                    forall|k: int| 0 <= k < fs@.len() ==> self.fails_at(#[trigger] fs@[k]),
                    forall|g: usize, r2: usize|
                        self.fails_at(Failure::Constraint { gate: g, row: r2 })
                            ==> #[trigger] fs@.contains(Failure::Constraint { gate: g, row: r2 }),
                    forall|l2: usize, r2: usize|
                        self.fails_at(Failure::Lookup { lookup: l2, row: r2 }) && (l2 < i || (l2
                            == i && r2 < r)) ==> #[trigger] fs@.contains(
                            Failure::Lookup { lookup: l2, row: r2 },
                        ),
                decreases self.usable_rows - r,
            {
                if !self.check_lookup(l, r) {
                    let ghost before = fs@;
                    fs.push(Failure::Lookup { lookup: i, row: r });
                    proof {
                        lemma_push_keeps(before, Failure::Lookup { lookup: i, row: r });
                    }
                }
                r = r + 1;
            }
            i = i + 1;
        }
        let mut i: usize = 0;
        while i < self.copies.len()
            invariant
                self.wf(),
                0 <= i <= self.copies@.len(),
                forall|k: int| 0 <= k < fs@.len() ==> self.fails_at(#[trigger] fs@[k]),
                forall|g: usize, r: usize|
                    self.fails_at(Failure::Constraint { gate: g, row: r })
                        ==> #[trigger] fs@.contains(Failure::Constraint { gate: g, row: r }),
                forall|l: usize, r: usize|
                    self.fails_at(Failure::Lookup { lookup: l, row: r })
                        ==> #[trigger] fs@.contains(Failure::Lookup { lookup: l, row: r }),
                forall|c: usize|
                    self.fails_at(Failure::Permutation { copy: c }) && c < i
                        ==> #[trigger] fs@.contains(Failure::Permutation { copy: c }),
            decreases self.copies@.len() - i,
        {
            if !self.check_copy(self.copies[i]) {
                let ghost before = fs@;
                fs.push(Failure::Permutation { copy: i });
                proof {
                    lemma_push_keeps(before, Failure::Permutation { copy: i });
                }
            }
            i = i + 1;
        }
        proof {
            assert forall|f: Failure| self.fails_at(f) implies #[trigger] fs@.contains(f) by {
                match f {
                    Failure::Constraint { gate, row } => {},
                    Failure::Lookup { lookup, row } => {},
                    Failure::Permutation { copy } => {},
                }
            }
            if self.satisfied() && fs@.len() > 0 {
                let x = fs@[0];
                assert(self.fails_at(x));
                match x {
                    Failure::Constraint { gate, row } => {
                        assert(self.gate_holds(self.cs.gates@[gate as int], row as int));
                    },
                    Failure::Lookup { lookup, row } => {
                        assert(self.lookup_holds(self.cs.lookups@[lookup as int], row as int));
                    },
                    Failure::Permutation { copy } => {
                        assert(self.copy_holds(self.copies@[copy as int]));
                    },
                }
            }
            if !self.satisfied() {
                if !(forall|g: int, r: int|
                    0 <= g < self.cs.gates@.len() && 0 <= r < self.n ==> #[trigger] self.gate_holds(
                        self.cs.gates@[g],
                        r,
                    )) {
                    let (g, r) = choose|g: int, r: int|
                        0 <= g < self.cs.gates@.len() && 0 <= r < self.n && !#[trigger] self.gate_holds(
                            self.cs.gates@[g],
                            r,
                        );
                    assert(fs@.contains(Failure::Constraint { gate: g as usize, row: r as usize }));
                } else if !(forall|l: int, r: int|
                    0 <= l < self.cs.lookups@.len() && 0 <= r < self.usable_rows
                        ==> #[trigger] self.lookup_holds(self.cs.lookups@[l], r)) {
                    let (l, r) = choose|l: int, r: int|
                        0 <= l < self.cs.lookups@.len() && 0 <= r < self.usable_rows
                            && !#[trigger] self.lookup_holds(self.cs.lookups@[l], r);
                    assert(fs@.contains(Failure::Lookup { lookup: l as usize, row: r as usize }));
                } else {
                    let c = choose|c: int|
                        0 <= c < self.copies@.len() && !#[trigger] self.copy_holds(self.copies@[c]);
                    assert(fs@.contains(Failure::Permutation { copy: c as usize }));
                }
            }
        }
        fs
    }
}

/// Pushing onto a list of failures keeps the failures it held and adds the
/// new one.
proof fn lemma_push_keeps(s: Seq<Failure>, x: Failure)
    ensures
        s.push(x).contains(x),
        forall|y: Failure| s.contains(y) ==> #[trigger] s.push(x).contains(y),
{
    assert(s.push(x)[s.len() as int] == x);
    assert forall|y: Failure| s.contains(y) implies #[trigger] s.push(x).contains(y) by {
        let j = choose|j: int| 0 <= j < s.len() && s[j] == y;
        assert(s.push(x)[j] == y);
    }
}

/// Why `MockProver::new` refuses its arguments, if it does.
pub open spec fn setup_error(k: u32, num_instance: usize, instance: Seq<Vec<Felt>>) -> Option<
    Error,
> {
    if pow2(k as nat) < minimum_rows() {
        Some(Error::NotEnoughRowsAvailable { current_k: k })
    } else if instance.len() != num_instance {
        Some(Error::InvalidInstances)
    } else if exists|c: int|
        0 <= c < instance.len() && (#[trigger] instance[c])@.len() > pow2(k as nat) - (
        blinding_factors() + 1) {
        Some(Error::InstanceTooLarge)
    } else {
        None
    }
}

/// Row `r` of public-input column `c`, padded with 0 past its end.
pub open spec fn padded(inst: Seq<Vec<Felt>>, c: int, r: int) -> nat {
    if r < inst[c]@.len() {
        inst[c]@[r]@
    } else {
        0
    }
}

/// The usable rows of a grid of `2^k` rows.
pub open spec fn usable_rows_for(k: u32) -> int {
    pow2(k as nat) - (blinding_factors() + 1)
}

/// Why a copy constraint between `left` and `right` is refused, if it is.
pub open spec fn copy_error(p: &MockProver, left: CellRef, right: CellRef) -> Option<Error> {
    if !(left.row < p.usable_rows && right.row < p.usable_rows) {
        Some(Error::NotEnoughRowsAvailable { current_k: p.k })
    } else if !p.cs.equality_enabled(left.column) {
        Some(Error::ColumnNotInPermutation(left.column))
    } else if !p.cs.equality_enabled(right.column) {
        Some(Error::ColumnNotInPermutation(right.column))
    } else {
        None
    }
}

/// Why loading `len` values into table columns `ts` is refused, if it is.
pub open spec fn table_error(p: &MockProver, ts: Seq<usize>, len: nat) -> Option<Error> {
    if exists|i: int| 0 <= i < ts.len() && p.tables@[#[trigger] ts[i] as int]@.len() > 0 {
        Some(Error::Synthesis)
    } else if len >= p.usable_rows {
        Some(Error::NotEnoughRowsAvailable { current_k: p.k })
    } else if len == 0 {
        Some(Error::Synthesis)
    } else {
        None
    }
}

impl MockProver {
    /// The grid as set up: nothing assigned, no selector enabled, no table
    /// loaded, no copy constraint, no region placed, and the instance columns
    /// holding `inst` padded with 0.
    pub open spec fn is_fresh(&self, inst: Seq<Vec<Felt>>) -> bool {
        &&& forall|c: int, r: int|
            0 <= c < self.advice@.len() && 0 <= r < self.n ==> (#[trigger] self.advice_at(
                c,
                r,
            )) is None
        &&& forall|s: int, r: int|
            0 <= s < self.selectors@.len() && 0 <= r < self.n ==> !#[trigger] self.selector_at(
                s,
                r,
            )
        &&& forall|t: int| 0 <= t < self.tables@.len() ==> (#[trigger] self.tables@[t])@.len() == 0
        &&& self.copies@.len() == 0
        &&& self.next_row == 0
        &&& forall|c: int, r: int|
            0 <= c < self.instance@.len() && 0 <= r < self.n ==> #[trigger] self.instance_at(c, r)
                == padded(inst, c, r)
    }

    /// `k`, the row counts and the constraint system are as in `old`.
    pub open spec fn same_shape(&self, old: &MockProver) -> bool {
        &&& self.k == old.k
        &&& self.n == old.n
        &&& self.usable_rows == old.usable_rows
        &&& self.cs == old.cs
    }

    /// The advice cells are those of `old`, but for cell `(c, r)`, which holds `v`.
    pub open spec fn advice_updated(&self, old: &MockProver, c: int, r: int, v: Felt) -> bool {
        &&& self.advice@.len() == old.advice@.len()
        &&& forall|c2: int|
            0 <= c2 < self.advice@.len() ==> (#[trigger] self.advice@[c2])@.len()
                == old.advice@[c2]@.len()
        &&& forall|c2: int, r2: int|
            0 <= c2 < self.advice@.len() && 0 <= r2 < self.n ==> #[trigger] self.advice_at(c2, r2)
                == if c2 == c && r2 == r {
                Some(v)
            } else {
                old.advice_at(c2, r2)
            }
    }

    /// The selectors are those of `old`, but selector `s` is also enabled at row `r`.
    pub open spec fn selector_enabled(&self, old: &MockProver, s: int, r: int) -> bool {
        &&& self.selectors@.len() == old.selectors@.len()
        &&& forall|s2: int|
            0 <= s2 < self.selectors@.len() ==> (#[trigger] self.selectors@[s2])@.len()
                == old.selectors@[s2]@.len()
        &&& forall|s2: int, r2: int|
            0 <= s2 < self.selectors@.len() && 0 <= r2 < self.n ==> #[trigger] self.selector_at(
                s2,
                r2,
            ) == (old.selector_at(s2, r2) || (s2 == s && r2 == r))
    }

    /// Sets up the grid of `2^k` rows for constraint system `cs` and the
    /// public input `instance`, one vector per instance column.
    pub fn new(k: u32, cs: ConstraintSystem, instance: Vec<Vec<Felt>>) -> (res: Result<
        MockProver,
        Error,
    >)
        requires
            cs.wf(),
            (k as nat) < usize::BITS,
        ensures
            res is Err <==> setup_error(k, cs.num_instance, instance@) is Some,
            res matches Err(e) ==> setup_error(k, cs.num_instance, instance@) == Some(e),
            res matches Ok(p) ==> {
                &&& p.wf()
                &&& p.k == k
                &&& p.cs == cs
                &&& p.is_fresh(instance@)
            },
    {
        proof {
            vstd::bits::lemma_usize_pow2_no_overflow(k as nat);
            vstd::bits::lemma_usize_shl_is_mul(1, k as usize);
        }
        let n: usize = 1usize << (k as usize);
        let blinding = cs.blinding_factors();
        proof {
            lemma_blinding_rows(&cs);
        }
        if n < blinding + 3 {
            return Err(Error::NotEnoughRowsAvailable { current_k: k });
        }
        if instance.len() != cs.num_instance {
            return Err(Error::InvalidInstances);
        }
        let usable: usize = n - (blinding + 1);
        let mut i: usize = 0;
        while i < instance.len()
            invariant
                0 <= i <= instance@.len(),
                n == pow2(k as nat),
                n >= 8,
                instance@.len() == cs.num_instance,
                usable == n - 6,
                forall|c: int| 0 <= c < i ==> (#[trigger] instance@[c])@.len() <= usable,
            decreases instance@.len() - i,
        {
            if instance[i].len() > usable {
                proof {
                    assert((instance@[i as int])@.len() > pow2(k as nat) - (blinding_factors() + 1));
                }
                return Err(Error::InstanceTooLarge);
            }
            i = i + 1;
        }
        let mut inst: Vec<Vec<Felt>> = Vec::new();
        let mut i: usize = 0;
        while i < instance.len()
            invariant
                0 <= i <= instance@.len(),
                inst@.len() == i,
                forall|c: int| 0 <= c < i ==> (#[trigger] inst@[c])@.len() == n,
                forall|c: int, r: int|
                    0 <= c < i && 0 <= r < n ==> (#[trigger] inst@[c]@[r])@ == if r
                        < instance@[c]@.len() {
                        instance@[c]@[r]@
                    } else {
                        0
                    },
            decreases instance@.len() - i,
        {
            let src = &instance[i];
            let mut col: Vec<Felt> = Vec::new();
            let mut r: usize = 0;
            while r < n
                invariant
                    0 <= r <= n,
                    col@.len() == r,
                    forall|r2: int|
                        0 <= r2 < r ==> (#[trigger] col@[r2])@ == if r2 < src@.len() {
                            src@[r2]@
                        } else {
                            0
                        },
                decreases n - r,
            {
                if r < src.len() {
                    col.push(src[r]);
                } else {
                    col.push(Felt::zero());
                }
                r = r + 1;
            }
            inst.push(col);
            i = i + 1;
        }
        let mut advice: Vec<Vec<Option<Felt>>> = Vec::new();
        let mut c: usize = 0;
        while c < cs.num_advice
            invariant
                0 <= c <= cs.num_advice,
                advice@.len() == c,
                forall|c2: int| 0 <= c2 < c ==> (#[trigger] advice@[c2])@.len() == n,
                forall|c2: int, r: int|
                    0 <= c2 < c && 0 <= r < n ==> (#[trigger] advice@[c2]@[r]) is None,
            decreases cs.num_advice - c,
        {
            let mut col: Vec<Option<Felt>> = Vec::new();
            let mut r: usize = 0;
            while r < n
                invariant
                    0 <= r <= n,
                    col@.len() == r,
                    forall|r2: int| 0 <= r2 < r ==> (#[trigger] col@[r2]) is None,
                decreases n - r,
            {
                col.push(None);
                r = r + 1;
            }
            advice.push(col);
            c = c + 1;
        }
        let mut selectors: Vec<Vec<bool>> = Vec::new();
        let mut s: usize = 0;
        while s < cs.num_selectors
            invariant
                0 <= s <= cs.num_selectors,
                selectors@.len() == s,
                forall|s2: int| 0 <= s2 < s ==> (#[trigger] selectors@[s2])@.len() == n,
                forall|s2: int, r: int|
                    0 <= s2 < s && 0 <= r < n ==> !(#[trigger] selectors@[s2]@[r]),
            decreases cs.num_selectors - s,
        {
            let mut col: Vec<bool> = Vec::new();
            let mut r: usize = 0;
            while r < n
                invariant
                    0 <= r <= n,
                    col@.len() == r,
                    forall|r2: int| 0 <= r2 < r ==> !(#[trigger] col@[r2]),
                decreases n - r,
            {
                col.push(false);
                r = r + 1;
            }
            selectors.push(col);
            s = s + 1;
        }
        let mut tables: Vec<Vec<Felt>> = Vec::new();
        let mut t: usize = 0;
        while t < cs.num_tables
            invariant
                0 <= t <= cs.num_tables,
                tables@.len() == t,
                forall|t2: int| 0 <= t2 < t ==> (#[trigger] tables@[t2])@.len() == 0,
            decreases cs.num_tables - t,
        {
            tables.push(Vec::new());
            t = t + 1;
        }
        let p = MockProver {
            k,
            n,
            usable_rows: usable,
            cs,
            advice,
            instance: inst,
            selectors,
            tables,
            copies: Vec::new(),
            next_row: 0,
        };
        Ok(p)
    }

    /// Enables selector `s` at row `row`.
    pub fn enable_selector(&mut self, s: usize, row: usize) -> (res: Result<(), Error>)
        requires
            old(self).wf(),
            s < old(self).cs.num_selectors,
        ensures
            final(self).wf(),
            res is Ok <==> row < old(self).usable_rows,
            res matches Err(e) ==> e == (Error::NotEnoughRowsAvailable { current_k: old(self).k })
                && *final(self) == *old(self),
            res is Ok ==> {
                &&& final(self).same_shape(old(self))
                &&& final(self).selector_enabled(old(self), s as int, row as int)
                &&& final(self).advice@ == old(self).advice@
                &&& final(self).instance@ == old(self).instance@
                &&& final(self).tables@ == old(self).tables@
                &&& final(self).copies@ == old(self).copies@
                &&& final(self).next_row == old(self).next_row
            },
    {
        if row >= self.usable_rows {
            return Err(Error::NotEnoughRowsAvailable { current_k: self.k });
        }
        self.selectors[s].set(row, true);
        Ok(())
    }

    /// Assigns `v` to advice cell `(column, row)`.
    pub fn assign_advice(&mut self, column: Column, row: usize, v: Felt) -> (res: Result<
        AssignedCell,
        Error,
    >)
        requires
            old(self).wf(),
            column.kind == ColumnKind::Advice,
            column.index < old(self).cs.num_advice,
        ensures
            final(self).wf(),
            res is Ok <==> row < old(self).usable_rows,
            res matches Err(e) ==> e == (Error::NotEnoughRowsAvailable { current_k: old(self).k })
                && *final(self) == *old(self),
            res matches Ok(cell) ==> {
                &&& cell.cell == (CellRef { column, row })
                &&& cell.value == v
                &&& final(self).same_shape(old(self))
                &&& final(self).advice_updated(old(self), column.index as int, row as int, v)
                &&& final(self).selectors@ == old(self).selectors@
                &&& final(self).instance@ == old(self).instance@
                &&& final(self).tables@ == old(self).tables@
                &&& final(self).copies@ == old(self).copies@
                &&& final(self).next_row == old(self).next_row
            },
    {
        if row >= self.usable_rows {
            return Err(Error::NotEnoughRowsAvailable { current_k: self.k });
        }
        self.advice[column.index].set(row, Some(v));
        Ok(AssignedCell { cell: CellRef { column, row }, value: v })
    }

    /// The value of instance cell `(column, row)`.
    pub fn query_instance(&self, column: Column, row: usize) -> (res: Result<Felt, Error>)
        requires
            self.wf(),
            column.kind == ColumnKind::Instance,
            column.index < self.cs.num_instance,
        ensures
            res is Ok <==> row < self.usable_rows,
            res matches Err(e) ==> e == (Error::NotEnoughRowsAvailable { current_k: self.k }),
            res matches Ok(x) ==> x@ == self.instance_at(column.index as int, row as int),
    {
        if row >= self.usable_rows {
            return Err(Error::NotEnoughRowsAvailable { current_k: self.k });
        }
        Ok(self.instance[column.index][row])
    }

    /// Constrains cells `left` and `right` to be equal.
    pub fn copy(&mut self, left: CellRef, right: CellRef) -> (res: Result<(), Error>)
        requires
            old(self).wf(),
            old(self).cs.column_wf(left.column),
            old(self).cs.column_wf(right.column),
        ensures
            final(self).wf(),
            res is Err <==> copy_error(old(self), left, right) is Some,
            res matches Err(e) ==> copy_error(old(self), left, right) == Some(e) && *final(self)
                == *old(self),
            res is Ok ==> {
                &&& final(self).same_shape(old(self))
                &&& final(self).advice@ == old(self).advice@
                &&& final(self).selectors@ == old(self).selectors@
                &&& final(self).instance@ == old(self).instance@
                &&& final(self).tables@ == old(self).tables@
                &&& final(self).copies@ == old(self).copies@.push((left, right))
                &&& final(self).next_row == old(self).next_row
            },
    {
        if !(left.row < self.usable_rows && right.row < self.usable_rows) {
            return Err(Error::NotEnoughRowsAvailable { current_k: self.k });
        }
        if !self.cs.is_equality_enabled(left.column) {
            return Err(Error::ColumnNotInPermutation(left.column));
        }
        if !self.cs.is_equality_enabled(right.column) {
            return Err(Error::ColumnNotInPermutation(right.column));
        }
        self.copies.push((left, right));
        proof {
            assert forall|i: int| 0 <= i < self.copies@.len() implies self.copy_wf(
                #[trigger] self.copies@[i],
            ) by {
                if i < old(self).copies@.len() {
                    assert(old(self).copy_wf(old(self).copies@[i]));
                }
            }
        }
        Ok(())
    }

    /// Loads `values` into table column `t`, from row 0 on.
    pub fn assign_table(&mut self, t: usize, values: Vec<Felt>) -> (res: Result<(), Error>)
        requires
            old(self).wf(),
            t < old(self).cs.num_tables,
        ensures
            final(self).wf(),
            res is Err <==> table_error(old(self), seq![t], values@.len()) is Some,
            res matches Err(e) ==> table_error(old(self), seq![t], values@.len()) == Some(e)
                && *final(self) == *old(self),
            res is Ok ==> {
                &&& final(self).same_shape(old(self))
                &&& final(self).advice@ == old(self).advice@
                &&& final(self).selectors@ == old(self).selectors@
                &&& final(self).instance@ == old(self).instance@
                &&& final(self).tables@ == old(self).tables@.update(t as int, values)
                &&& final(self).copies@ == old(self).copies@
                &&& final(self).next_row == old(self).next_row
            },
    {
        proof {
            assert(seq![t][0] == t);
        }
        if self.tables[t].len() > 0 {
            return Err(Error::Synthesis);
        }
        if values.len() >= self.usable_rows {
            return Err(Error::NotEnoughRowsAvailable { current_k: self.k });
        }
        if values.len() == 0 {
            return Err(Error::Synthesis);
        }
        self.tables.set(t, values);
        Ok(())
    }

    /// Loads `first` and `second`, of equal length, into table columns `t1`
    /// and `t2`, from row 0 on.
    pub fn assign_table_pair(
        &mut self,
        t1: usize,
        t2: usize,
        first: Vec<Felt>,
        second: Vec<Felt>,
    ) -> (res: Result<(), Error>)
        requires
            old(self).wf(),
            t1 < old(self).cs.num_tables,
            t2 < old(self).cs.num_tables,
            t1 != t2,
            first@.len() == second@.len(),
        ensures
            final(self).wf(),
            res is Err <==> table_error(old(self), seq![t1, t2], first@.len()) is Some,
            res matches Err(e) ==> table_error(old(self), seq![t1, t2], first@.len()) == Some(e)
                && *final(self) == *old(self),
            res is Ok ==> {
                &&& final(self).same_shape(old(self))
                &&& final(self).advice@ == old(self).advice@
                &&& final(self).selectors@ == old(self).selectors@
                &&& final(self).instance@ == old(self).instance@
                &&& final(self).tables@ == old(self).tables@.update(t1 as int, first).update(
                    t2 as int,
                    second,
                )
                &&& final(self).copies@ == old(self).copies@
                &&& final(self).next_row == old(self).next_row
            },
    {
        proof {
            assert(seq![t1, t2][0] == t1);
            assert(seq![t1, t2][1] == t2);
        }
        if self.tables[t1].len() > 0 || self.tables[t2].len() > 0 {
            return Err(Error::Synthesis);
        }
        if first.len() >= self.usable_rows {
            return Err(Error::NotEnoughRowsAvailable { current_k: self.k });
        }
        if first.len() == 0 {
            return Err(Error::Synthesis);
        }
        self.tables.set(t1, first);
        self.tables.set(t2, second);
        Ok(())
    }
}

impl MockProver {
    /// Copies instance cell `(instance, instance_row)` into advice cell
    /// `(advice, row)` and constrains the two to be equal.
    pub fn assign_advice_from_instance(
        &mut self,
        instance: Column,
        instance_row: usize,
        advice: Column,
        row: usize,
    ) -> (res: Result<AssignedCell, Error>)
        requires
            old(self).wf(),
            instance.kind == ColumnKind::Instance,
            instance.index < old(self).cs.num_instance,
            advice.kind == ColumnKind::Advice,
            advice.index < old(self).cs.num_advice,
        ensures
            final(self).wf(),
            final(self).same_shape(old(self)),
            final(self).instance@ == old(self).instance@,
            final(self).selectors@ == old(self).selectors@,
            final(self).tables@ == old(self).tables@,
            final(self).next_row == old(self).next_row,
            !(row < old(self).usable_rows && instance_row < old(self).usable_rows) ==> *final(self)
                == *old(self),
            res is Err <==> copy_error(
                old(self),
                CellRef { column: advice, row },
                CellRef { column: instance, row: instance_row },
            ) is Some,
            res matches Err(e) ==> copy_error(
                old(self),
                CellRef { column: advice, row },
                CellRef { column: instance, row: instance_row },
            ) == Some(e),
            res matches Ok(cell) ==> {
                &&& cell.cell == (CellRef { column: advice, row })
                &&& cell.value@ == old(self).instance_at(instance.index as int, instance_row as int)
                &&& final(self).advice_updated(old(self), advice.index as int, row as int, cell.value)
                &&& final(self).copies@ == old(self).copies@.push(
                    (cell.cell, CellRef { column: instance, row: instance_row }),
                )
            },
    {
        let value = match self.query_instance(instance, instance_row) {
            Ok(v) => v,
            Err(e) => {
                return Err(e);
            },
        };
        let cell = match self.assign_advice(advice, row, value) {
            Ok(c) => c,
            Err(e) => {
                return Err(e);
            },
        };
        let ghost mid = *self;
        match self.copy(cell.cell, CellRef { column: instance, row: instance_row }) {
            Ok(()) => {},
            Err(e) => {
                return Err(e);
            },
        }
        proof {
            assert(self.advice@ == mid.advice@);
            assert forall|c2: int, r2: int|
                0 <= c2 < self.advice@.len() && 0 <= r2 < self.n implies #[trigger] self.advice_at(
                c2,
                r2,
            ) == if c2 == advice.index as int && r2 == row as int {
                Some(cell.value)
            } else {
                old(self).advice_at(c2, r2)
            } by {
                assert(mid.advice_at(c2, r2) == self.advice_at(c2, r2));
            }
        }
        Ok(cell)
    }
}

} // verus!
