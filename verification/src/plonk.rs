//! A Plonkish constraint system and the mock prover that checks a witness
//! against it.
//!
//! A `ConstraintSystem` records the columns, gates, lookups and
//! equality-enabled columns that a circuit's `configure` declares. A
//! `MockProver` holds the grid a circuit's synthesis fills in (advice cells,
//! enabled selectors, loaded lookup tables, the instance columns and the copy
//! constraints) and `verify` decides whether that grid satisfies every gate,
//! lookup and copy constraint.
//!
//! The gates and lookups are those the circuits of this crate use. None of
//! them queries an advice column at more than three rotations, so the number
//! of blinding rows is always `max(3, 3) + 2 = 5`, and of the `2^k` rows of a
//! grid all but the last six are usable.
use vstd::arithmetic::power2::pow2;
use vstd::prelude::*;

verus! {

/// The two kinds of column a copy constraint can join.
#[derive(Clone, Copy, Debug, PartialEq, Eq, Structural)]
pub enum ColumnKind {
    Advice,
    Instance,
}

/// A column of the grid: its kind and its index among columns of that kind.
#[derive(Clone, Copy, Debug, PartialEq, Eq, Structural)]
pub struct Column {
    pub kind: ColumnKind,
    pub index: usize,
}

/// One cell of the grid.
#[derive(Clone, Copy, Debug, PartialEq, Eq, Structural)]
pub struct CellRef {
    pub column: Column,
    pub row: usize,
}

/// A custom gate, switched on row by row by its selector.
#[derive(Clone, Copy, Debug, PartialEq, Eq, Structural)]
pub enum Gate {
    /// `s * (x[r] + x[r+1] - x[r+2]) = 0` on one advice column.
    AddNext { selector: usize, advice: usize },
    /// `s * v * (1 - v) * (2 - v) * ... * (range - 1 - v) = 0` on one advice
    /// cell: for `range >= 1`, zero exactly when `v` is one of `0 .. range`
    /// (the field is prime).
    RangeProduct { selector: usize, advice: usize, range: usize },
}

/// A lookup argument: at every usable row an input tuple must be a row of a
/// table.
#[derive(Clone, Copy, Debug, PartialEq, Eq, Structural)]
pub enum Lookup {
    /// The input `q * v` must occur in one table column.
    Scaled { selector: usize, advice: usize, table: usize },
    /// The input `(q * x + (1 - q) * dx, q * y + (1 - q) * dy)` must occur as
    /// a row of a pair of table columns.
    Pair {
        selector: usize,
        first: usize,
        second: usize,
        first_table: usize,
        second_table: usize,
        first_default: u64,
        second_default: u64,
    },
}

/// Why a synthesis step or the set-up of a mock prover failed.
#[derive(Clone, Copy, Debug, PartialEq, Eq, Structural)]
pub enum Error {
    /// A row outside the usable rows was used, or `2^k` rows are too few.
    NotEnoughRowsAvailable { current_k: u32 },
    /// The number of instance columns handed over differs from the circuit's.
    InvalidInstances,
    /// An instance column holds more values than there are usable rows.
    InstanceTooLarge,
    /// A copy constraint names a column not enabled for equality.
    ColumnNotInPermutation(Column),
    /// A lookup table was loaded empty, or loaded twice.
    Synthesis,
}

/// What a circuit's configuration declares.
pub struct ConstraintSystem {
    pub num_advice: usize,
    pub num_instance: usize,
    pub num_selectors: usize,
    pub num_tables: usize,
    /// The columns enabled for equality (copy) constraints, each once.
    pub equality: Vec<Column>,
    pub gates: Vec<Gate>,
    pub lookups: Vec<Lookup>,
}

impl ConstraintSystem {
    pub open spec fn column_wf(&self, c: Column) -> bool {
        match c.kind {
            ColumnKind::Advice => c.index < self.num_advice,
            ColumnKind::Instance => c.index < self.num_instance,
        }
    }

    pub open spec fn gate_wf(&self, g: Gate) -> bool {
        match g {
            Gate::AddNext { selector, advice } => selector < self.num_selectors && advice
                < self.num_advice,
            Gate::RangeProduct { selector, advice, range } => selector < self.num_selectors
                && advice < self.num_advice,
        }
    }

    pub open spec fn lookup_wf(&self, l: Lookup) -> bool {
        match l {
            Lookup::Scaled { selector, advice, table } => selector < self.num_selectors
                && advice < self.num_advice && table < self.num_tables,
            Lookup::Pair { selector, first, second, first_table, second_table, .. } => selector
                < self.num_selectors && first < self.num_advice && second < self.num_advice
                && first_table < self.num_tables && second_table < self.num_tables,
        }
    }

    /// Every gate, lookup and equality column refers to a declared column.
    pub open spec fn wf(&self) -> bool {
        &&& forall|i: int| 0 <= i < self.gates.len() ==> self.gate_wf(#[trigger] self.gates@[i])
        &&& forall|i: int|
            0 <= i < self.lookups.len() ==> self.lookup_wf(#[trigger] self.lookups@[i])
        &&& forall|i: int|
            0 <= i < self.equality.len() ==> self.column_wf(#[trigger] self.equality@[i])
    }

    /// Whether `c` has been enabled for equality.
    pub open spec fn equality_enabled(&self, c: Column) -> bool {
        self.equality@.contains(c)
    }

    /// Everything but the column counts is as in `old`.
    pub open spec fn same_constraints(&self, old: &ConstraintSystem) -> bool {
        &&& self.equality@ == old.equality@
        &&& self.gates@ == old.gates@
        &&& self.lookups@ == old.lookups@
    }

    /// The largest number of distinct rotations at which one advice column
    /// is queried: the Fibonacci gate reads its column at rotations 0, 1 and
    /// 2; a range-check gate and a lookup read their columns at rotation 0
    /// only.
    pub open spec fn max_advice_queries(&self) -> nat {
        if exists|i: int| 0 <= i < self.gates@.len() && (#[trigger] self.gates@[i]) is AddNext {
            3
        } else if self.gates@.len() > 0 || self.lookups@.len() > 0 {
            1
        } else {
            0
        }
    }

    /// The rows a grid for this system keeps back for blinding:
    /// `max(3, q) + 2` for `q` the largest number of rotations at which one
    /// advice column is queried (the permutation argument's polynomials are
    /// opened at 3 points, each polynomial once more during the multiopen,
    /// and one row more guards against off-by-one errors).
    pub open spec fn blinding_rows(&self) -> nat {
        let q = self.max_advice_queries();
        (if q > 3 {
            q
        } else {
            3
        }) + 2
    }

    /// Computes `blinding_rows` from the system's gates and lookups.
    pub fn blinding_factors(&self) -> (b: usize)
        ensures
            b == self.blinding_rows(),
    {
        let mut q: usize = if self.lookups.len() > 0 {
            1
        } else {
            0
        };
        let mut i: usize = 0;
        while i < self.gates.len()
            invariant
                0 <= i <= self.gates@.len(),
                q <= 1 || q == 3,
                q == 3 <==> exists|j: int| 0 <= j < i && (#[trigger] self.gates@[j]) is AddNext,
                q == 0 <==> (i == 0 && self.lookups@.len() == 0),
            decreases self.gates@.len() - i,
        {
            match self.gates[i] {
                Gate::AddNext { .. } => {
                    q = 3;
                },
                Gate::RangeProduct { .. } => {
                    if q == 0 {
                        q = 1;
                    }
                },
            }
            i = i + 1;
        }
        proof {
            if self.gates@.len() > 0 && !(exists|j: int|
                0 <= j < self.gates@.len() && (#[trigger] self.gates@[j]) is AddNext) {
                assert(q == 1);
            }
        }
        (if q > 3 {
            q
        } else {
            3
        }) + 2
    }

    /// An empty constraint system.
    pub fn new() -> (cs: ConstraintSystem)
        ensures
            cs.wf(),
            cs.num_advice == 0,
            cs.num_instance == 0,
            cs.num_selectors == 0,
            cs.num_tables == 0,
            cs.equality@ == Seq::<Column>::empty(),
            cs.gates@ == Seq::<Gate>::empty(),
            cs.lookups@ == Seq::<Lookup>::empty(),
    {
        ConstraintSystem {
            num_advice: 0,
            num_instance: 0,
            num_selectors: 0,
            num_tables: 0,
            equality: Vec::new(),
            gates: Vec::new(),
            lookups: Vec::new(),
        }
    }

    /// Declares a new advice column.
    pub fn advice_column(&mut self) -> (c: Column)
        requires
            old(self).num_advice < usize::MAX,
        ensures
            c == (Column { kind: ColumnKind::Advice, index: old(self).num_advice }),
            final(self).num_advice == old(self).num_advice + 1,
            final(self).num_instance == old(self).num_instance,
            final(self).num_selectors == old(self).num_selectors,
            final(self).num_tables == old(self).num_tables,
            final(self).same_constraints(old(self)),
            old(self).wf() ==> final(self).wf(),
    {
        let c = Column { kind: ColumnKind::Advice, index: self.num_advice };
        self.num_advice = self.num_advice + 1;
        c
    }

    /// Declares a new instance column.
    pub fn instance_column(&mut self) -> (c: Column)
        requires
            old(self).num_instance < usize::MAX,
        ensures
            c == (Column { kind: ColumnKind::Instance, index: old(self).num_instance }),
            final(self).num_advice == old(self).num_advice,
            final(self).num_instance == old(self).num_instance + 1,
            final(self).num_selectors == old(self).num_selectors,
            final(self).num_tables == old(self).num_tables,
            final(self).same_constraints(old(self)),
            old(self).wf() ==> final(self).wf(),
    {
        let c = Column { kind: ColumnKind::Instance, index: self.num_instance };
        self.num_instance = self.num_instance + 1;
        c
    }

    /// Declares a new selector.
    pub fn selector(&mut self) -> (s: usize)
        requires
            old(self).num_selectors < usize::MAX,
        ensures
            s == old(self).num_selectors,
            final(self).num_advice == old(self).num_advice,
            final(self).num_instance == old(self).num_instance,
            final(self).num_selectors == old(self).num_selectors + 1,
            final(self).num_tables == old(self).num_tables,
            final(self).same_constraints(old(self)),
            old(self).wf() ==> final(self).wf(),
    {
        let s = self.num_selectors;
        self.num_selectors = self.num_selectors + 1;
        s
    }

    /// Declares a selector that may also switch a lookup. The mock prover
    /// treats it exactly as a simple selector: it is 1 on the rows where it is
    /// enabled and 0 elsewhere.
    pub fn complex_selector(&mut self) -> (s: usize)
        requires
            old(self).num_selectors < usize::MAX,
        ensures
            s == old(self).num_selectors,
            final(self).num_advice == old(self).num_advice,
            final(self).num_instance == old(self).num_instance,
            final(self).num_selectors == old(self).num_selectors + 1,
            final(self).num_tables == old(self).num_tables,
            final(self).same_constraints(old(self)),
            old(self).wf() ==> final(self).wf(),
    {
        self.selector()
    }

    /// Declares a new lookup-table column.
    pub fn lookup_table_column(&mut self) -> (t: usize)
        requires
            old(self).num_tables < usize::MAX,
        ensures
            t == old(self).num_tables,
            final(self).num_advice == old(self).num_advice,
            final(self).num_instance == old(self).num_instance,
            final(self).num_selectors == old(self).num_selectors,
            final(self).num_tables == old(self).num_tables + 1,
            final(self).same_constraints(old(self)),
            old(self).wf() ==> final(self).wf(),
    {
        let t = self.num_tables;
        self.num_tables = self.num_tables + 1;
        t
    }

    /// Enables `c` for equality constraints; a column already enabled stays
    /// enabled once.
    pub fn enable_equality(&mut self, c: Column)
        requires
            old(self).column_wf(c),
        ensures
            final(self).num_advice == old(self).num_advice,
            final(self).num_instance == old(self).num_instance,
            final(self).num_selectors == old(self).num_selectors,
            final(self).num_tables == old(self).num_tables,
            final(self).gates@ == old(self).gates@,
            final(self).lookups@ == old(self).lookups@,
            final(self).equality@ == (if old(self).equality@.contains(c) {
                old(self).equality@
            } else {
                old(self).equality@.push(c)
            }),
            old(self).wf() ==> final(self).wf(),
    {
        if !self.is_equality_enabled(c) {
            self.equality.push(c);
        }
    }

    /// Whether `c` has been enabled for equality.
    pub fn is_equality_enabled(&self, c: Column) -> (r: bool)
        ensures
            r == self.equality_enabled(c),
    {
        let mut i: usize = 0;
        while i < self.equality.len()
            invariant
                0 <= i <= self.equality.len(),
                forall|j: int| 0 <= j < i ==> self.equality@[j] != c,
            decreases self.equality.len() - i,
        {
            if self.equality[i] == c {
                return true;
            }
            i = i + 1;
        }
        false
    }

    /// Adds a custom gate.
    pub fn create_gate(&mut self, g: Gate)
        requires
            old(self).gate_wf(g),
        ensures
            final(self).num_advice == old(self).num_advice,
            final(self).num_instance == old(self).num_instance,
            final(self).num_selectors == old(self).num_selectors,
            final(self).num_tables == old(self).num_tables,
            final(self).equality@ == old(self).equality@,
            final(self).gates@ == old(self).gates@.push(g),
            final(self).lookups@ == old(self).lookups@,
            old(self).wf() ==> final(self).wf(),
    {
        self.gates.push(g);
    }

    /// Adds a lookup argument.
    pub fn lookup(&mut self, l: Lookup)
        requires
            old(self).lookup_wf(l),
        ensures
            final(self).num_advice == old(self).num_advice,
            final(self).num_instance == old(self).num_instance,
            final(self).num_selectors == old(self).num_selectors,
            final(self).num_tables == old(self).num_tables,
            final(self).equality@ == old(self).equality@,
            final(self).gates@ == old(self).gates@,
            final(self).lookups@ == old(self).lookups@.push(l),
            old(self).wf() ==> final(self).wf(),
    {
        self.lookups.push(l);
    }
}

} // verus!
