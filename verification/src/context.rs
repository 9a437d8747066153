//! A single-column circuit built cell by cell, checked by the vertical gate
//! `q * (a + b * c - d) = 0`: where `q` is enabled at a cell, that cell and
//! the three below it must satisfy `a + b * c = d`.
use crate::field::{fadd, fmul, fsub, Felt};
use vstd::prelude::*;

verus! {

/// A cell of a context, with its value.
#[derive(Clone, Copy, Debug)]
pub struct AssignedValue {
    pub value: Felt,
    pub cell: usize,
}

/// The column a circuit builds, one cell after the other.
pub struct Context {
    /// The cells' values.
    pub advice: Vec<Felt>,
    /// Whether the vertical gate is enabled at each cell.
    pub selector: Vec<bool>,
    /// Pairs of cells constrained to be equal.
    pub copies: Vec<(usize, usize)>,
    /// Cells constrained to hold a constant.
    pub constants: Vec<(usize, Felt)>,
}

impl Context {
    /// Every constraint names a cell of the column, and each cell has a
    /// selector.
    pub open spec fn wf(&self) -> bool {
        &&& self.selector@.len() == self.advice@.len()
        &&& forall|i: int|
            0 <= i < self.copies@.len() ==> (#[trigger] self.copies@[i]).0 < self.advice@.len()
                && self.copies@[i].1 < self.advice@.len()
        &&& forall|i: int|
            0 <= i < self.constants@.len() ==> (#[trigger] self.constants@[i]).0
                < self.advice@.len()
    }

    /// The value of cell `i`.
    pub open spec fn value_at(&self, i: int) -> nat {
        self.advice@[i]@
    }

    /// Whether the vertical gate holds at cell `i`.
    pub open spec fn gate_holds(&self, i: int) -> bool {
        self.selector@[i] ==> {
            &&& i + 3 < self.advice@.len()
            &&& fsub(
                fadd(self.value_at(i), fmul(self.value_at(i + 1), self.value_at(i + 2))),
                self.value_at(i + 3),
            ) == 0
        }
    }

    /// Whether `a` is a cell of this context holding its recorded value.
    pub open spec fn holds(&self, a: AssignedValue) -> bool {
        &&& a.cell < self.advice@.len()
        &&& self.advice@[a.cell as int] == a.value
    }

    /// The column satisfies the vertical gate at every cell, every copy constraint
    /// and every constant.
    pub open spec fn satisfied(&self) -> bool {
        &&& forall|i: int| 0 <= i < self.advice@.len() ==> #[trigger] self.gate_holds(i)
        &&& forall|i: int|
            0 <= i < self.copies@.len() ==> self.value_at((#[trigger] self.copies@[i]).0 as int)
                == self.value_at(self.copies@[i].1 as int)
        &&& forall|i: int|
            0 <= i < self.constants@.len() ==> self.value_at(
                (#[trigger] self.constants@[i]).0 as int,
            ) == self.constants@[i].1@
    }

    /// An empty context.
    pub fn new() -> (ctx: Context)
        ensures
            ctx.wf(),
            ctx.satisfied(),
            ctx.advice@.len() == 0,
            ctx.copies@.len() == 0,
            ctx.constants@.len() == 0,
    {
        Context { advice: Vec::new(), selector: Vec::new(), copies: Vec::new(), constants: Vec::new() }
    }

    /// Appends a cell holding `v`, with its selector off.
    pub fn load_witness(&mut self, v: Felt) -> (a: AssignedValue)
        requires
            old(self).wf(),
            old(self).advice@.len() < usize::MAX,
        ensures
            final(self).wf(),
            a == (AssignedValue { value: v, cell: old(self).advice@.len() as usize }),
            final(self).advice@ == old(self).advice@.push(v),
            final(self).selector@ == old(self).selector@.push(false),
            final(self).copies@ == old(self).copies@,
            final(self).constants@ == old(self).constants@,
            old(self).satisfied() ==> final(self).satisfied(),
    {
        let cell = self.advice.len();
        self.advice.push(v);
        self.selector.push(false);
        proof {
            if old(self).satisfied() {
                assert forall|i: int| 0 <= i < self.advice@.len() implies #[trigger] self.gate_holds(
                    i,
                ) by {
                    if i < old(self).advice@.len() {
                        assert(old(self).gate_holds(i));
                    }
                }
            }
        }
        AssignedValue { value: v, cell }
    }

    /// Constrains cells `a` and `b` to be equal.
    pub fn constrain_equal(&mut self, a: &AssignedValue, b: &AssignedValue)
        requires
            old(self).wf(),
            old(self).holds(*a),
            old(self).holds(*b),
        ensures
            final(self).wf(),
            final(self).advice@ == old(self).advice@,
            final(self).selector@ == old(self).selector@,
            final(self).copies@ == old(self).copies@.push((a.cell, b.cell)),
            final(self).constants@ == old(self).constants@,
            final(self).satisfied() <==> (old(self).satisfied() && a.value@ == b.value@),
    {
        self.copies.push((a.cell, b.cell));
        proof {
            assert(self.value_at(a.cell as int) == a.value@);
            assert(self.value_at(b.cell as int) == b.value@);
            if old(self).satisfied() && a.value@ == b.value@ {
                assert forall|i: int|
                    0 <= i < self.copies@.len() implies self.value_at(
                    (#[trigger] self.copies@[i]).0 as int,
                ) == self.value_at(self.copies@[i].1 as int) by {
                    if i < old(self).copies@.len() {
                        assert(old(self).value_at(old(self).copies@[i].0 as int) == old(
                            self,
                        ).value_at(old(self).copies@[i].1 as int));
                    }
                }
                assert forall|i: int| 0 <= i < self.advice@.len() implies #[trigger] self.gate_holds(
                    i,
                ) by {
                    assert(old(self).gate_holds(i));
                }
            }
            if self.satisfied() {
                assert(self.copies@[old(self).copies@.len() as int] == (a.cell, b.cell));
                assert forall|i: int| 0 <= i < old(self).advice@.len() implies #[trigger] old(
                    self,
                ).gate_holds(i) by {
                    assert(self.gate_holds(i));
                }
                assert forall|i: int|
                    0 <= i < old(self).copies@.len() implies old(self).value_at(
                    (#[trigger] old(self).copies@[i]).0 as int,
                ) == old(self).value_at(old(self).copies@[i].1 as int) by {
                    assert(self.copies@[i] == old(self).copies@[i]);
                }
            }
        }
    }

    /// Whether the column satisfies all its constraints: at every cell with
    /// the vertical gate on, that cell and the three below exist and
    /// `a + b * c = d` holds in the field; every copied pair of cells holds
    /// equal values; every cell fixed to a constant holds it.
    pub fn verify(&self) -> (r: bool)
        requires
            self.wf(),
        ensures
            r == self.satisfied(),
            r <==> {
                &&& forall|i: int|
                    0 <= i < self.advice@.len() && #[trigger] self.selector@[i] ==> i + 3
                        < self.advice@.len() && self.advice@[i + 3]@ == fadd(
                        self.advice@[i]@,
                        fmul(self.advice@[i + 1]@, self.advice@[i + 2]@),
                    )
                &&& forall|i: int|
                    0 <= i < self.copies@.len() ==> self.advice@[(#[trigger] self.copies@[i]).0 as int]@
                        == self.advice@[self.copies@[i].1 as int]@
                &&& forall|i: int|
                    0 <= i < self.constants@.len() ==> self.advice@[(
                    #[trigger] self.constants@[i]).0 as int]@ == self.constants@[i].1@
            },
    {
        proof {
            lemma_context_constraints(*self);
        }
        self.check_constraints()
    }

    /// Checks the vertical gate at every cell, then the copies, then the constants.
    fn check_constraints(&self) -> (r: bool)
        requires
            self.wf(),
        ensures
            r == self.satisfied(),
    {
        let mut i: usize = 0;
        while i < self.advice.len()
            invariant
                self.wf(),
                0 <= i <= self.advice@.len(),
                forall|j: int| 0 <= j < i ==> #[trigger] self.gate_holds(j),
            decreases self.advice@.len() - i,
        {
            if self.selector[i] {
                if self.advice.len() - i <= 3 {
                    assert(!self.gate_holds(i as int));
                    return false;
                }
                let s = self.advice[i].add(&self.advice[i + 1].mul(&self.advice[i + 2])).sub(
                    &self.advice[i + 3],
                );
                if !s.equals(&Felt::zero()) {
                    assert(!self.gate_holds(i as int));
                    return false;
                }
            }
            i = i + 1;
        }
        let mut i: usize = 0;
        while i < self.copies.len()
            invariant
                self.wf(),
                0 <= i <= self.copies@.len(),
                forall|j: int| 0 <= j < self.advice@.len() ==> #[trigger] self.gate_holds(j),
                forall|j: int|
                    0 <= j < i ==> self.value_at((#[trigger] self.copies@[j]).0 as int)
                        == self.value_at(self.copies@[j].1 as int),
            decreases self.copies@.len() - i,
        {
            let (l, r) = self.copies[i];
            if !self.advice[l].equals(&self.advice[r]) {
                return false;
            }
            i = i + 1;
        }
        let mut i: usize = 0;
        while i < self.constants.len()
            invariant
                self.wf(),
                0 <= i <= self.constants@.len(),
                forall|j: int| 0 <= j < self.advice@.len() ==> #[trigger] self.gate_holds(j),
                forall|j: int|
                    0 <= j < self.copies@.len() ==> self.value_at((#[trigger] self.copies@[j]).0 as int)
                        == self.value_at(self.copies@[j].1 as int),
                forall|j: int|
                    0 <= j < i ==> self.value_at((#[trigger] self.constants@[j]).0 as int)
                        == self.constants@[j].1@,
            decreases self.constants@.len() - i,
        {
            let (c, v) = self.constants[i];
            if !self.advice[c].equals(&v) {
                return false;
            }
            i = i + 1;
        }
        true
    }
}

/// The chip that lays out arithmetic in the vertical gate.
#[derive(Clone, Copy, Debug)]
pub struct GateChip {}

impl GateChip {
    /// A gate chip.
    pub fn new() -> (chip: GateChip) {
        GateChip {  }
    }

    /// Appends the cells `a, b, 1, a + b` with the vertical gate enabled at the
    /// first, copies `a` and `b` in from their cells, fixes the third cell
    /// to the constant 1, and returns the last cell.
    pub fn add(&self, ctx: &mut Context, a: &AssignedValue, b: &AssignedValue) -> (c:
        AssignedValue)
        requires
            old(ctx).wf(),
            old(ctx).holds(*a),
            old(ctx).holds(*b),
            old(ctx).advice@.len() + 4 <= usize::MAX,
        ensures
            final(ctx).wf(),
            c.cell == old(ctx).advice@.len() + 3,
            c.value@ == fadd(a.value@, b.value@),
            final(ctx).holds(c),
            final(ctx).advice@.len() == old(ctx).advice@.len() + 4,
            final(ctx).advice@.subrange(0, old(ctx).advice@.len() as int) == old(ctx).advice@,
            final(ctx).advice@[old(ctx).advice@.len() as int] == a.value,
            final(ctx).advice@[old(ctx).advice@.len() + 1int] == b.value,
            final(ctx).value_at(old(ctx).advice@.len() + 2int) == 1,
            final(ctx).selector@ == old(ctx).selector@ + seq![true, false, false, false],
            final(ctx).copies@ == old(ctx).copies@.push(
                (a.cell, old(ctx).advice@.len() as usize),
            ).push((b.cell, (old(ctx).advice@.len() + 1) as usize)),
            final(ctx).constants@.len() == old(ctx).constants@.len() + 1,
            final(ctx).constants@.drop_last() == old(ctx).constants@,
            final(ctx).constants@.last().0 == old(ctx).advice@.len() + 2,
            final(ctx).constants@.last().1@ == 1,
            old(ctx).satisfied() ==> final(ctx).satisfied(),
    {
        let start = ctx.advice.len();
        let one = Felt::one();
        let sum = a.value.add(&b.value);
        ctx.advice.push(a.value);
        ctx.advice.push(b.value);
        ctx.advice.push(one);
        ctx.advice.push(sum);
        ctx.selector.push(true);
        ctx.selector.push(false);
        ctx.selector.push(false);
        ctx.selector.push(false);
        ctx.copies.push((a.cell, start));
        ctx.copies.push((b.cell, start + 1));
        ctx.constants.push((start + 2, one));
        proof {
            let n = start as int;
            assert(ctx.selector@ =~= old(ctx).selector@ + seq![true, false, false, false]);
            if old(ctx).satisfied() {
                assert forall|i: int| 0 <= i < ctx.advice@.len() implies #[trigger] ctx.gate_holds(i) by {
                    if i < n {
                        assert(old(ctx).gate_holds(i));
                    } else if i == n {
                        crate::field::lemma_value_bound(b.value);
                        crate::field::lemma_small_mod(b.value@);
                        assert(fmul(b.value@, 1) == b.value@);
                        let x = fadd(a.value@, b.value@);
                        assert(x < crate::field::modulus());
                        crate::field::lemma_small_mod(x);
                        vstd::arithmetic::div_mod::lemma_mod_self_0(crate::field::modulus() as int);
                        assert(fsub(x, x) == 0);
                    }
                }
                assert forall|i: int|
                    0 <= i < ctx.copies@.len() implies ctx.value_at((#[trigger] ctx.copies@[i]).0 as int)
                    == ctx.value_at(ctx.copies@[i].1 as int) by {
                    if i < old(ctx).copies@.len() {
                        assert(old(ctx).value_at(old(ctx).copies@[i].0 as int) == old(ctx).value_at(
                            old(ctx).copies@[i].1 as int,
                        ));
                    }
                }
                assert forall|i: int|
                    0 <= i < ctx.constants@.len() implies ctx.value_at(
                    (#[trigger] ctx.constants@[i]).0 as int,
                ) == ctx.constants@[i].1@ by {
                    if i < old(ctx).constants@.len() {
                        assert(old(ctx).value_at(old(ctx).constants@[i].0 as int)
                            == old(ctx).constants@[i].1@);
                    }
                }
            }
            assert(ctx.advice@.subrange(0, start as int) =~= old(ctx).advice@);
            assert(ctx.constants@.drop_last() =~= old(ctx).constants@);
        }
        AssignedValue { value: sum, cell: start + 3 }
    }
}

/// What a context's constraints ask, cell by cell: it satisfies them exactly
/// when at every cell with the vertical gate on, that cell and the three
/// below exist and `a + b * c = d` holds in the field, every copied pair of
/// cells holds equal values, and every cell fixed to a constant holds it.
pub proof fn lemma_context_constraints(ctx: Context)
    requires
        ctx.wf(),
    ensures
        ctx.satisfied() <==> {
            &&& forall|i: int|
                0 <= i < ctx.advice@.len() && #[trigger] ctx.selector@[i] ==> i + 3
                    < ctx.advice@.len() && ctx.advice@[i + 3]@ == fadd(
                    ctx.advice@[i]@,
                    fmul(ctx.advice@[i + 1]@, ctx.advice@[i + 2]@),
                )
            &&& forall|i: int|
                0 <= i < ctx.copies@.len() ==> ctx.advice@[(#[trigger] ctx.copies@[i]).0 as int]@
                    == ctx.advice@[ctx.copies@[i].1 as int]@
            &&& forall|i: int|
                0 <= i < ctx.constants@.len() ==> ctx.advice@[(
                #[trigger] ctx.constants@[i]).0 as int]@ == ctx.constants@[i].1@
        },
{
    assert forall|i: int| 0 <= i < ctx.advice@.len() implies (#[trigger] ctx.gate_holds(i) <==> (
    ctx.selector@[i] ==> i + 3 < ctx.advice@.len() && ctx.advice@[i + 3]@ == fadd(
        ctx.advice@[i]@,
        fmul(ctx.advice@[i + 1]@, ctx.advice@[i + 2]@),
    ))) by {
        if ctx.selector@[i] && i + 3 < ctx.advice@.len() {
            let x = fadd(ctx.advice@[i]@, fmul(ctx.advice@[i + 1]@, ctx.advice@[i + 2]@));
            crate::field::lemma_value_bound(ctx.advice@[i + 3]);
            crate::field::lemma_fsub_zero(x, ctx.advice@[i + 3]@);
        }
    }
    if ctx.satisfied() {
        assert forall|i: int|
            0 <= i < ctx.advice@.len() && #[trigger] ctx.selector@[i] implies i + 3
                < ctx.advice@.len() && ctx.advice@[i + 3]@ == fadd(
                ctx.advice@[i]@,
                fmul(ctx.advice@[i + 1]@, ctx.advice@[i + 2]@),
            ) by {
            assert(ctx.gate_holds(i));
        }
    }
}

/// An accepted addition of the chip: where a context that satisfies its
/// constraints has the vertical gate on at cell `s` and cell `s + 2` fixed
/// to the constant 1, cell `s + 2` holds 1 and cell `s + 3` holds the sum of
/// cells `s` and `s + 1`.
pub proof fn lemma_accepted_addition(ctx: Context, s: int, k: int)
    requires
        ctx.wf(),
        ctx.satisfied(),
        0 <= s < ctx.advice@.len(),
        ctx.selector@[s],
        0 <= k < ctx.constants@.len(),
        ctx.constants@[k].0 == s + 2,
        ctx.constants@[k].1@ == 1,
    ensures
        s + 3 < ctx.advice@.len(),
        ctx.advice@[s + 2]@ == 1,
        ctx.advice@[s + 3]@ == fadd(ctx.advice@[s]@, ctx.advice@[s + 1]@),
{
    lemma_context_constraints(ctx);
    assert(ctx.selector@[s]);
    assert(ctx.advice@[ctx.constants@[k].0 as int]@ == ctx.constants@[k].1@);
    crate::field::lemma_value_bound(ctx.advice@[s + 1]);
    crate::field::lemma_small_mod(ctx.advice@[s + 1]@);
    assert(fmul(ctx.advice@[s + 1]@, 1) == ctx.advice@[s + 1]@);
}

} // verus!
