//! The Fibonacci computation written cell by cell in a `Context`: the two
//! starting values are loaded and made public, each further element is laid
//! out by the chip's addition, and the expected output is loaded, made
//! public and constrained equal to the last element.
use crate::context::{AssignedValue, Context, GateChip};
use crate::fibonacci::{fib, fibonacci_grid, lemma_fibonacci_satisfied, region_height};
use crate::mock_prover::MockProver;
use crate::field::{decimal_value, is_canonical_decimal, modulus, Felt};
use vstd::prelude::*;

verus! {

/// The circuit's input: the two starting values and the expected output, as
/// decimal numerals.
#[derive(Debug)]
pub struct CircuitInput {
    pub a: String,
    pub b: String,
    pub out: String,
}

/// The field element a decimal numeral reads as.
pub open spec fn parsed(s: Seq<char>) -> nat {
    decimal_value(s) % modulus()
}

/// The value of cell `i` of the Fibonacci layout, counted from its first
/// cell: the two starting values, then for each step `t` the four cells
/// `fib(t), fib(t + 1), 1, fib(t + 2)` of one addition.
pub open spec fn layout_value(a0: nat, b0: nat, i: int) -> nat {
    if i == 0 {
        a0
    } else if i == 1 {
        b0
    } else {
        let t = (i - 2) / 4;
        let j = (i - 2) % 4;
        if j == 0 {
            fib(a0, b0, t as nat)
        } else if j == 1 {
            fib(a0, b0, (t + 1) as nat)
        } else if j == 2 {
            1
        } else {
            fib(a0, b0, (t + 2) as nat)
        }
    }
}

/// Whether the vertical gate is enabled at cell `i` of the Fibonacci
/// layout: at the first cell of each addition.
pub open spec fn layout_selector(i: int) -> bool {
    i >= 2 && (i - 2) % 4 == 0
}

/// The cell that holds element `j` of the sequence in the layout that
/// starts at cell `base`: elements 0 and 1 are the two loaded cells, and
/// element `j >= 2` is the last cell of addition `j - 2`.
pub open spec fn element_cell(base: int, j: int) -> int {
    if j < 2 {
        base + j
    } else {
        base + 4 * j - 3
    }
}

/// The copy constraints of the first `steps` additions of the layout that
/// starts at cell `base`: addition `t` copies elements `t` and `t + 1` into
/// its first two cells.
pub open spec fn layout_copies(base: int, steps: nat) -> Seq<(usize, usize)> {
    Seq::new(
        2 * steps,
        |k: int|
            if k % 2 == 0 {
                (element_cell(base, k / 2) as usize, (base + 2 + 4 * (k / 2)) as usize)
            } else {
                (element_cell(base, k / 2 + 1) as usize, (base + 3 + 4 * (k / 2)) as usize)
            },
    )
}

/// Whether `input.out` reads as the last element of the sequence that
/// `input.a` and `input.b` start: element `fibonacci_number - 1`, or
/// element 1 when fewer than three elements are asked for. These are the
/// inputs on which `compute_fibonacci` finishes; on the others the output
/// check fails.
pub open spec fn output_matches(input: &CircuitInput, fibonacci_number: nat) -> bool {
    parsed(input.out@) == fib(
        parsed(input.a@),
        parsed(input.b@),
        (region_height(fibonacci_number) - 1) as nat,
    )
}

/// The cells `compute_fibonacci` ends with: the last two elements of the
/// sequence and the loaded output.
#[derive(Clone, Copy, Debug)]
pub struct FibonacciWitnesses {
    pub a: AssignedValue,
    pub b: AssignedValue,
    pub out: AssignedValue,
}

/// Reads a decimal numeral that is known to be canonical.
fn parse_field(s: &String) -> (x: Felt)
    requires
        is_canonical_decimal(s@),
    ensures
        x@ == parsed(s@),
{
    match Felt::from_str_vartime(s.as_str()) {
        Some(x) => x,
        None => {
            proof {
                assert(false);
            }
            Felt::zero()
        },
    }
}

/// The last two elements of the sequence that starts `a, b`, up to element
/// `fibonacci_number - 1` (elements 0 and 1 when fewer than three elements
/// are asked for), computed by field additions.
pub fn fibonacci_last_two(a: &Felt, b: &Felt, fibonacci_number: usize) -> (r: (Felt, Felt))
    ensures
        r.0@ == fib(a@, b@, (region_height(fibonacci_number as nat) - 2) as nat),
        r.1@ == fib(a@, b@, (region_height(fibonacci_number as nat) - 1) as nat),
{
    let mut x = *a;
    let mut y = *b;
    let mut row: usize = 2;
    while row < fibonacci_number
        invariant
            2 <= row <= region_height(fibonacci_number as nat),
            x@ == fib(a@, b@, (row - 2) as nat),
            y@ == fib(a@, b@, (row - 1) as nat),
        decreases fibonacci_number - row,
    {
        let z = x.add(&y);
        x = y;
        y = z;
        row = row + 1;
    }
    (x, y)
}

/// Lays out the Fibonacci sequence from `input.a` and `input.b` up to
/// element `fibonacci_number - 1` in `ctx`: the two starting values are
/// loaded and made public, each further element is one addition of the
/// chip, copying in the two elements before it, and the loaded output
/// `input.out` is made public and constrained equal to the last element.
/// The output must be that element (the computation's final check); a
/// context that was satisfied then stays satisfied.
pub fn compute_fibonacci(
    ctx: &mut Context,
    input: CircuitInput,
    fibonacci_number: usize,
    make_public: &mut Vec<AssignedValue>,
) -> (w: FibonacciWitnesses)
    requires
        old(ctx).wf(),
        is_canonical_decimal(input.a@),
        is_canonical_decimal(input.b@),
        is_canonical_decimal(input.out@),
        output_matches(&input, fibonacci_number as nat),
        old(ctx).advice@.len() + 4 * fibonacci_number + 3 <= usize::MAX,
    ensures
        final(ctx).wf(),
        ({
            let a0 = parsed(input.a@);
            let b0 = parsed(input.b@);
            let h = region_height(fibonacci_number as nat);
            &&& w.a.value@ == fib(a0, b0, (h - 2) as nat)
            &&& w.b.value@ == fib(a0, b0, (h - 1) as nat)
            &&& w.out.value@ == parsed(input.out@)
            &&& final(ctx).holds(w.a)
            &&& final(ctx).holds(w.b)
            &&& final(ctx).holds(w.out)
            &&& final(ctx).advice@.len() == old(ctx).advice@.len() + 4 * (h - 2) + 3
            &&& final(ctx).advice@.subrange(0, old(ctx).advice@.len() as int) == old(ctx).advice@
            &&& forall|i: int|
                0 <= i < 4 * (h - 2) + 2 ==> #[trigger] final(ctx).value_at(
                    old(ctx).advice@.len() + i,
                ) == layout_value(a0, b0, i)
            &&& final(ctx).value_at(old(ctx).advice@.len() + 4 * (h - 2) + 2) == parsed(input.out@)
            &&& final(ctx).selector@.subrange(0, old(ctx).advice@.len() as int) == old(ctx).selector@
            &&& forall|i: int|
                0 <= i < 4 * (h - 2) + 2 ==> #[trigger] final(ctx).selector@[old(ctx).advice@.len()
                    + i] == layout_selector(i)
            &&& !final(ctx).selector@[old(ctx).advice@.len() + 4 * (h - 2) + 2]
            &&& w.a.cell == element_cell(old(ctx).advice@.len() as int, h - 2)
            &&& w.b.cell == element_cell(old(ctx).advice@.len() as int, h - 1)
            &&& w.out.cell == old(ctx).advice@.len() + 4 * (h - 2) + 2
            &&& final(ctx).copies@ == old(ctx).copies@ + layout_copies(
                old(ctx).advice@.len() as int,
                (h - 2) as nat,
            ) + seq![(w.out.cell, w.b.cell)]
            &&& final(ctx).constants@.len() == old(ctx).constants@.len() + (h - 2)
            &&& final(ctx).constants@.subrange(0, old(ctx).constants@.len() as int)
                == old(ctx).constants@
            &&& forall|t: int|
                0 <= t < h - 2 ==> (#[trigger] final(ctx).constants@[old(ctx).constants@.len()
                    + t]).0 == old(ctx).advice@.len() + 4 + 4 * t
                    && final(ctx).constants@[old(ctx).constants@.len() + t].1@ == 1
            &&& final(make_public)@.len() == old(make_public)@.len() + 3
            &&& final(make_public)@.subrange(0, old(make_public)@.len() as int) == old(make_public)@
            &&& final(make_public)@[old(make_public)@.len() as int].cell == old(ctx).advice@.len()
            &&& final(make_public)@[old(make_public)@.len() as int].value@ == a0
            &&& final(make_public)@[old(make_public)@.len() + 1int].cell == old(ctx).advice@.len() + 1
            &&& final(make_public)@[old(make_public)@.len() + 1int].value@ == b0
            &&& final(make_public)@[old(make_public)@.len() + 2int] == w.out
            &&& old(ctx).satisfied() ==> final(ctx).satisfied()
        }),
{
    let a = parse_field(&input.a);
    let b = parse_field(&input.b);
    let out = parse_field(&input.out);
    let ghost a0 = a@;
    let ghost b0 = b@;
    let ghost start_len = old(ctx).advice@.len();
    let ghost start_public = old(make_public)@;
    let ghost start_copies = old(ctx).copies@;
    let ghost start_consts = old(ctx).constants@;
    let mut a = ctx.load_witness(a);
    let mut b = ctx.load_witness(b);
    make_public.push(a);
    make_public.push(b);
    let gate = GateChip::new();
    let mut row: usize = 2;
    while row < fibonacci_number
        invariant
            ctx.wf(),
            old(ctx).satisfied() ==> ctx.satisfied(),
            2 <= row <= region_height(fibonacci_number as nat),
            ctx.advice@.len() == start_len + 2 + 4 * (row - 2),
            ctx.advice@.subrange(0, start_len as int) == old(ctx).advice@,
            ctx.selector@.subrange(0, start_len as int) == old(ctx).selector@,
            start_len == old(ctx).advice@.len(),
            forall|i: int|
                0 <= i < 4 * (row - 2) + 2 ==> #[trigger] ctx.value_at(start_len + i)
                    == layout_value(a0, b0, i),
            forall|i: int|
                0 <= i < 4 * (row - 2) + 2 ==> #[trigger] ctx.selector@[start_len + i]
                    == layout_selector(i),
            start_len + 4 * fibonacci_number + 3 <= usize::MAX,
            ctx.holds(a),
            ctx.holds(b),
            a.value@ == fib(a0, b0, (row - 2) as nat),
            b.value@ == fib(a0, b0, (row - 1) as nat),
            make_public@.len() == start_public.len() + 2,
            make_public@.subrange(0, start_public.len() as int) == start_public,
            make_public@[start_public.len() as int].cell == start_len,
            make_public@[start_public.len() as int].value@ == a0,
            make_public@[start_public.len() + 1int].cell == start_len + 1,
            make_public@[start_public.len() + 1int].value@ == b0,
            start_copies == old(ctx).copies@,
            start_consts == old(ctx).constants@,
            a.cell == element_cell(start_len as int, row - 2),
            b.cell == element_cell(start_len as int, row - 1),
            ctx.copies@ == start_copies + layout_copies(start_len as int, (row - 2) as nat),
            ctx.constants@.len() == start_consts.len() + (row - 2),
            ctx.constants@.subrange(0, start_consts.len() as int) == start_consts,
            forall|t: int|
                0 <= t < row - 2 ==> (#[trigger] ctx.constants@[start_consts.len() + t]).0
                    == start_len + 4 + 4 * t && ctx.constants@[start_consts.len() + t].1@ == 1,
        decreases fibonacci_number - row,
    {
        let ghost pre = *ctx;
        let ghost before = ctx.advice@;
        let ghost before_sel = ctx.selector@;
        let c = gate.add(ctx, &a, &b);
        proof {
            let base = 4 * (row - 2) + 2;
            let n = before.len() as int;
            assert(n == start_len + base);
            assert forall|i: int| 0 <= i < base + 4 implies #[trigger] ctx.value_at(start_len + i)
                == layout_value(a0, b0, i) by {
                if i < base {
                    assert(pre.value_at(start_len + i) == layout_value(a0, b0, i));
                    assert(ctx.advice@.subrange(0, n)[start_len + i] == before[start_len + i]);
                    assert(ctx.advice@[start_len + i] == before[start_len + i]);
                } else {
                    assert((i - 2) / 4 == row - 2);
                    assert((i - 2) % 4 == i - base);
                    if i == base {
                        assert(ctx.advice@[n] == a.value);
                    } else if i == base + 1 {
                        assert(ctx.advice@[n + 1] == b.value);
                    } else if i == base + 2 {
                        assert(ctx.value_at(n + 2) == 1);
                    } else {
                        assert(ctx.advice@[n + 3] == c.value);
                    }
                }
            }
            assert forall|i: int| 0 <= i < base + 4 implies #[trigger] ctx.selector@[start_len + i]
                == layout_selector(i) by {
                if i < base {
                    assert(pre.selector@[start_len + i] == layout_selector(i));
                    assert(ctx.selector@[start_len + i] == before_sel[start_len + i]);
                } else {
                    assert((i - 2) % 4 == i - base);
                }
            }
            assert(ctx.selector@.subrange(0, start_len as int) =~= before_sel.subrange(0, start_len as int));
            assert(ctx.advice@.subrange(0, start_len as int) =~= before.subrange(0, start_len as int));
            assert(ctx.advice@.subrange(0, before.len() as int) == before);
            assert(ctx.advice@[a.cell as int] == before[a.cell as int]);
            assert(ctx.advice@[b.cell as int] == before[b.cell as int]);
            let t = row - 2;
            assert(layout_copies(start_len as int, (t + 1) as nat) =~= layout_copies(
                start_len as int,
                t as nat,
            ).push((a.cell, (start_len + 2 + 4 * t) as usize)).push(
                (b.cell, (start_len + 3 + 4 * t) as usize),
            ));
            assert(ctx.copies@ =~= start_copies + layout_copies(start_len as int, (t + 1) as nat));
            assert forall|t2: int| 0 <= t2 < t + 1 implies (#[trigger] ctx.constants@[start_consts.len()
                + t2]).0 == start_len + 4 + 4 * t2 && ctx.constants@[start_consts.len() + t2].1@ == 1 by {
                if t2 < t {
                    assert(ctx.constants@.drop_last()[start_consts.len() + t2] == pre.constants@[start_consts.len() + t2]);
                }
            }
            assert(ctx.constants@.subrange(0, start_consts.len() as int) =~= pre.constants@.subrange(0, start_consts.len() as int));
        }
        a = b;
        b = c;
        row = row + 1;
    }
    let ghost pre_out = *ctx;
    let ghost before_out = ctx.advice@;
    let ghost before_out_sel = ctx.selector@;
    let out = ctx.load_witness(out);
    proof {
        assert forall|i: int| 0 <= i < 4 * (row - 2) + 2 implies #[trigger] ctx.value_at(start_len + i)
            == layout_value(a0, b0, i) by {
            assert(ctx.advice@[start_len + i] == before_out[start_len + i]);
            assert(pre_out.value_at(start_len + i) == layout_value(a0, b0, i));
        }
        assert forall|i: int| 0 <= i < 4 * (row - 2) + 2 implies #[trigger] ctx.selector@[start_len + i]
            == layout_selector(i) by {
            assert(pre_out.selector@[start_len + i] == layout_selector(i));
            assert(ctx.selector@[start_len + i] == before_out_sel[start_len + i]);
        }
        assert(ctx.selector@.subrange(0, start_len as int) =~= before_out_sel.subrange(0, start_len as int));
        assert(ctx.advice@.subrange(0, start_len as int) =~= before_out.subrange(0, start_len as int));
    }
    make_public.push(out);
    let ghost mid = *ctx;
    ctx.constrain_equal(&out, &b);
    proof {
        assert(make_public@.subrange(0, start_public.len() as int) =~= start_public);
        assert(ctx.copies@ =~= start_copies + layout_copies(start_len as int, (row - 2) as nat)
            + seq![(out.cell, b.cell)]);
        assert(ctx.advice@.subrange(0, start_len as int) =~= mid.advice@.subrange(0, start_len as int));
        assert forall|i: int| 0 <= i < 4 * (row - 2) + 2 implies #[trigger] ctx.value_at(start_len + i)
            == layout_value(a0, b0, i) by {
            assert(mid.value_at(start_len + i) == layout_value(a0, b0, i));
        }
    }
    FibonacciWitnesses { a, b, out }
}

/// The two Fibonacci circuits agree: a grid of the one-column Fibonacci
/// circuit whose public inputs are the three values of `input` satisfies
/// its constraints exactly when `compute_fibonacci`'s output check passes
/// on `input`, for three elements or more (with fewer, the one-column
/// circuit's gate at row 0 reads a row it never writes).
pub proof fn lemma_circuits_agree(p: MockProver, fibonacci_number: nat, input: CircuitInput)
    requires
        fibonacci_number >= 3,
        fibonacci_grid(p, fibonacci_number, parsed(input.a@), parsed(input.b@)),
        p.instance_at(0, 2) == parsed(input.out@),
    ensures
        p.satisfied() <==> output_matches(&input, fibonacci_number),
{
    lemma_fibonacci_satisfied(p, fibonacci_number, parsed(input.a@), parsed(input.b@));
}

} // verus!
