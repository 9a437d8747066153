use halo2_learning::context::{Context, GateChip};
use halo2_learning::field::Felt;
use halo2_learning::fibonacci::FibonacciCircuit;
use halo2_learning::fibonacci_context::{compute_fibonacci, fibonacci_last_two, CircuitInput};

const P_MINUS_ONE: &str =
    "28948022309329048855892746252171976963363056481941560715954676764349967630336";

#[test]
fn field_arithmetic_wraps_at_the_modulus() {
    let m1 = Felt::from_str_vartime(P_MINUS_ONE).unwrap();
    assert!(m1.add(&Felt::one()).equals(&Felt::zero()));
    assert!(Felt::zero().sub(&Felt::one()).equals(&m1));
    assert!(m1.mul(&m1).equals(&Felt::one()));
    assert!(Felt::from_u64(6).mul(&Felt::from_u64(7)).equals(&Felt::from_u64(42)));
    assert!(Felt::from_u64(10).sub(&Felt::from_u64(3)).equals(&Felt::from_u64(7)));
    assert!(!Felt::from_u64(1).equals(&Felt::from_u64(2)));
}

#[test]
fn decimal_parsing() {
    assert!(Felt::from_str_vartime("0").unwrap().equals(&Felt::zero()));
    assert!(Felt::from_str_vartime("55").unwrap().equals(&Felt::from_u64(55)));
    assert!(Felt::from_str_vartime("").is_none());
    assert!(Felt::from_str_vartime("00").is_none());
    assert!(Felt::from_str_vartime("012").is_none());
    assert!(Felt::from_str_vartime("12a").is_none());
    assert!(Felt::from_str_vartime("-1").is_none());
    // The modulus itself reads as 0.
    let p = "28948022309329048855892746252171976963363056481941560715954676764349967630337";
    assert!(Felt::from_str_vartime(p).unwrap().equals(&Felt::zero()));
}

fn input(a: &str, b: &str, out: &str) -> CircuitInput {
    CircuitInput { a: a.to_string(), b: b.to_string(), out: out.to_string() }
}

#[test]
fn compute_fibonacci_accepts_the_right_output() {
    let mut ctx = Context::new();
    let mut make_public = Vec::new();
    let w = compute_fibonacci(&mut ctx, input("1", "1", "55"), 10, &mut make_public);
    assert!(w.b.value.equals(&Felt::from_u64(55)));
    assert!(w.a.value.equals(&Felt::from_u64(34)));
    assert!(w.out.value.equals(&Felt::from_u64(55)));
    assert_eq!(make_public.len(), 3);
    assert!(make_public[0].value.equals(&Felt::from_u64(1)));
    assert!(make_public[2].value.equals(&Felt::from_u64(55)));
    // Two loaded cells, four per addition, one loaded output.
    assert_eq!(ctx.advice.len(), 2 + 4 * 8 + 1);
    assert!(ctx.verify());
}

#[test]
fn fibonacci_last_two_elements() {
    let (a, b) = fibonacci_last_two(&Felt::from_u64(1), &Felt::from_u64(1), 10);
    assert!(a.equals(&Felt::from_u64(34)));
    assert!(b.equals(&Felt::from_u64(55)));
    // A wrong output fails the computation's final check.
    assert!(!Felt::from_u64(56).equals(&b));
    let (a, b) = fibonacci_last_two(&Felt::from_u64(4), &Felt::from_u64(9), 0);
    assert!(a.equals(&Felt::from_u64(4)));
    assert!(b.equals(&Felt::from_u64(9)));
    let (a, b) = fibonacci_last_two(&Felt::from_u64(2), &Felt::from_u64(7), 5);
    assert!(a.equals(&Felt::from_u64(16)));
    assert!(b.equals(&Felt::from_u64(25)));
}

#[test]
fn compute_fibonacci_copies_each_addition() {
    let mut ctx = Context::new();
    let mut make_public = Vec::new();
    let w = compute_fibonacci(&mut ctx, input("2", "7", "25"), 5, &mut make_public);
    // Additions start at cells 2, 6 and 10; elements sit at 0, 1, 5, 9, 13.
    assert_eq!(
        ctx.copies,
        vec![(0, 2), (1, 3), (1, 6), (5, 7), (5, 10), (9, 11), (14, 13)]
    );
    assert_eq!(ctx.constants.len(), 3);
    assert_eq!(ctx.constants[0].0, 4);
    assert_eq!(ctx.constants[2].0, 12);
    assert_eq!(w.a.cell, 9);
    assert_eq!(w.b.cell, 13);
    assert_eq!(w.out.cell, 14);
    assert!(ctx.verify());
}

#[test]
fn compute_fibonacci_short_sequences() {
    let mut ctx = Context::new();
    let mut make_public = Vec::new();
    let w = compute_fibonacci(&mut ctx, input("4", "9", "9"), 1, &mut make_public);
    assert!(w.b.value.equals(&Felt::from_u64(9)));
    assert!(ctx.verify());
}

#[test]
fn gate_chip_addition_layout() {
    let mut ctx = Context::new();
    let a = ctx.load_witness(Felt::from_u64(3));
    let b = ctx.load_witness(Felt::from_u64(4));
    let c = GateChip::new().add(&mut ctx, &a, &b);
    assert_eq!(c.cell, 5);
    assert!(c.value.equals(&Felt::from_u64(7)));
    assert_eq!(ctx.selector, vec![false, false, true, false, false, false]);
    assert!(ctx.verify());
    // Breaking a copied cell breaks the copy constraint.
    ctx.advice[2] = Felt::from_u64(5);
    assert!(!ctx.verify());
}

#[test]
fn canonical_limbs() {
    assert_eq!(Felt::from_u64(5).to_limbs(), [5, 0, 0, 0]);
    let m1 = Felt::from_str_vartime(P_MINUS_ONE).unwrap();
    assert_eq!(
        m1.to_limbs(),
        [0x992d30ed00000000, 0x224698fc094cf91b, 0, 0x4000000000000000]
    );
    assert_eq!(Felt::zero().sub(&Felt::one()).to_limbs(), m1.to_limbs());
}

#[test]
fn the_two_fibonacci_circuits_agree() {
    // From three elements on, the one-column circuit is satisfied exactly on
    // the outputs for which the context computation's final check passes;
    // with fewer its gate at row 0 reads an empty row.
    for n in [1usize, 2, 3, 6, 10] {
        for out in [1u64, 2, 8, 34, 55, 56] {
            let (_, last) = fibonacci_last_two(&Felt::from_u64(1), &Felt::from_u64(1), n);
            let check_passes = Felt::from_u64(out).equals(&last);
            let public = vec![Felt::from_u64(1), Felt::from_u64(1), Felt::from_u64(out)];
            let prover = FibonacciCircuit { fibonacci_number: n }.mock_run(4, vec![public]).unwrap();
            assert_eq!(prover.verify(), n >= 3 && check_passes);
            if check_passes {
                let mut ctx = Context::new();
                let mut make_public = Vec::new();
                let s = out.to_string();
                compute_fibonacci(&mut ctx, input("1", "1", &s), n, &mut make_public);
                assert!(ctx.verify());
            }
        }
    }
}
