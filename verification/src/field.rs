//! Elements of the base field of the Pallas curve, the field over which the
//! circuits of this crate are written.
//!
//! An element is held as four little-endian 64-bit limbs. Its mathematical
//! value is the integer those limbs spell, reduced modulo `p`; every element
//! this module hands out is canonical (its limbs spell a number below `p`).
//! The arithmetic itself is done by `pasta_curves` (re-exported by
//! `halo2_proofs` as `pasta`), behind the trusted wrappers at the end of
//! this file.
use halo2_proofs::pasta::group::ff::PrimeField;
use halo2_proofs::pasta::Fp;
use vstd::prelude::*;

verus! {

/// `2^64`, the weight of one limb.
pub open spec fn limb_base() -> nat {
    0x1_0000_0000_0000_0000nat
}

/// The modulus `p` of the Pallas base field.
pub open spec fn modulus() -> nat {
    0x40000000000000000000000000000000224698fc094cf91b992d30ed00000001nat
}

/// The integer spelled by four little-endian 64-bit limbs.
pub open spec fn limbs_value(l: [u64; 4]) -> nat {
    l[0] as nat + limb_base() * (l[1] as nat + limb_base() * (l[2] as nat + limb_base()
        * (l[3] as nat)))
}

/// The field element denoted by four limbs: their integer, reduced mod `p`.
pub open spec fn limbs_elem(l: [u64; 4]) -> nat {
    limbs_value(l) % modulus()
}

/// Field addition on values.
pub open spec fn fadd(a: nat, b: nat) -> nat {
    (a + b) % modulus()
}

/// Field subtraction on values.
pub open spec fn fsub(a: nat, b: nat) -> nat {
    ((a % modulus()) + modulus() - (b % modulus())) as nat % modulus()
}

/// Field multiplication on values.
pub open spec fn fmul(a: nat, b: nat) -> nat {
    (a * b) % modulus()
}

/// Whether `c` is one of the ASCII digits `0` to `9`.
pub open spec fn is_digit(c: char) -> bool {
    '0' <= c && c <= '9'
}

/// The number a string of decimal digits spells.
pub open spec fn decimal_value(s: Seq<char>) -> nat
    decreases s.len(),
{
    if s.len() == 0 {
        0
    } else {
        decimal_value(s.drop_last()) * 10 + ((s.last() as nat) - ('0' as nat)) as nat
    }
}

/// The strings that are read as field elements: a non-empty run of ASCII
/// digits with no leading zero, or the single digit `0`.
pub open spec fn is_canonical_decimal(s: Seq<char>) -> bool {
    &&& s.len() > 0
    &&& forall|i: int| 0 <= i < s.len() ==> is_digit(#[trigger] s[i])
    &&& (s =~= seq!['0'] || s[0] != '0')
}

/// Subtraction of two values below the modulus gives zero exactly when
/// they are equal.
pub proof fn lemma_fsub_zero(a: nat, b: nat)
    requires
        a < modulus(),
        b < modulus(),
    ensures
        fsub(a, b) == 0 <==> a == b,
{
    let p = modulus();
    lemma_small_mod(a);
    lemma_small_mod(b);
    if a == b {
        vstd::arithmetic::div_mod::lemma_mod_self_0(p as int);
    } else if a < b {
        lemma_small_mod((a + p - b) as nat);
    } else {
        vstd::arithmetic::div_mod::lemma_mod_add_multiples_vanish((a - b) as int, p as int);
        lemma_small_mod((a - b) as nat);
    }
}

/// An element of the Pallas base field.
#[derive(Clone, Copy, Debug)]
pub struct Felt {
    limbs: [u64; 4],
}

impl Felt {
    /// The limbs spell a number below the modulus.
    #[verifier::type_invariant]
    spec fn canonical(self) -> bool {
        limbs_value(self.limbs) < modulus()
    }

    /// The element's canonical limbs, least significant first.
    pub fn to_limbs(&self) -> (r: [u64; 4])
        ensures
            limbs_value(r) == self@,
    {
        proof {
            use_type_invariant(self);
            lemma_small_mod(limbs_value(self.limbs));
        }
        self.limbs
    }
}

impl View for Felt {
    type V = nat;

    /// The element's value, in `0..p`.
    closed spec fn view(&self) -> nat {
        limbs_elem(self.limbs)
    }
}

/// Every element's value lies below the modulus.
pub proof fn lemma_value_bound(x: Felt)
    ensures
        x@ < modulus(),
{
}

impl Felt {
    /// The element `x mod p`.
    pub fn from_u64(x: u64) -> (r: Felt)
        ensures
            r@ == x as nat,
    {
        let limbs = fp_from_u64(x);
        proof {
            lemma_small_mod(x as nat);
        }
        Felt { limbs }
    }

    /// The element `0`.
    pub fn zero() -> (r: Felt)
        ensures
            r@ == 0,
    {
        Felt::from_u64(0)
    }

    /// The element `1`.
    pub fn one() -> (r: Felt)
        ensures
            r@ == 1,
    {
        Felt::from_u64(1)
    }

    /// Field addition.
    pub fn add(&self, other: &Felt) -> (r: Felt)
        ensures
            r@ == fadd(self@, other@),
    {
        let limbs = fp_add(self.limbs, other.limbs);
        proof {
            lemma_small_mod(limbs_value(limbs));
        }
        Felt { limbs }
    }

    /// Field subtraction.
    pub fn sub(&self, other: &Felt) -> (r: Felt)
        ensures
            r@ == fsub(self@, other@),
    {
        let limbs = fp_sub(self.limbs, other.limbs);
        proof {
            lemma_small_mod(limbs_value(limbs));
            lemma_small_mod(self@);
            lemma_small_mod(other@);
        }
        Felt { limbs }
    }

    /// Field multiplication. The field has no zero divisors: the product
    /// is zero exactly when a factor is.
    pub fn mul(&self, other: &Felt) -> (r: Felt)
        ensures
            r@ == fmul(self@, other@),
            r@ == 0 <==> (self@ == 0 || other@ == 0),
    {
        let limbs = fp_mul(self.limbs, other.limbs);
        proof {
            lemma_small_mod(limbs_value(limbs));
        }
        Felt { limbs }
    }

    /// Whether the two elements are equal in the field.
    pub fn equals(&self, other: &Felt) -> (r: bool)
        ensures
            r == (self@ == other@),
    {
        fp_eq(self.limbs, other.limbs)
    }

    /// Reads a decimal string as a field element, as `PrimeField::from_str_vartime`
    /// does: `None` unless the string is a canonical decimal numeral, and
    /// otherwise the number it spells, reduced mod `p`.
    pub fn from_str_vartime(s: &str) -> (r: Option<Felt>)
        ensures
            r is Some <==> is_canonical_decimal(s@),
            r matches Some(x) ==> x@ == decimal_value(s@) % modulus(),
    {
        match fp_from_str_vartime(s) {
            Some(limbs) => {
                proof {
                    lemma_small_mod(limbs_value(limbs));
                }
                Some(Felt { limbs })
            },
            None => None,
        }
    }
}

/// A number below the modulus is its own residue.
pub proof fn lemma_small_mod(x: nat)
    requires
        x < modulus(),
    ensures
        x % modulus() == x,
{
    vstd::arithmetic::div_mod::lemma_small_mod(x, modulus());
}

/// Wraps `Fp::from(u64)` of `pasta_curves`: the element with the given
/// integer value. Both sides are canonical limbs, converted with
/// `Fp::to_repr`'s little-endian byte order.
#[verifier::external_body]
fn fp_from_u64(x: u64) -> (r: [u64; 4])
    ensures
        limbs_value(r) == x as nat % modulus(),
{
    let b: [u8; 32] = Fp::from(x).into();
    [
        u64::from_le_bytes(b[0..8].try_into().unwrap()),
        u64::from_le_bytes(b[8..16].try_into().unwrap()),
        u64::from_le_bytes(b[16..24].try_into().unwrap()),
        u64::from_le_bytes(b[24..32].try_into().unwrap()),
    ]
}

/// Wraps `Fp::add` of `pasta_curves`, with the operands read by
/// `Fp::from_raw` (which takes any four limbs to their residue mod `p`):
/// the result is the canonical limbs of the sum mod `p`.
#[verifier::external_body]
fn fp_add(a: [u64; 4], b: [u64; 4]) -> (r: [u64; 4])
    ensures
        limbs_value(r) == fadd(limbs_elem(a), limbs_elem(b)),
{
    let b: [u8; 32] = (Fp::from_raw(a) + Fp::from_raw(b)).into();
    [
        u64::from_le_bytes(b[0..8].try_into().unwrap()),
        u64::from_le_bytes(b[8..16].try_into().unwrap()),
        u64::from_le_bytes(b[16..24].try_into().unwrap()),
        u64::from_le_bytes(b[24..32].try_into().unwrap()),
    ]
}

/// Wraps `Fp::sub` of `pasta_curves`, operands read by `Fp::from_raw`:
/// the result is the canonical limbs of the difference mod `p`.
#[verifier::external_body]
fn fp_sub(a: [u64; 4], b: [u64; 4]) -> (r: [u64; 4])
    ensures
        limbs_value(r) == fsub(limbs_elem(a), limbs_elem(b)),
{
    let b: [u8; 32] = (Fp::from_raw(a) - Fp::from_raw(b)).into();
    [
        u64::from_le_bytes(b[0..8].try_into().unwrap()),
        u64::from_le_bytes(b[8..16].try_into().unwrap()),
        u64::from_le_bytes(b[16..24].try_into().unwrap()),
        u64::from_le_bytes(b[24..32].try_into().unwrap()),
    ]
}

/// Wraps `Fp::mul` of `pasta_curves`, operands read by `Fp::from_raw`:
/// the result is the canonical limbs of the product mod `p`. `Fp` is a
/// prime field (it implements `ff::PrimeField`; `p` is prime), so the
/// product is zero exactly when one of the factors is.
#[verifier::external_body]
fn fp_mul(a: [u64; 4], b: [u64; 4]) -> (r: [u64; 4])
    ensures
        limbs_value(r) == fmul(limbs_elem(a), limbs_elem(b)),
        limbs_value(r) == 0 <==> (limbs_elem(a) == 0 || limbs_elem(b) == 0),
{
    let b: [u8; 32] = (Fp::from_raw(a) * Fp::from_raw(b)).into();
    [
        u64::from_le_bytes(b[0..8].try_into().unwrap()),
        u64::from_le_bytes(b[8..16].try_into().unwrap()),
        u64::from_le_bytes(b[16..24].try_into().unwrap()),
        u64::from_le_bytes(b[24..32].try_into().unwrap()),
    ]
}

/// Wraps `PartialEq::eq` of `pasta_curves::Fp`, operands read by
/// `Fp::from_raw`: true exactly when the two residues mod `p` agree.
#[verifier::external_body]
fn fp_eq(a: [u64; 4], b: [u64; 4]) -> (r: bool)
    ensures
        r == (limbs_elem(a) == limbs_elem(b)),
{
    Fp::from_raw(a) == Fp::from_raw(b)
}

/// Wraps `PrimeField::from_str_vartime` (the default method of `ff`, used by
/// `pasta_curves::Fp`): `None` for an empty string, a string with a
/// character other than an ASCII digit, or a leading zero other than the
/// string `0`; otherwise the canonical limbs of the numeral's value mod `p`.
#[verifier::external_body]
fn fp_from_str_vartime(s: &str) -> (r: Option<[u64; 4]>)
    ensures
        r is Some <==> is_canonical_decimal(s@),
        r matches Some(l) ==> limbs_value(l) == decimal_value(s@) % modulus(),
{
    let b: [u8; 32] = Fp::from_str_vartime(s)?.into();
    Some(
        [
            u64::from_le_bytes(b[0..8].try_into().unwrap()),
            u64::from_le_bytes(b[8..16].try_into().unwrap()),
            u64::from_le_bytes(b[16..24].try_into().unwrap()),
            u64::from_le_bytes(b[24..32].try_into().unwrap()),
        ],
    )
}

} // verus!
