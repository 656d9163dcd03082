//! Elements of the scalar field of BLS12-381.
//!
//! A scalar is held as the four little-endian limbs of its least non-negative
//! representative. Its mathematical value is the view, a natural number below
//! [`modulus`]. Field arithmetic itself is done by `ark-ff`.
use ark_bls12_381::Fr;
use ark_ff::{BigInteger256, PrimeField};
use ark_std::rand::RngCore;
use ark_std::UniformRand;
use vstd::prelude::*;

verus! {

/// The value of four little-endian 64-bit limbs.
pub open spec fn limbs_value(l: Seq<u64>) -> nat
    recommends
        l.len() == 4,
{
    (l[0] as nat) + (l[1] as nat) * 0x10000000000000000nat + (l[2] as nat)
        * 0x100000000000000000000000000000000nat + (l[3] as nat)
        * 0x1000000000000000000000000000000000000000000000000nat
}

/// The order of the scalar field, a prime of 255 bits.
pub open spec fn modulus() -> nat {
    0x73eda753299d7d483339d80809a1d80553bda402fffe5bfeffffffff00000001nat
}

/// The number of bits of [`modulus`].
pub const MODULUS_BITS: usize = 255;

/// Different limbs have different values.
pub proof fn lemma_limbs_value_injective(a: Seq<u64>, b: Seq<u64>)
    requires
        a.len() == 4,
        b.len() == 4,
        limbs_value(a) == limbs_value(b),
    ensures
        a == b,
{
    let w: int = 0x10000000000000000;
    let (a0, a1, a2, a3) = (a[0] as int, a[1] as int, a[2] as int, a[3] as int);
    let (b0, b1, b2, b3) = (b[0] as int, b[1] as int, b[2] as int, b[3] as int);
    let ha = a1 + a2 * w + a3 * (w * w);
    let hb = b1 + b2 * w + b3 * (w * w);
    assert(w * w == 0x100000000000000000000000000000000) by (nonlinear_arith)
        requires
            w == 0x10000000000000000,
    ;
    assert(w * (w * w) == 0x1000000000000000000000000000000000000000000000000)
        by (nonlinear_arith)
        requires
            w == 0x10000000000000000,
    ;
    assert(limbs_value(a) == a0 + w * ha) by (nonlinear_arith)
        requires
            limbs_value(a) == a0 + a1 * w + a2 * (w * w) + a3 * (w * (w * w)),
            ha == a1 + a2 * w + a3 * (w * w),
    ;
    assert(limbs_value(b) == b0 + w * hb) by (nonlinear_arith)
        requires
            limbs_value(b) == b0 + b1 * w + b2 * (w * w) + b3 * (w * (w * w)),
            hb == b1 + b2 * w + b3 * (w * w),
    ;
    lemma_split_unique(w, a0, ha, b0, hb);
    let ga = a2 + a3 * w;
    let gb = b2 + b3 * w;
    assert(ha == a1 + w * ga) by (nonlinear_arith)
        requires
            ha == a1 + a2 * w + a3 * (w * w),
            ga == a2 + a3 * w,
    ;
    assert(hb == b1 + w * gb) by (nonlinear_arith)
        requires
            hb == b1 + b2 * w + b3 * (w * w),
            gb == b2 + b3 * w,
    ;
    lemma_split_unique(w, a1, ga, b1, gb);
    assert(ga == a2 + w * a3) by (nonlinear_arith)
        requires
            ga == a2 + a3 * w,
    ;
    assert(gb == b2 + w * b3) by (nonlinear_arith)
        requires
            gb == b2 + b3 * w,
    ;
    lemma_split_unique(w, a2, a3, b2, b3);
    assert(a =~= b);
}

/// A number splits in one way into a digit below `w` and a multiple of `w`.
proof fn lemma_split_unique(w: int, lo_a: int, hi_a: int, lo_b: int, hi_b: int)
    requires
        w > 0,
        0 <= lo_a < w,
        0 <= lo_b < w,
        lo_a + w * hi_a == lo_b + w * hi_b,
    ensures
        lo_a == lo_b,
        hi_a == hi_b,
{
    assert(hi_a == hi_b) by (nonlinear_arith)
        requires
            w > 0,
            0 <= lo_a < w,
            0 <= lo_b < w,
            lo_a + w * hi_a == lo_b + w * hi_b,
    ;
}

/// An element of the scalar field.
#[derive(Clone, Copy, Debug, PartialEq, Eq)]
pub struct Scalar {
    limbs: [u64; 4],
}

impl View for Scalar {
    type V = nat;

    closed spec fn view(&self) -> nat {
        limbs_value(self.limbs@)
    }
}

impl Scalar {
    /// Every scalar is reduced.
    #[verifier::type_invariant]
    pub open spec fn is_reduced(self) -> bool {
        self@ < modulus()
    }

    /// The scalar 0.
    pub fn zero() -> (r: Scalar)
        ensures
            r@ == 0,
    {
        Scalar { limbs: [0, 0, 0, 0] }
    }

    /// The scalar 1.
    pub fn one() -> (r: Scalar)
        ensures
            r@ == 1,
    {
        Scalar { limbs: [1, 0, 0, 0] }
    }

    /// The scalar whose value is `x`.
    pub fn from_u64(x: u64) -> (r: Scalar)
        ensures
            r@ == x,
    {
        Scalar { limbs: [x, 0, 0, 0] }
    }

    /// The scalar with these little-endian limbs, if they are reduced.
    pub fn from_limbs(limbs: [u64; 4]) -> (r: Option<Scalar>)
        ensures
            r.is_some() == (limbs_value(limbs@) < modulus()),
            r matches Some(s) ==> s@ == limbs_value(limbs@),
    {
        let below = if limbs[3] != 0x73eda753299d7d48 {
            limbs[3] < 0x73eda753299d7d48
        } else if limbs[2] != 0x3339d80809a1d805 {
            limbs[2] < 0x3339d80809a1d805
        } else if limbs[1] != 0x53bda402fffe5bfe {
            limbs[1] < 0x53bda402fffe5bfe
        } else {
            limbs[0] < 0xffffffff00000001
        };
        if below {
            Some(Scalar { limbs })
        } else {
            None
        }
    }

    /// The little-endian limbs of the value.
    pub fn limbs(&self) -> (r: [u64; 4])
        ensures
            limbs_value(r@) == self@,
    {
        self.limbs
    }

    /// Whether two scalars have the same value.
    pub fn equals(&self, other: &Scalar) -> (r: bool)
        ensures
            r == (self@ == other@),
    {
        let same = self.limbs[0] == other.limbs[0] && self.limbs[1] == other.limbs[1]
            && self.limbs[2] == other.limbs[2] && self.limbs[3] == other.limbs[3];
        proof {
            if self@ == other@ {
                lemma_limbs_value_injective(self.limbs@, other.limbs@);
            }
            if same {
                assert(self.limbs@ =~= other.limbs@);
            }
        }
        same
    }

    /// The sum in the field.
    pub fn add(&self, rhs: &Scalar) -> (r: Scalar)
        ensures
            r@ == (self@ + rhs@) % modulus(),
    {
        fr_add(self, rhs)
    }

    /// The product in the field.
    pub fn mul(&self, rhs: &Scalar) -> (r: Scalar)
        ensures
            r@ == (self@ * rhs@) % modulus(),
    {
        fr_mul(self, rhs)
    }
}

/// Calls the `+` of `ark_bls12_381::Fr`, which adds in the prime field: the
/// result is the sum of the two values, reduced by the field's order.
#[verifier::external_body]
fn fr_add(a: &Scalar, b: &Scalar) -> (r: Scalar)
    ensures
        r@ == (a@ + b@) % modulus(),
{
    let x = Fr::from_repr(BigInteger256(a.limbs)).unwrap();
    let y = Fr::from_repr(BigInteger256(b.limbs)).unwrap();
    Scalar { limbs: (x + y).into_repr().0 }
}

/// Calls the `*` of `ark_bls12_381::Fr`, which multiplies in the prime field:
/// the result is the product of the two values, reduced by the field's order.
#[verifier::external_body]
fn fr_mul(a: &Scalar, b: &Scalar) -> (r: Scalar)
    ensures
        r@ == (a@ * b@) % modulus(),
{
    let x = Fr::from_repr(BigInteger256(a.limbs)).unwrap();
    let y = Fr::from_repr(BigInteger256(b.limbs)).unwrap();
    Scalar { limbs: (x * y).into_repr().0 }
}

/// Calls `UniformRand::rand` of `ark_bls12_381::Fr`, which samples a field
/// element from the generator. Nothing is claimed of the value but that it is
/// a scalar.
#[verifier::external_body]
pub(crate) fn fr_rand<R: RngCore>(rng: &mut R) -> (r: Scalar)
    ensures
        r@ < modulus(),
{
    Scalar { limbs: Fr::rand(rng).into_repr().0 }
}

} // verus!
