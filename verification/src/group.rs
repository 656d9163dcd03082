//! The groups G1, G2 and GT of BLS12-381 and the pairing between them.
//!
//! A group element is held as its uncompressed canonical encoding, and that
//! byte string is its view. The group operations are done by the arkworks
//! crates; this module names their results, so that the contracts of the rest
//! of the library can say which operation was applied to which operands.
use crate::error::Error;
use crate::scalar::Scalar;
use ark_bls12_381::{Bls12_381, Fq12, Fr, G1Affine, G1Projective, G2Affine, G2Projective};
use ark_ec::msm::VariableBaseMSM;
use ark_ec::{AffineCurve, PairingEngine, ProjectiveCurve};
use ark_ff::{BigInteger256, PrimeField};
use ark_serialize::{CanonicalDeserialize, CanonicalSerialize};
use ark_std::rand::RngCore;
use ark_std::UniformRand;
use dock_crypto_utils::ec::batch_normalize_projective_into_affine;
use dock_crypto_utils::msm::multiply_field_elems_with_same_group_elem;
use vstd::prelude::*;

verus! {

/// Whether `bytes` is the uncompressed encoding of an element of G1.
pub uninterp spec fn g1_is_point(bytes: Seq<u8>) -> bool;

/// The uncompressed encoding of the element of G1 whose compressed encoding
/// `bytes` starts with, if there is one.
pub uninterp spec fn g1_decompressed(bytes: Seq<u8>) -> Option<Seq<u8>>;

/// The encoding of `k` times the element of G1 encoded by `point`.
pub uninterp spec fn g1_scaled(point: Seq<u8>, k: nat) -> Seq<u8>;

/// The encoding of the sum of the elements of G1 encoded by `a` and `b`.
pub uninterp spec fn g1_added(a: Seq<u8>, b: Seq<u8>) -> Seq<u8>;

/// The encoding of the inverse of the element of G1 encoded by `a`.
pub uninterp spec fn g1_negated(a: Seq<u8>) -> Seq<u8>;

/// Whether `bytes` is the uncompressed encoding of an element of G2.
pub uninterp spec fn g2_is_point(bytes: Seq<u8>) -> bool;

/// The uncompressed encoding of the element of G2 whose compressed encoding
/// `bytes` starts with, if there is one.
pub uninterp spec fn g2_decompressed(bytes: Seq<u8>) -> Option<Seq<u8>>;

/// The encoding of `k` times the element of G2 encoded by `point`.
pub uninterp spec fn g2_scaled(point: Seq<u8>, k: nat) -> Seq<u8>;

/// Whether `bytes` is the encoding of an element of the pairing's target
/// field.
pub uninterp spec fn gt_is_element(bytes: Seq<u8>) -> bool;

/// The encoding of the pairing of the elements encoded by `p` (in G1) and
/// `q` (in G2).
pub uninterp spec fn pairing_value(p: Seq<u8>, q: Seq<u8>) -> Seq<u8>;

/// The encoding of the product of the target-field elements encoded by `a`
/// and `b`.
pub uninterp spec fn gt_multiplied(a: Seq<u8>, b: Seq<u8>) -> Seq<u8>;

/// An element of G1, the subgroup of prime order of the curve.
///
/// The bytes are what `serialize_uncompressed` of `ark_bls12_381::G1Affine`
/// writes for the element. Values are made by the functions of this module
/// alone, which take them from arkworks, so the bytes always decode.
#[derive(Clone, Copy, Debug, PartialEq, Eq)]
pub struct G1Point {
    bytes: [u8; 96],
}

/// An element of G2, the subgroup of prime order of the twisted curve.
///
/// The bytes are what `serialize_uncompressed` of `ark_bls12_381::G2Affine`
/// writes for the element. Values are made by the functions of this module
/// alone, which take them from arkworks, so the bytes always decode.
#[derive(Clone, Copy, Debug, PartialEq, Eq)]
pub struct G2Point {
    bytes: [u8; 192],
}

/// An element of the field that the pairing maps to.
///
/// The bytes are what `serialize` of `ark_bls12_381::Fq12` writes for the
/// element. Values are made by the functions of this module alone, which
/// take them from arkworks, so the bytes always decode.
#[derive(Clone, Copy, Debug, PartialEq, Eq)]
pub struct GtElement {
    bytes: [u8; 576],
}

impl View for G1Point {
    type V = Seq<u8>;

    closed spec fn view(&self) -> Seq<u8> {
        self.bytes@
    }
}

impl View for G2Point {
    type V = Seq<u8>;

    closed spec fn view(&self) -> Seq<u8> {
        self.bytes@
    }
}

impl View for GtElement {
    type V = Seq<u8>;

    closed spec fn view(&self) -> Seq<u8> {
        self.bytes@
    }
}

/// The encodings of a sequence of elements of G1.
pub open spec fn g1_views(points: Seq<G1Point>) -> Seq<Seq<u8>> {
    Seq::new(points.len(), |i: int| points[i]@)
}

/// The encodings of a sequence of elements of G2.
pub open spec fn g2_views(points: Seq<G2Point>) -> Seq<Seq<u8>> {
    Seq::new(points.len(), |i: int| points[i]@)
}

/// The values of a sequence of scalars.
pub open spec fn scalar_views(scalars: Seq<Scalar>) -> Seq<nat> {
    Seq::new(scalars.len(), |i: int| scalars[i]@)
}

/// The encoding of `k[0] * bases[0] + ... + k[n-1] * bases[n-1]` in G1, for
/// `n >= 1` terms, summed from the left.
pub open spec fn g1_combination(bases: Seq<Seq<u8>>, k: Seq<nat>) -> Seq<u8>
    recommends
        bases.len() == k.len(),
        bases.len() >= 1,
    decreases bases.len(),
{
    if bases.len() <= 1 {
        g1_scaled(bases[0], k[0])
    } else {
        g1_added(
            g1_combination(bases.drop_last(), k.drop_last()),
            g1_scaled(bases.last(), k.last()),
        )
    }
}

/// The encoding of `e(p[0], q[0]) * ... * e(p[n-1], q[n-1])`, for `n >= 1`
/// pairs, multiplied from the left.
pub open spec fn pairing_product_value(p: Seq<Seq<u8>>, q: Seq<Seq<u8>>) -> Seq<u8>
    recommends
        p.len() == q.len(),
        p.len() >= 1,
    decreases p.len(),
{
    if p.len() <= 1 {
        pairing_value(p[0], q[0])
    } else {
        gt_multiplied(
            pairing_product_value(p.drop_last(), q.drop_last()),
            pairing_value(p.last(), q.last()),
        )
    }
}

/// Whether two byte arrays hold the same bytes.
fn same_bytes<const N: usize>(a: &[u8; N], b: &[u8; N]) -> (r: bool)
    ensures
        r == (a@ == b@),
{
    let mut i: usize = 0;
    while i < N
        invariant
            i <= N,
            forall|j: int| 0 <= j < i ==> a@[j] == b@[j],
        decreases N - i,
    {
        if a[i] != b[i] {
            return false;
        }
        i += 1;
    }
    assert(a@ =~= b@);
    true
}

impl G1Point {
    /// Every value of this type encodes an element of G1.
    #[verifier::type_invariant]
    pub open spec fn is_valid(self) -> bool {
        g1_is_point(self@)
    }

    /// The element with this compressed encoding. The encoding is rejected
    /// unless it is that of a point of the curve that lies in G1.
    pub fn from_compressed(bytes: &[u8]) -> (r: Result<G1Point, Error>)
        ensures
            match g1_decompressed(bytes@) {
                Some(point) => r matches Ok(p) && p@ == point,
                None => r == Err::<G1Point, Error>(Error::SerializationError),
            },
    {
        match g1_decompress(bytes) {
            Some(p) => Ok(p),
            None => Err(Error::SerializationError),
        }
    }

    /// The uncompressed encoding.
    pub fn to_bytes(&self) -> (r: [u8; 96])
        ensures
            r@ == self@,
    {
        self.bytes
    }

    /// Whether two values are the same element.
    pub fn equals(&self, other: &G1Point) -> (r: bool)
        ensures
            r == (self@ == other@),
    {
        same_bytes(&self.bytes, &other.bytes)
    }

    /// `k` times this element.
    pub fn mul(&self, k: &Scalar) -> (r: G1Point)
        ensures
            r@ == g1_scaled(self@, k@),
    {
        g1_mul(self, k)
    }

    /// The sum of this element and `other`.
    pub fn add(&self, other: &G1Point) -> (r: G1Point)
        ensures
            r@ == g1_added(self@, other@),
    {
        g1_add(self, other)
    }

    /// The inverse of this element.
    pub fn neg(&self) -> (r: G1Point)
        ensures
            r@ == g1_negated(self@),
    {
        g1_neg(self)
    }
}

impl G2Point {
    /// Every value of this type encodes an element of G2.
    #[verifier::type_invariant]
    pub open spec fn is_valid(self) -> bool {
        g2_is_point(self@)
    }

    /// The element with this compressed encoding. The encoding is rejected
    /// unless it is that of a point of the twisted curve that lies in G2.
    pub fn from_compressed(bytes: &[u8]) -> (r: Result<G2Point, Error>)
        ensures
            match g2_decompressed(bytes@) {
                Some(point) => r matches Ok(p) && p@ == point,
                None => r == Err::<G2Point, Error>(Error::SerializationError),
            },
    {
        match g2_decompress(bytes) {
            Some(p) => Ok(p),
            None => Err(Error::SerializationError),
        }
    }

    /// The uncompressed encoding.
    pub fn to_bytes(&self) -> (r: [u8; 192])
        ensures
            r@ == self@,
    {
        self.bytes
    }

    /// Whether two values are the same element.
    pub fn equals(&self, other: &G2Point) -> (r: bool)
        ensures
            r == (self@ == other@),
    {
        same_bytes(&self.bytes, &other.bytes)
    }

    /// `k` times this element.
    pub fn mul(&self, k: &Scalar) -> (r: G2Point)
        ensures
            r@ == g2_scaled(self@, k@),
    {
        g2_mul(self, k)
    }
}

impl GtElement {
    /// Every value of this type encodes an element of the target field.
    #[verifier::type_invariant]
    pub open spec fn is_valid(self) -> bool {
        gt_is_element(self@)
    }

    /// The canonical encoding.
    pub fn to_bytes(&self) -> (r: [u8; 576])
        ensures
            r@ == self@,
    {
        self.bytes
    }

    /// Whether two values are the same element.
    pub fn equals(&self, other: &GtElement) -> (r: bool)
        ensures
            r == (self@ == other@),
    {
        same_bytes(&self.bytes, &other.bytes)
    }

    /// The pairing of `p` and `q`.
    pub fn pairing(p: &G1Point, q: &G2Point) -> (r: GtElement)
        ensures
            r@ == pairing_value(p@, q@),
    {
        pairing(p, q)
    }

    /// The product of this element and `other`.
    pub fn mul(&self, other: &GtElement) -> (r: GtElement)
        ensures
            r@ == gt_multiplied(self@, other@),
    {
        gt_mul(self, other)
    }
}

/// Calls `CanonicalDeserialize::deserialize` of `ark_bls12_381::G1Affine`,
/// which reads a compressed point, rebuilds its other coordinate and checks
/// that it lies in the subgroup of prime order. The result is a function of
/// the bytes alone, and an element of G1 where there is one.
#[verifier::external_body]
fn g1_decompress(bytes: &[u8]) -> (r: Option<G1Point>)
    ensures
        r.is_some() == g1_decompressed(bytes@).is_some(),
        r matches Some(p) ==> g1_decompressed(bytes@) == Some(p@) && g1_is_point(p@),
{
    let point = G1Affine::deserialize(bytes).ok()?;
    let mut out = [0u8; 96];
    point.serialize_uncompressed(&mut out[..]).unwrap();
    Some(G1Point { bytes: out })
}

/// Calls `CanonicalDeserialize::deserialize` of `ark_bls12_381::G2Affine`,
/// which reads a compressed point, rebuilds its other coordinate and checks
/// that it lies in the subgroup of prime order. The result is a function of
/// the bytes alone, and an element of G2 where there is one.
#[verifier::external_body]
fn g2_decompress(bytes: &[u8]) -> (r: Option<G2Point>)
    ensures
        r.is_some() == g2_decompressed(bytes@).is_some(),
        r matches Some(p) ==> g2_decompressed(bytes@) == Some(p@) && g2_is_point(p@),
{
    let point = G2Affine::deserialize(bytes).ok()?;
    let mut out = [0u8; 192];
    point.serialize_uncompressed(&mut out[..]).unwrap();
    Some(G2Point { bytes: out })
}

/// Calls `UniformRand::rand` of `ark_bls12_381::G1Projective`, which samples
/// an element of G1 from the generator. Nothing is claimed of the value but
/// that it is an element of G1.
#[verifier::external_body]
pub(crate) fn g1_rand<R: RngCore>(rng: &mut R) -> (r: G1Point)
    ensures
        g1_is_point(r@),
{
    let point = G1Projective::rand(rng).into_affine();
    let mut out = [0u8; 96];
    point.serialize_uncompressed(&mut out[..]).unwrap();
    G1Point { bytes: out }
}

/// Calls `UniformRand::rand` of `ark_bls12_381::G2Projective`, which samples
/// an element of G2 from the generator. Nothing is claimed of the value but
/// that it is an element of G2.
#[verifier::external_body]
pub(crate) fn g2_rand<R: RngCore>(rng: &mut R) -> (r: G2Point)
    ensures
        g2_is_point(r@),
{
    let point = G2Projective::rand(rng).into_affine();
    let mut out = [0u8; 192];
    point.serialize_uncompressed(&mut out[..]).unwrap();
    G2Point { bytes: out }
}

/// Calls `AffineCurve::mul` of `ark_bls12_381::G1Affine`, the scalar
/// multiplication of G1: the result is `k` times `p`.
#[verifier::external_body]
pub(crate) fn g1_mul(p: &G1Point, k: &Scalar) -> (r: G1Point)
    ensures
        r@ == g1_scaled(p@, k@),
        g1_is_point(r@),
{
    let point = G1Affine::deserialize_unchecked(&p.bytes[..]).unwrap();
    let product = point.mul(BigInteger256(k.limbs())).into_affine();
    let mut out = [0u8; 96];
    product.serialize_uncompressed(&mut out[..]).unwrap();
    G1Point { bytes: out }
}

/// Calls `AffineCurve::mul` of `ark_bls12_381::G2Affine`, the scalar
/// multiplication of G2: the result is `k` times `p`.
#[verifier::external_body]
pub(crate) fn g2_mul(p: &G2Point, k: &Scalar) -> (r: G2Point)
    ensures
        r@ == g2_scaled(p@, k@),
        g2_is_point(r@),
{
    let point = G2Affine::deserialize_unchecked(&p.bytes[..]).unwrap();
    let product = point.mul(BigInteger256(k.limbs())).into_affine();
    let mut out = [0u8; 192];
    product.serialize_uncompressed(&mut out[..]).unwrap();
    G2Point { bytes: out }
}

/// Calls the `+` of `ark_bls12_381::G1Affine`, the group law of G1: the
/// result is the sum of `a` and `b`.
#[verifier::external_body]
pub(crate) fn g1_add(a: &G1Point, b: &G1Point) -> (r: G1Point)
    ensures
        r@ == g1_added(a@, b@),
        g1_is_point(r@),
{
    let x = G1Affine::deserialize_unchecked(&a.bytes[..]).unwrap();
    let y = G1Affine::deserialize_unchecked(&b.bytes[..]).unwrap();
    let mut out = [0u8; 96];
    (x + y).serialize_uncompressed(&mut out[..]).unwrap();
    G1Point { bytes: out }
}

/// Calls the unary `-` of `ark_bls12_381::G1Affine`: the result is the
/// inverse of `a` in G1.
#[verifier::external_body]
pub(crate) fn g1_neg(a: &G1Point) -> (r: G1Point)
    ensures
        r@ == g1_negated(a@),
        g1_is_point(r@),
{
    let x = G1Affine::deserialize_unchecked(&a.bytes[..]).unwrap();
    let mut out = [0u8; 96];
    (-x).serialize_uncompressed(&mut out[..]).unwrap();
    G1Point { bytes: out }
}

/// Calls `multiply_field_elems_with_same_group_elem` of `dock_crypto_utils`
/// on G1, which multiplies one element by each of the scalars with a window
/// table, and brings the products to affine form with
/// `batch_normalize_projective_into_affine`: the result holds, in order, `k[i]`
/// times `p`.
#[verifier::external_body]
pub(crate) fn g1_mul_many(p: &G1Point, k: &Vec<Scalar>) -> (r: Vec<G1Point>)
    ensures
        r.len() == k.len(),
        forall|i: int|
            0 <= i < k.len() ==> (#[trigger] r[i])@ == g1_scaled(p@, k[i]@) && g1_is_point(r[i]@),
{
    let base = G1Affine::deserialize_unchecked(&p.bytes[..]).unwrap().into_projective();
    let scalars: Vec<Fr> =
        k.iter().map(|s| Fr::from_repr(BigInteger256(s.limbs())).unwrap()).collect();
    let products = multiply_field_elems_with_same_group_elem(base, &scalars);
    let mut out = Vec::new();
    for point in batch_normalize_projective_into_affine(products) {
        let mut bytes = [0u8; 96];
        point.serialize_uncompressed(&mut bytes[..]).unwrap();
        out.push(G1Point { bytes });
    }
    out
}

/// Calls `multiply_field_elems_with_same_group_elem` of `dock_crypto_utils`
/// on G2, which multiplies one element by each of the scalars with a window
/// table, and brings the products to affine form with
/// `batch_normalize_projective_into_affine`: the result holds, in order, `k[i]`
/// times `p`.
#[verifier::external_body]
pub(crate) fn g2_mul_many(p: &G2Point, k: &Vec<Scalar>) -> (r: Vec<G2Point>)
    ensures
        r.len() == k.len(),
        forall|i: int|
            0 <= i < k.len() ==> (#[trigger] r[i])@ == g2_scaled(p@, k[i]@) && g2_is_point(r[i]@),
{
    let base = G2Affine::deserialize_unchecked(&p.bytes[..]).unwrap().into_projective();
    let scalars: Vec<Fr> =
        k.iter().map(|s| Fr::from_repr(BigInteger256(s.limbs())).unwrap()).collect();
    let products = multiply_field_elems_with_same_group_elem(base, &scalars);
    let mut out = Vec::new();
    for point in batch_normalize_projective_into_affine(products) {
        let mut bytes = [0u8; 192];
        point.serialize_uncompressed(&mut bytes[..]).unwrap();
        out.push(G2Point { bytes });
    }
    out
}

/// Calls `VariableBaseMSM::multi_scalar_mul` of `ark_ec` on G1, which sums
/// the products of each base with the scalar at the same index: the result
/// is `k[0] * bases[0] + ... + k[n-1] * bases[n-1]`.
#[verifier::external_body]
pub(crate) fn g1_msm(bases: &Vec<G1Point>, k: &Vec<Scalar>) -> (r: G1Point)
    requires
        bases.len() == k.len(),
        bases.len() >= 1,
    ensures
        r@ == g1_combination(g1_views(bases@), scalar_views(k@)),
        g1_is_point(r@),
{
    let points: Vec<G1Affine> =
        bases.iter().map(|p| G1Affine::deserialize_unchecked(&p.bytes[..]).unwrap()).collect();
    let scalars: Vec<BigInteger256> = k.iter().map(|s| BigInteger256(s.limbs())).collect();
    let sum = VariableBaseMSM::multi_scalar_mul(&points, &scalars).into_affine();
    let mut out = [0u8; 96];
    sum.serialize_uncompressed(&mut out[..]).unwrap();
    G1Point { bytes: out }
}

/// Calls `PairingEngine::pairing` of `ark_bls12_381::Bls12_381`: the result
/// is the pairing of `p` and `q`.
#[verifier::external_body]
pub(crate) fn pairing(p: &G1Point, q: &G2Point) -> (r: GtElement)
    ensures
        r@ == pairing_value(p@, q@),
        gt_is_element(r@),
{
    let x = G1Affine::deserialize_unchecked(&p.bytes[..]).unwrap();
    let y = G2Affine::deserialize_unchecked(&q.bytes[..]).unwrap();
    let mut out = [0u8; 576];
    Bls12_381::pairing(x, y).serialize(&mut out[..]).unwrap();
    GtElement { bytes: out }
}

/// Calls `PairingEngine::product_of_pairings` of `ark_bls12_381::Bls12_381`,
/// which multiplies the pairings of the given pairs: the result is
/// `e(p[0], q[0]) * ... * e(p[n-1], q[n-1])`.
#[verifier::external_body]
pub(crate) fn pairing_product(p: &Vec<G1Point>, q: &Vec<G2Point>) -> (r: GtElement)
    requires
        p.len() == q.len(),
        p.len() >= 1,
    ensures
        r@ == pairing_product_value(g1_views(p@), g2_views(q@)),
        gt_is_element(r@),
{
    let mut pairs = Vec::new();
    for (a, b) in p.iter().zip(q.iter()) {
        let x = G1Affine::deserialize_unchecked(&a.bytes[..]).unwrap();
        let y = G2Affine::deserialize_unchecked(&b.bytes[..]).unwrap();
        pairs.push((x.into(), y.into()));
    }
    let mut out = [0u8; 576];
    Bls12_381::product_of_pairings(&pairs).serialize(&mut out[..]).unwrap();
    GtElement { bytes: out }
}

/// Calls the `*` of `ark_bls12_381::Fq12`, the multiplication of the target
/// field: the result is the product of `a` and `b`.
#[verifier::external_body]
pub(crate) fn gt_mul(a: &GtElement, b: &GtElement) -> (r: GtElement)
    ensures
        r@ == gt_multiplied(a@, b@),
        gt_is_element(r@),
{
    let x = Fq12::deserialize(&a.bytes[..]).unwrap();
    let y = Fq12::deserialize(&b.bytes[..]).unwrap();
    let mut out = [0u8; 576];
    (x * y).serialize(&mut out[..]).unwrap();
    GtElement { bytes: out }
}

} // verus!
