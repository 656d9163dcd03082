//! Public generators.
use crate::group::{g1_is_point, g1_rand, g2_is_point, g2_rand, G1Point, G2Point};
use ark_std::rand::RngCore;
use vstd::prelude::*;
use vstd::slice::slice_subrange;

verus! {

/// The generators that encryption is built on: `G` in G1 and `H` in G2.
#[allow(non_snake_case)]
#[derive(Clone, Copy, Debug, PartialEq, Eq)]
pub struct EncryptionGens {
    pub G: G1Point,
    pub H: G2Point,
}

/// The generators of the Pedersen commitment to a chunked message, both in
/// G1: `G` for the message and `H` for the blinding.
#[allow(non_snake_case)]
#[derive(Clone, Copy, Debug, PartialEq, Eq)]
pub struct ChunkedCommitmentGens {
    pub G: G1Point,
    pub H: G1Point,
}

/// The bases that chunks are encrypted over, among the elements of a SNARK's
/// verifying key that belong to its inputs: all but the first, which belongs
/// to the constant input. The base at index `i` is the element of the input
/// at index `i + 1`, the input that holds the chunk at index `i`.
pub fn get_gs_for_encryption(gamma_abc_g1: &[G1Point]) -> (r: &[G1Point])
    ensures
        gamma_abc_g1.len() == 0 ==> r@.len() == 0,
        gamma_abc_g1.len() > 0 ==> r@ == gamma_abc_g1@.subrange(1, gamma_abc_g1.len() as int),
{
    if gamma_abc_g1.len() == 0 {
        gamma_abc_g1
    } else {
        slice_subrange(gamma_abc_g1, 1, gamma_abc_g1.len())
    }
}

impl EncryptionGens {
    /// Generators sampled from `rng`: first `G`, then `H`. Whatever the
    /// generator gives, the two are elements of their groups.
    pub fn new_using_rng<R: RngCore>(rng: &mut R) -> (r: EncryptionGens)
        ensures
            g1_is_point(r.G@),
            g2_is_point(r.H@),
    {
        let g = g1_rand(rng);
        let h = g2_rand(rng);
        EncryptionGens { G: g, H: h }
    }
}

impl ChunkedCommitmentGens {
    /// Generators sampled from `rng`: first `G`, then `H`. Whatever the
    /// generator gives, the two are elements of G1.
    pub fn new_using_rng<R: RngCore>(rng: &mut R) -> (r: ChunkedCommitmentGens)
        ensures
            g1_is_point(r.G@),
            g1_is_point(r.H@),
    {
        let g = g1_rand(rng);
        let h = g1_rand(rng);
        ChunkedCommitmentGens { G: g, H: h }
    }
}

} // verus!
