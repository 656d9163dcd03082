//! The Pedersen commitment to a message in chunks.
//!
//! With the generators `G` and `H`, the chunk size `b` and the `n` chunks
//! `m_i` of a message, the commitment is
//! `m_0 * (2^(b * (n - 1)) * G) + ... + m_{n-1} * G + blinding * H`. Since the
//! chunks are the digits of the message in base `2^b`, this is the element
//! `message * G + blinding * H`, written over bases that let a proof speak of
//! each chunk by itself.
use crate::error::Error;
use crate::group::{
    g1_combination, g1_msm, g1_mul_many, g1_scaled, g1_views, scalar_views, G1Point,
};
use crate::scalar::{modulus, Scalar};
use crate::setup::ChunkedCommitmentGens;
use crate::utils::{
    chunk_values, chunks_count, chunks_count_spec, decompose, decompose_spec,
    is_supported_chunk_bit_size, lemma_modulus_below_pow2_255, supports_chunk_bit_size,
};
use vstd::arithmetic::div_mod::lemma_small_mod;
use vstd::arithmetic::power2::{
    lemma2_to64, lemma_pow2_adds, lemma_pow2_strictly_increases, lemma_pow2_unfold, pow2,
};
use vstd::prelude::*;

verus! {

/// A Pedersen commitment to the chunks of a message.
#[derive(Clone, Copy, Debug, PartialEq, Eq)]
pub struct ChunkedCommitment(pub G1Point);

/// The bases of the commitment: `2^(b * (n - 1 - i)) * G` for each chunk
/// index `i`, then `H`.
pub open spec fn chunked_commitment_key_spec(
    gens: ChunkedCommitmentGens,
    chunk_bit_size: u8,
) -> Seq<Seq<u8>> {
    let n = chunks_count_spec(chunk_bit_size);
    Seq::new(
        n + 1,
        |i: int|
            if i < n {
                g1_scaled(gens.G@, pow2((chunk_bit_size * (n - 1 - i)) as nat))
            } else {
                gens.H@
            },
    )
}

/// The commitment to the chunks of `message` with `blinding`.
pub open spec fn chunked_commitment_spec(
    message: nat,
    blinding: nat,
    chunk_bit_size: u8,
    gens: ChunkedCommitmentGens,
) -> Seq<u8> {
    g1_combination(
        chunked_commitment_key_spec(gens, chunk_bit_size),
        decompose_spec(message, chunk_bit_size).push(blinding),
    )
}

/// The weight of every chunk but one above the most significant is a
/// scalar as it stands.
proof fn lemma_weight_is_reduced(e: nat)
    requires
        e <= 254,
    ensures
        pow2(e) < modulus(),
{
    lemma_modulus_below_pow2_255();
    lemma_pow2_unfold(255);
    if e < 254 {
        lemma_pow2_strictly_increases(e, 254);
    }
}

/// The weights of the chunks as scalars, that of the most significant chunk
/// first: `2^(b * (n - 1 - i))` at index `i`.
fn chunk_weights(chunk_bit_size: u8) -> (r: Vec<Scalar>)
    requires
        is_supported_chunk_bit_size(chunk_bit_size),
    ensures
        r.len() == chunks_count_spec(chunk_bit_size),
        forall|i: int|
            0 <= i < r.len() ==> (#[trigger] r[i])@ == pow2(
                (chunk_bit_size * (r.len() - 1 - i)) as nat,
            ),
{
    let n: usize = chunks_count(chunk_bit_size) as usize;
    let radix_value: u64 = if chunk_bit_size == 1 {
        0x2
    } else if chunk_bit_size == 2 {
        0x4
    } else if chunk_bit_size == 4 {
        0x10
    } else if chunk_bit_size == 8 {
        0x100
    } else {
        0x10000
    };
    let radix = Scalar::from_u64(radix_value);
    let ghost b = chunk_bit_size as nat;
    proof {
        lemma2_to64();
    }
    // The weights in rising order.
    let mut rising: Vec<Scalar> = Vec::new();
    let mut cur = Scalar::one();
    let mut j: usize = 0;
    while j < n
        invariant
            j <= n,
            n == chunks_count_spec(chunk_bit_size),
            is_supported_chunk_bit_size(chunk_bit_size),
            b == chunk_bit_size,
            radix@ == pow2(b),
            rising.len() == j,
            j < n ==> cur@ == pow2((b * j) as nat),
            forall|k: int| 0 <= k < j ==> (#[trigger] rising[k])@ == pow2((b * k) as nat),
        decreases n - j,
    {
        rising.push(cur);
        if j + 1 < n {
            let next = cur.mul(&radix);
            proof {
                assert(b * (j + 1) == b * j + b) by (nonlinear_arith);
                assert(b * (j + 1) <= 254) by (nonlinear_arith)
                    requires
                        j + 1 <= n - 1,
                        b * (n - 1) <= 254,
                        b >= 0,
                ;
                lemma_pow2_adds((b * j) as nat, b);
                lemma_weight_is_reduced((b * (j + 1)) as nat);
                lemma_small_mod(pow2((b * (j + 1)) as nat), modulus());
            }
            cur = next;
        }
        j += 1;
    }
    let mut weights: Vec<Scalar> = Vec::new();
    let mut i: usize = 0;
    while i < n
        invariant
            i <= n,
            rising.len() == n,
            b == chunk_bit_size,
            weights.len() == i,
            forall|k: int| 0 <= k < n ==> (#[trigger] rising[k])@ == pow2((b * k) as nat),
            forall|k: int|
                0 <= k < i ==> (#[trigger] weights[k])@ == pow2((b * (n - 1 - k)) as nat),
        decreases n - i,
    {
        weights.push(rising[n - 1 - i]);
        i += 1;
    }
    weights
}

impl ChunkedCommitment {
    /// The bases of the commitment for chunks of `chunk_bit_size` bits.
    pub fn commitment_key(gens: &ChunkedCommitmentGens, chunk_bit_size: u8) -> (r: Result<
        Vec<G1Point>,
        Error,
    >)
        ensures
            !is_supported_chunk_bit_size(chunk_bit_size) ==> r == Err::<Vec<G1Point>, Error>(
                Error::InvalidChunkBitSize(chunk_bit_size),
            ),
            is_supported_chunk_bit_size(chunk_bit_size) ==> r.is_ok(),
            r matches Ok(key) ==> key.len() == chunks_count_spec(chunk_bit_size) + 1 && g1_views(
                key@,
            ) == chunked_commitment_key_spec(*gens, chunk_bit_size),
    {
        if !supports_chunk_bit_size(chunk_bit_size) {
            return Err(Error::InvalidChunkBitSize(chunk_bit_size));
        }
        let weights = chunk_weights(chunk_bit_size);
        let mut key = g1_mul_many(&gens.G, &weights);
        key.push(gens.H);
        assert(g1_views(key@) =~= chunked_commitment_key_spec(*gens, chunk_bit_size));
        Ok(key)
    }

    /// Commits to the chunks of `message` with `blinding`.
    pub fn new(
        message: &Scalar,
        blinding: &Scalar,
        chunk_bit_size: u8,
        gens: &ChunkedCommitmentGens,
    ) -> (r: Result<ChunkedCommitment, Error>)
        ensures
            !is_supported_chunk_bit_size(chunk_bit_size) ==> r == Err::<ChunkedCommitment, Error>(
                Error::InvalidChunkBitSize(chunk_bit_size),
            ),
            is_supported_chunk_bit_size(chunk_bit_size) ==> r.is_ok(),
            r matches Ok(c) ==> c.0@ == chunked_commitment_spec(
                message@,
                blinding@,
                chunk_bit_size,
                *gens,
            ),
    {
        let key = match ChunkedCommitment::commitment_key(gens, chunk_bit_size) {
            Ok(key) => key,
            Err(e) => {
                return Err(e);
            },
        };
        let chunks = match decompose(message, chunk_bit_size) {
            Ok(chunks) => chunks,
            Err(e) => {
                return Err(e);
            },
        };
        assert(chunk_values(chunks@).len() == chunks.len());
        let mut witnesses: Vec<Scalar> = Vec::new();
        let mut i: usize = 0;
        while i < chunks.len()
            invariant
                i <= chunks.len(),
                witnesses.len() == i,
                forall|k: int| 0 <= k < i ==> (#[trigger] witnesses[k])@ == chunks[k] as nat,
            decreases chunks.len() - i,
        {
            witnesses.push(Scalar::from_u64(chunks[i] as u64));
            i += 1;
        }
        witnesses.push(*blinding);
        assert(scalar_views(witnesses@) =~= decompose_spec(message@, chunk_bit_size).push(
            blinding@,
        )) by {
            assert forall|k: int| 0 <= k < chunks.len() implies scalar_views(witnesses@)[k]
                == decompose_spec(message@, chunk_bit_size)[k] by {
                assert(chunk_values(chunks@)[k] == chunks[k] as nat);
            }
        }
        Ok(ChunkedCommitment(g1_msm(&key, &witnesses)))
    }
}

} // verus!
