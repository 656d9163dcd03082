//! Encryption of a scalar in chunks, the check that a ciphertext is well
//! formed, decryption, and the check that a decryption is right.
//!
//! With the randomness `r` and the chunks `m_i` of the message, a ciphertext
//! holds `r * X_0`, the encrypted chunks `r * X_i + m_i * G_i` and the
//! commitment `m_0 * Y_0 + ... + m_{n-1} * Y_{n-1} + r * P_1`, where the `G_i`
//! are the bases shared with the SNARK's parameters.
use crate::error::Error;
use crate::group::{
    g1_add, g1_added, g1_combination, g1_msm, g1_mul, g1_neg, g1_negated, g1_scaled, g1_views,
    g2_views, pairing_product, pairing_product_value, scalar_views, G1Point, G2Point, GtElement,
};
use crate::keygen::EncryptionKey;
use crate::scalar::{fr_rand, Scalar};
use crate::setup::EncryptionGens;
use crate::utils::{
    chunk_values, chunks_count_spec, decompose, decompose_spec, is_supported_chunk_bit_size,
};
use ark_std::rand::RngCore;
use vstd::prelude::*;

verus! {

/// A message encrypted in chunks.
#[allow(non_snake_case)]
#[derive(Clone, Debug, PartialEq, Eq)]
pub struct Ciphertext {
    /// `r * X_0`
    pub X_r: G1Point,
    /// `r * X_i + m_i * G_i`
    pub enc_chunks: Vec<G1Point>,
    /// `m_0 * Y_0 + ... + m_{n-1} * Y_{n-1} + r * P_1`
    pub commitment: G1Point,
}

/// Whether `ct` is the encryption of the chunks under `ek` with the
/// randomness `r` and the bases `g_i`.
pub open spec fn is_encryption_of(
    ct: Ciphertext,
    chunks: Seq<nat>,
    r: nat,
    ek: EncryptionKey,
    g_i: Seq<Seq<u8>>,
) -> bool {
    &&& ct.X_r@ == g1_scaled(ek.X_0@, r)
    &&& ct.enc_chunks.len() == chunks.len()
    &&& forall|i: int|
        0 <= i < chunks.len() ==> (#[trigger] ct.enc_chunks[i])@ == g1_added(
            g1_scaled(ek.X[i]@, r),
            g1_scaled(g_i[i], chunks[i]),
        )
    &&& ct.commitment@ == g1_combination(ek.commitment_key_spec(), chunks.push(r))
}

/// The encoding of the unit of the pairing's target group.
pub open spec fn gt_one_value() -> Seq<u8> {
    Seq::new(576, |i: int| if i == 0 { 1u8 } else { 0u8 })
}

/// The elements of G1 of the identity that a well-formed ciphertext meets:
/// `r * X_0`, the encrypted chunks, and the inverse of the commitment.
pub open spec fn commitment_check_g1(ct: Ciphertext) -> Seq<Seq<u8>> {
    seq![ct.X_r@].add(g1_views(ct.enc_chunks@)).push(g1_negated(ct.commitment@))
}

/// The elements of G2 of the identity that a well-formed ciphertext meets:
/// `Z`, then `H`.
pub open spec fn commitment_check_g2(ek: EncryptionKey, gens: EncryptionGens) -> Seq<Seq<u8>> {
    g2_views(ek.Z@).push(gens.H@)
}

/// Whether the ciphertext meets the pairing identity
/// `e(r * X_0, Z_0) * e(c_0, Z_1) * ... * e(c_{n-1}, Z_n) * e(-commitment, H) = 1`.
pub open spec fn commitment_identity_holds(
    ct: Ciphertext,
    ek: EncryptionKey,
    gens: EncryptionGens,
) -> bool {
    pairing_product_value(commitment_check_g1(ct), commitment_check_g2(ek, gens))
        == gt_one_value()
}

/// Whether `x` is the unit of the target group.
pub(crate) fn is_gt_one(x: &GtElement) -> (r: bool)
    ensures
        r == (x@ == gt_one_value()),
{
    let bytes = x.to_bytes();
    if bytes[0] != 1 {
        return false;
    }
    let mut i: usize = 1;
    while i < 576
        invariant
            1 <= i <= 576,
            bytes@ == x@,
            bytes@[0] == 1,
            forall|j: int| 1 <= j < i ==> bytes@[j] == 0,
        decreases 576 - i,
    {
        if bytes[i] != 0 {
            return false;
        }
        i += 1;
    }
    assert(x@ =~= gt_one_value());
    true
}

/// The chunks as scalars.
fn chunk_scalars(chunks: &[u16]) -> (r: Vec<Scalar>)
    ensures
        r.len() == chunks.len(),
        scalar_views(r@) == chunk_values(chunks@),
{
    let mut out: Vec<Scalar> = Vec::new();
    let mut i: usize = 0;
    while i < chunks.len()
        invariant
            i <= chunks.len(),
            out.len() == i,
            forall|k: int| 0 <= k < i ==> (#[trigger] out[k])@ == chunks[k] as nat,
        decreases chunks.len() - i,
    {
        out.push(Scalar::from_u64(chunks[i] as u64));
        i += 1;
    }
    assert(scalar_views(out@) =~= chunk_values(chunks@));
    out
}

/// Encrypts the chunks of a message with the randomness `r`.
pub fn encrypt_chunks(
    chunks: &[u16],
    r: &Scalar,
    ek: &EncryptionKey,
    g_i: &[G1Point],
) -> (res: Result<Ciphertext, Error>)
    ensures
        !ek.is_well_formed() ==> res.is_err() && Err::<(), Error>(res->Err_0) == ek.validate_spec(),
        ek.is_well_formed() && chunks.len() != ek.X.len() ==> res == Err::<Ciphertext, Error>(
            Error::MessageNotInChunks,
        ),
        ek.is_well_formed() && chunks.len() == ek.X.len() && g_i.len() < chunks.len() ==> res
            == Err::<Ciphertext, Error>(
            Error::VectorShorterThanExpected(g_i.len(), chunks.len()),
        ),
        ek.is_well_formed() && chunks.len() == ek.X.len() && g_i.len() >= chunks.len()
            ==> res.is_ok(),
        res matches Ok(ct) ==> is_encryption_of(
            ct,
            chunk_values(chunks@),
            r@,
            *ek,
            g1_views(g_i@),
        ),
{
    match ek.validate() {
        Ok(_) => {},
        Err(e) => {
            return Err(e);
        },
    }
    let n = chunks.len();
    if n != ek.X.len() {
        return Err(Error::MessageNotInChunks);
    }
    if g_i.len() < n {
        return Err(Error::VectorShorterThanExpected(g_i.len(), n));
    }
    let mut scalars = chunk_scalars(chunks);
    let x_r = g1_mul(&ek.X_0, r);
    let mut enc_chunks: Vec<G1Point> = Vec::new();
    let mut i: usize = 0;
    while i < n
        invariant
            i <= n,
            n == chunks.len(),
            n == ek.X.len(),
            g_i.len() >= n,
            scalars.len() == n,
            scalar_views(scalars@) == chunk_values(chunks@),
            enc_chunks.len() == i,
            forall|k: int|
                0 <= k < i ==> (#[trigger] enc_chunks[k])@ == g1_added(
                    g1_scaled(ek.X[k]@, r@),
                    g1_scaled(g_i[k]@, chunks[k] as nat),
                ),
        decreases n - i,
    {
        assert(scalars[i as int]@ == scalar_views(scalars@)[i as int]);
        let masked = g1_mul(&ek.X[i], r);
        let shifted = g1_mul(&g_i[i], &scalars[i]);
        enc_chunks.push(g1_add(&masked, &shifted));
        i += 1;
    }
    let bases = ek.commitment_key();
    scalars.push(*r);
    assert(scalar_views(scalars@) =~= chunk_values(chunks@).push(r@));
    let commitment = g1_msm(&bases, &scalars);
    Ok(Ciphertext { X_r: x_r, enc_chunks, commitment })
}

/// Encrypts a message under `ek` in chunks of `chunk_bit_size` bits, with
/// randomness sampled from `rng`. Returns the ciphertext and the randomness.
/// Nothing is sampled where the inputs are rejected, so the generator is then
/// as it was.
pub fn encrypt<R: RngCore>(
    rng: &mut R,
    message: &Scalar,
    ek: &EncryptionKey,
    g_i: &[G1Point],
    chunk_bit_size: u8,
) -> (res: Result<(Ciphertext, Scalar), Error>)
    ensures
        !is_supported_chunk_bit_size(chunk_bit_size) ==> res == Err::<(Ciphertext, Scalar), Error>(
            Error::InvalidChunkBitSize(chunk_bit_size),
        ),
        is_supported_chunk_bit_size(chunk_bit_size) && !ek.is_well_formed() ==> res.is_err()
            && Err::<(), Error>(res->Err_0) == ek.validate_spec(),
        is_supported_chunk_bit_size(chunk_bit_size) && ek.is_well_formed() && ek.X.len()
            != chunks_count_spec(chunk_bit_size) ==> res == Err::<(Ciphertext, Scalar), Error>(
            Error::MessageNotInChunks,
        ),
        is_supported_chunk_bit_size(chunk_bit_size) && ek.is_well_formed() && ek.X.len()
            == chunks_count_spec(chunk_bit_size) && g_i.len() < ek.X.len() ==> res == Err::<
            (Ciphertext, Scalar),
            Error,
        >(Error::VectorShorterThanExpected(g_i.len(), ek.X.len())),
        is_supported_chunk_bit_size(chunk_bit_size) && ek.is_well_formed() && ek.X.len()
            == chunks_count_spec(chunk_bit_size) && g_i.len() >= ek.X.len() ==> res.is_ok(),
        res.is_err() ==> *final(rng) == *old(rng),
        res matches Ok(pair) ==> is_encryption_of(
            pair.0,
            decompose_spec(message@, chunk_bit_size),
            pair.1@,
            *ek,
            g1_views(g_i@),
        ),
{
    let chunks = match decompose(message, chunk_bit_size) {
        Ok(chunks) => chunks,
        Err(e) => {
            return Err(e);
        },
    };
    assert(chunk_values(chunks@).len() == chunks.len());
    // Every check comes before the randomness is sampled.
    match ek.validate() {
        Ok(_) => {},
        Err(e) => {
            return Err(e);
        },
    }
    if chunks.len() != ek.X.len() {
        return Err(Error::MessageNotInChunks);
    }
    if g_i.len() < chunks.len() {
        return Err(Error::VectorShorterThanExpected(g_i.len(), chunks.len()));
    }
    let r = fr_rand(rng);
    match encrypt_chunks(chunks.as_slice(), &r, ek, g_i) {
        Ok(ct) => Ok((ct, r)),
        Err(e) => Err(e),
    }
}

impl Ciphertext {
    /// Checks, without any secret, that the ciphertext is well formed: that
    /// its commitment is to the chunks that it encrypts, with the randomness
    /// that it was encrypted with.
    pub fn verify_commitment(&self, ek: &EncryptionKey, gens: &EncryptionGens) -> (res: Result<
        (),
        Error,
    >)
        ensures
            !ek.is_well_formed() ==> res == ek.validate_spec(),
            ek.is_well_formed() && self.enc_chunks.len() != ek.X.len() ==> res == Err::<
                (),
                Error,
            >(Error::MessageNotInChunks),
            ek.is_well_formed() && self.enc_chunks.len() == ek.X.len() ==> res == (
            if commitment_identity_holds(*self, *ek, *gens) {
                Ok::<(), Error>(())
            } else {
                Err::<(), Error>(Error::InvalidCiphertextVerification)
            }),
    {
        match ek.validate() {
            Ok(_) => {},
            Err(e) => {
                return Err(e);
            },
        }
        let n = self.enc_chunks.len();
        if n != ek.X.len() {
            return Err(Error::MessageNotInChunks);
        }
        let mut a: Vec<G1Point> = Vec::new();
        let mut b: Vec<G2Point> = Vec::new();
        a.push(self.X_r);
        b.push(ek.Z[0]);
        let mut i: usize = 0;
        while i < n
            invariant
                i <= n,
                n == self.enc_chunks.len(),
                ek.Z.len() == n + 1,
                a.len() == i + 1,
                b.len() == i + 1,
                a[0]@ == self.X_r@,
                forall|k: int| 1 <= k <= i ==> (#[trigger] a[k])@ == self.enc_chunks[k - 1]@,
                forall|k: int| 0 <= k <= i ==> (#[trigger] b[k])@ == ek.Z[k]@,
            decreases n - i,
        {
            a.push(self.enc_chunks[i]);
            b.push(ek.Z[i + 1]);
            i += 1;
        }
        a.push(g1_neg(&self.commitment));
        b.push(gens.H);
        assert(g1_views(a@) =~= commitment_check_g1(*self));
        assert(g2_views(b@) =~= commitment_check_g2(*ek, *gens));
        let product = pairing_product(&a, &b);
        if is_gt_one(&product) {
            Ok(())
        } else {
            Err(Error::InvalidCiphertextVerification)
        }
    }
}

} // verus!
