//! Decryption of a ciphertext, and the check that a decryption is right.
//!
//! With the secret key `rho`, the decryptor computes `nu = rho * (r * X_0)`.
//! For the chunk at index `i`, `e(c_i, V_2_i) * e(-nu, V_1_i)` is the power
//! `m_i` of `e(G_i, V_2_i)`, and `m_i` is found by trying the `2^b` values
//! that a chunk can have. Whoever holds `nu` can check the claimed message
//! against the ciphertext with the decryption key alone.
use crate::encryption::{gt_one_value, is_gt_one, Ciphertext};
use crate::error::Error;
use crate::group::{
    g1_mul, g1_neg, g1_negated, g1_scaled, g1_views, gt_mul, gt_multiplied, pairing,
    pairing_product, pairing_product_value, pairing_value, G1Point, G2Point, GtElement,
};
use crate::keygen::{DecryptionKey, SecretKey};
use crate::scalar::Scalar;
use crate::setup::EncryptionGens;
use crate::utils::{
    chunk_values, chunks_count, chunks_count_spec, compose, compose_spec, decompose,
    decompose_spec, is_supported_chunk_bit_size, supports_chunk_bit_size,
};
use vstd::arithmetic::power2::{lemma2_to64, pow2};
use vstd::prelude::*;

verus! {

/// The power `k` of an element of the target group: the unit for `k = 0`, and
/// the product of `k` factors `base`, multiplied from the left, else.
pub open spec fn gt_power(base: Seq<u8>, k: nat) -> Seq<u8>
    decreases k,
{
    if k == 0 {
        gt_one_value()
    } else if k == 1 {
        base
    } else {
        gt_multiplied(gt_power(base, (k - 1) as nat), base)
    }
}

/// Whether `k` is the least exponent with which `base` gives `target`.
pub open spec fn is_discrete_log(k: nat, base: Seq<u8>, target: Seq<u8>) -> bool {
    gt_power(base, k) == target && forall|j: nat| j < k ==> gt_power(base, j) != target
}

/// Whether some exponent below `limit` gives `target`.
pub open spec fn has_discrete_log_below(limit: nat, base: Seq<u8>, target: Seq<u8>) -> bool {
    exists|k: nat| k < limit && gt_power(base, k) == target
}

/// The least exponent with which `base` gives `target`, where there is one.
pub open spec fn discrete_log(base: Seq<u8>, target: Seq<u8>) -> nat {
    choose|k: nat| is_discrete_log(k, base, target)
}

/// There is one least exponent at most.
pub proof fn lemma_discrete_log_unique(k: nat, base: Seq<u8>, target: Seq<u8>)
    requires
        is_discrete_log(k, base, target),
    ensures
        discrete_log(base, target) == k,
{
    let other = discrete_log(base, target);
    assert(is_discrete_log(other, base, target));
    if other < k {
        assert(gt_power(base, other) != target);
    }
    if k < other {
        assert(gt_power(base, k) != target);
    }
}

/// The element of the target group that holds the chunk at index `i`:
/// `e(c_i, V_2_i) * e(-nu, V_1_i)`.
pub open spec fn chunk_target(ct: Ciphertext, nu: Seq<u8>, dk: DecryptionKey, i: int) -> Seq<u8> {
    pairing_product_value(
        seq![ct.enc_chunks[i]@, g1_negated(nu)],
        seq![dk.V_2[i]@, dk.V_1[i]@],
    )
}

/// The element of the target group whose powers the chunk at index `i` is
/// sought among: `e(G_i, V_2_i)`.
pub open spec fn chunk_base(g_i: Seq<Seq<u8>>, dk: DecryptionKey, i: int) -> Seq<u8> {
    pairing_value(g_i[i], dk.V_2[i]@)
}

/// What the check of the inputs of a decryption gives: the chunk size must
/// be supported, the decryption key well formed, the ciphertext and the key
/// must have one element for each chunk, and there must be a base for each.
pub open spec fn decryption_inputs_check(
    ct: Ciphertext,
    dk: DecryptionKey,
    g_i_len: usize,
    chunk_bit_size: u8,
) -> Result<(), Error> {
    let n = chunks_count_spec(chunk_bit_size);
    if !is_supported_chunk_bit_size(chunk_bit_size) {
        Err(Error::InvalidChunkBitSize(chunk_bit_size))
    } else if dk.validate_spec().is_err() {
        dk.validate_spec()
    } else if ct.enc_chunks.len() != n {
        Err(Error::MessageNotInChunks)
    } else if dk.V_1.len() != n {
        Err(Error::MalformedDecryptionKey(dk.V_1.len(), n as usize))
    } else if g_i_len < n {
        Err(Error::VectorShorterThanExpected(g_i_len, n as usize))
    } else {
        Ok(())
    }
}

/// Whether the chunk at index `i` can be found: whether one of the values
/// that a chunk can have fits the ciphertext.
pub open spec fn chunk_is_found(
    ct: Ciphertext,
    nu: Seq<u8>,
    dk: DecryptionKey,
    g_i: Seq<Seq<u8>>,
    chunk_bit_size: u8,
    i: int,
) -> bool {
    has_discrete_log_below(
        pow2(chunk_bit_size as nat),
        chunk_base(g_i, dk, i),
        chunk_target(ct, nu, dk, i),
    )
}

/// The chunks that decryption recovers, where every one of them is found.
pub open spec fn decrypted_chunks(
    ct: Ciphertext,
    nu: Seq<u8>,
    dk: DecryptionKey,
    g_i: Seq<Seq<u8>>,
    chunk_bit_size: u8,
) -> Seq<nat> {
    Seq::new(
        chunks_count_spec(chunk_bit_size),
        |i: int| discrete_log(chunk_base(g_i, dk, i), chunk_target(ct, nu, dk, i)),
    )
}

/// Whether `nu` is `rho` times the first element of the ciphertext, as far
/// as the decryption key shows it: `e(nu, H) * e(-(r * X_0), V_0) = 1`.
pub open spec fn transcript_identity_holds(
    ct: Ciphertext,
    nu: Seq<u8>,
    dk: DecryptionKey,
    gens: EncryptionGens,
) -> bool {
    pairing_product_value(seq![nu, g1_negated(ct.X_r@)], seq![gens.H@, dk.V_0@])
        == gt_one_value()
}

/// Whether the chunk `m` fits the ciphertext at index `i`:
/// `e(c_i, V_2_i) * e(-nu, V_1_i) * e(-(m * G_i), V_2_i) = 1`.
pub open spec fn chunk_identity_holds(
    ct: Ciphertext,
    m: nat,
    nu: Seq<u8>,
    dk: DecryptionKey,
    g_i: Seq<Seq<u8>>,
    i: int,
) -> bool {
    pairing_product_value(
        seq![ct.enc_chunks[i]@, g1_negated(nu), g1_negated(g1_scaled(g_i[i], m))],
        seq![dk.V_2[i]@, dk.V_1[i]@, dk.V_2[i]@],
    ) == gt_one_value()
}

/// Whether the claimed chunks and `nu` fit the ciphertext.
pub open spec fn decryption_identities_hold(
    ct: Ciphertext,
    chunks: Seq<nat>,
    nu: Seq<u8>,
    dk: DecryptionKey,
    g_i: Seq<Seq<u8>>,
    gens: EncryptionGens,
) -> bool {
    &&& transcript_identity_holds(ct, nu, dk, gens)
    &&& forall|i: int|
        0 <= i < chunks.len() ==> #[trigger] chunk_identity_holds(ct, chunks[i], nu, dk, g_i, i)
}

/// The number of values that a chunk can have.
pub(crate) fn chunk_values_count(chunk_bit_size: u8) -> (r: u32)
    requires
        is_supported_chunk_bit_size(chunk_bit_size),
    ensures
        r == pow2(chunk_bit_size as nat),
        2 <= r <= 65536,
{
    proof {
        lemma2_to64();
    }
    if chunk_bit_size == 1 {
        2
    } else if chunk_bit_size == 2 {
        4
    } else if chunk_bit_size == 4 {
        16
    } else if chunk_bit_size == 8 {
        256
    } else {
        65536
    }
}

/// The least exponent below `limit` with which `base` gives `target`, if
/// there is one.
pub fn solve_discrete_log(limit: u32, base: &GtElement, target: &GtElement) -> (r: Option<u16>)
    requires
        limit <= 65536,
    ensures
        match r {
            Some(k) => k < limit && is_discrete_log(k as nat, base@, target@),
            None => !has_discrete_log_below(limit as nat, base@, target@),
        },
{
    if limit == 0 {
        return None;
    }
    if is_gt_one(target) {
        return Some(0);
    }
    let mut cur = *base;
    let mut k: u32 = 1;
    while k < limit
        invariant
            1 <= k <= limit,
            limit <= 65536,
            cur@ == gt_power(base@, k as nat),
            forall|j: nat| j < k ==> gt_power(base@, j) != target@,
        decreases limit - k,
    {
        if cur.equals(target) {
            return Some(k as u16);
        }
        cur = gt_mul(&cur, base);
        k += 1;
    }
    None
}

impl Ciphertext {
    /// Checks the inputs of a decryption and gives the number of chunks.
    fn check_decryption_inputs(
        &self,
        dk: &DecryptionKey,
        g_i: &[G1Point],
        chunk_bit_size: u8,
    ) -> (r: Result<usize, Error>)
        ensures
            match decryption_inputs_check(*self, *dk, g_i.len(), chunk_bit_size) {
                Ok(_) => r == Ok::<usize, Error>(chunks_count_spec(chunk_bit_size) as usize),
                Err(e) => r == Err::<usize, Error>(e),
            },
            r.is_ok() ==> {
                &&& is_supported_chunk_bit_size(chunk_bit_size)
                &&& self.enc_chunks.len() == chunks_count_spec(chunk_bit_size)
                &&& dk.V_1.len() == chunks_count_spec(chunk_bit_size)
                &&& dk.V_2.len() == chunks_count_spec(chunk_bit_size)
                &&& g_i.len() >= chunks_count_spec(chunk_bit_size)
            },
    {
        if !supports_chunk_bit_size(chunk_bit_size) {
            return Err(Error::InvalidChunkBitSize(chunk_bit_size));
        }
        match dk.validate() {
            Ok(_) => {},
            Err(e) => {
                return Err(e);
            },
        }
        let n: usize = chunks_count(chunk_bit_size) as usize;
        if self.enc_chunks.len() != n {
            return Err(Error::MessageNotInChunks);
        }
        if dk.V_1.len() != n {
            return Err(Error::MalformedDecryptionKey(dk.V_1.len(), n));
        }
        if g_i.len() < n {
            return Err(Error::VectorShorterThanExpected(g_i.len(), n));
        }
        Ok(n)
    }

    /// Decrypts the chunks of the message, and gives `nu = rho * (r * X_0)`
    /// with them, by which the decryption can be checked.
    pub fn decrypt_to_chunks(
        &self,
        sk: &SecretKey,
        dk: &DecryptionKey,
        g_i: &[G1Point],
        chunk_bit_size: u8,
    ) -> (res: Result<(Vec<u16>, G1Point), Error>)
        ensures
            decryption_inputs_check(*self, *dk, g_i.len(), chunk_bit_size) matches Err(e) ==> res
                == Err::<(Vec<u16>, G1Point), Error>(e),
            decryption_inputs_check(*self, *dk, g_i.len(), chunk_bit_size).is_ok() ==> (
            res.is_ok() <==> forall|i: int|
                0 <= i < chunks_count_spec(chunk_bit_size) ==> #[trigger] chunk_is_found(
                    *self,
                    g1_scaled(self.X_r@, sk.0@),
                    *dk,
                    g1_views(g_i@),
                    chunk_bit_size,
                    i,
                )),
            decryption_inputs_check(*self, *dk, g_i.len(), chunk_bit_size).is_ok() ==> (
            res matches Err(e) ==> exists|i: int|
                {
                    &&& 0 <= i < chunks_count_spec(chunk_bit_size)
                    &&& e == Error::CouldNotFindDiscreteLog(i as usize)
                    &&& !#[trigger] chunk_is_found(
                        *self,
                        g1_scaled(self.X_r@, sk.0@),
                        *dk,
                        g1_views(g_i@),
                        chunk_bit_size,
                        i,
                    )
                    &&& forall|j: int|
                        0 <= j < i ==> #[trigger] chunk_is_found(
                            *self,
                            g1_scaled(self.X_r@, sk.0@),
                            *dk,
                            g1_views(g_i@),
                            chunk_bit_size,
                            j,
                        )
                }),
            res matches Ok(pair) ==> {
                &&& pair.1@ == g1_scaled(self.X_r@, sk.0@)
                &&& chunk_values(pair.0@) == decrypted_chunks(
                    *self,
                    pair.1@,
                    *dk,
                    g1_views(g_i@),
                    chunk_bit_size,
                )
                &&& forall|i: int|
                    0 <= i < pair.0.len() ==> (#[trigger] pair.0[i]) < pow2(chunk_bit_size as nat)
            },
    {
        let n = match self.check_decryption_inputs(dk, g_i, chunk_bit_size) {
            Ok(n) => n,
            Err(e) => {
                return Err(e);
            },
        };
        let limit = chunk_values_count(chunk_bit_size);
        let nu = g1_mul(&self.X_r, &sk.0);
        let neg_nu = g1_neg(&nu);
        let ghost bases = g1_views(g_i@);
        let mut chunks: Vec<u16> = Vec::new();
        let mut i: usize = 0;
        while i < n
            invariant
                i <= n,
                is_supported_chunk_bit_size(chunk_bit_size),
                decryption_inputs_check(*self, *dk, g_i.len(), chunk_bit_size).is_ok(),
                n == chunks_count_spec(chunk_bit_size),
                self.enc_chunks.len() == n,
                dk.V_1.len() == n,
                dk.V_2.len() == n,
                g_i.len() >= n,
                bases == g1_views(g_i@),
                limit == pow2(chunk_bit_size as nat),
                limit <= 65536,
                nu@ == g1_scaled(self.X_r@, sk.0@),
                neg_nu@ == g1_negated(nu@),
                chunks.len() == i,
                forall|k: int|
                    0 <= k < i ==> (#[trigger] chunks[k]) < limit && is_discrete_log(
                        chunks[k] as nat,
                        chunk_base(bases, *dk, k),
                        chunk_target(*self, nu@, *dk, k),
                    ),
            decreases n - i,
        {
            let a: Vec<G1Point> = vec![self.enc_chunks[i], neg_nu];
            let b: Vec<G2Point> = vec![dk.V_2[i], dk.V_1[i]];
            proof {
                assert(g1_views(a@) =~= seq![self.enc_chunks[i as int]@, g1_negated(nu@)]);
                assert(crate::group::g2_views(b@) =~= seq![dk.V_2[i as int]@, dk.V_1[i as int]@]);
            }
            let target = pairing_product(&a, &b);
            let base = pairing(&g_i[i], &dk.V_2[i]);
            match solve_discrete_log(limit, &base, &target) {
                Some(k) => {
                    chunks.push(k);
                },
                None => {
                    proof {
                        assert(!chunk_is_found(
                            *self,
                            nu@,
                            *dk,
                            bases,
                            chunk_bit_size,
                            i as int,
                        ));
                        assert forall|j: int| 0 <= j < i implies #[trigger] chunk_is_found(
                            *self,
                            nu@,
                            *dk,
                            bases,
                            chunk_bit_size,
                            j,
                        ) by {
                            assert(chunks[j] < limit);
                        }
                    }
                    return Err(Error::CouldNotFindDiscreteLog(i));
                },
            }
            i += 1;
        }
        proof {
            let found = decrypted_chunks(*self, nu@, *dk, bases, chunk_bit_size);
            assert forall|k: int| 0 <= k < n implies chunk_values(chunks@)[k] == found[k] by {
                lemma_discrete_log_unique(
                    chunks[k] as nat,
                    chunk_base(bases, *dk, k),
                    chunk_target(*self, nu@, *dk, k),
                );
            }
            assert(chunk_values(chunks@) =~= found);
            assert forall|k: int| 0 <= k < n implies #[trigger] chunk_is_found(
                *self,
                nu@,
                *dk,
                bases,
                chunk_bit_size,
                k,
            ) by {
                assert(chunks[k] < limit);
            }
        }
        Ok((chunks, nu))
    }

    /// Decrypts the message, and gives `nu = rho * (r * X_0)` with it, by
    /// which the decryption can be checked.
    pub fn decrypt(
        &self,
        sk: &SecretKey,
        dk: &DecryptionKey,
        g_i: &[G1Point],
        chunk_bit_size: u8,
    ) -> (res: Result<(Scalar, G1Point), Error>)
        ensures
            decryption_inputs_check(*self, *dk, g_i.len(), chunk_bit_size) matches Err(e) ==> res
                == Err::<(Scalar, G1Point), Error>(e),
            decryption_inputs_check(*self, *dk, g_i.len(), chunk_bit_size).is_ok() ==> (
            res.is_ok() <==> forall|i: int|
                0 <= i < chunks_count_spec(chunk_bit_size) ==> #[trigger] chunk_is_found(
                    *self,
                    g1_scaled(self.X_r@, sk.0@),
                    *dk,
                    g1_views(g_i@),
                    chunk_bit_size,
                    i,
                )),
            decryption_inputs_check(*self, *dk, g_i.len(), chunk_bit_size).is_ok() ==> (
            res matches Err(e) ==> exists|i: int|
                {
                    &&& 0 <= i < chunks_count_spec(chunk_bit_size)
                    &&& e == Error::CouldNotFindDiscreteLog(i as usize)
                    &&& !#[trigger] chunk_is_found(
                        *self,
                        g1_scaled(self.X_r@, sk.0@),
                        *dk,
                        g1_views(g_i@),
                        chunk_bit_size,
                        i,
                    )
                    &&& forall|j: int|
                        0 <= j < i ==> #[trigger] chunk_is_found(
                            *self,
                            g1_scaled(self.X_r@, sk.0@),
                            *dk,
                            g1_views(g_i@),
                            chunk_bit_size,
                            j,
                        )
                }),
            res matches Ok(pair) ==> {
                &&& pair.1@ == g1_scaled(self.X_r@, sk.0@)
                &&& pair.0@ == compose_spec(
                    decrypted_chunks(*self, pair.1@, *dk, g1_views(g_i@), chunk_bit_size),
                    chunk_bit_size,
                )
            },
    {
        match self.decrypt_to_chunks(sk, dk, g_i, chunk_bit_size) {
            Ok((chunks, nu)) => {
                assert(chunk_values(chunks@).len() == chunks.len());
                match compose(chunks.as_slice(), chunk_bit_size) {
                    Ok(message) => Ok((message, nu)),
                    Err(e) => Err(e),
                }
            },
            Err(e) => Err(e),
        }
    }

    /// Checks that `message` is what the ciphertext decrypts to, with the
    /// `nu` that the decryptor gave and without the secret key.
    pub fn verify_decryption(
        &self,
        message: &Scalar,
        nu: &G1Point,
        chunk_bit_size: u8,
        dk: &DecryptionKey,
        g_i: &[G1Point],
        gens: &EncryptionGens,
    ) -> (res: Result<(), Error>)
        ensures
            decryption_inputs_check(*self, *dk, g_i.len(), chunk_bit_size) matches Err(e) ==> res
                == Err::<(), Error>(e),
            decryption_inputs_check(*self, *dk, g_i.len(), chunk_bit_size).is_ok() ==> res == (
            if decryption_identities_hold(
                *self,
                decompose_spec(message@, chunk_bit_size),
                nu@,
                *dk,
                g1_views(g_i@),
                *gens,
            ) {
                Ok::<(), Error>(())
            } else {
                Err::<(), Error>(Error::InvalidDecryptionVerification)
            }),
    {
        let n = match self.check_decryption_inputs(dk, g_i, chunk_bit_size) {
            Ok(n) => n,
            Err(e) => {
                return Err(e);
            },
        };
        let chunks = match decompose(message, chunk_bit_size) {
            Ok(chunks) => chunks,
            Err(e) => {
                return Err(e);
            },
        };
        let ghost claimed = decompose_spec(message@, chunk_bit_size);
        let ghost bases = g1_views(g_i@);
        assert(chunk_values(chunks@).len() == chunks.len());
        let a: Vec<G1Point> = vec![*nu, g1_neg(&self.X_r)];
        let b: Vec<G2Point> = vec![gens.H, dk.V_0];
        proof {
            assert(g1_views(a@) =~= seq![nu@, g1_negated(self.X_r@)]);
            assert(crate::group::g2_views(b@) =~= seq![gens.H@, dk.V_0@]);
        }
        if !is_gt_one(&pairing_product(&a, &b)) {
            return Err(Error::InvalidDecryptionVerification);
        }
        let neg_nu = g1_neg(nu);
        let mut i: usize = 0;
        while i < n
            invariant
                i <= n,
                is_supported_chunk_bit_size(chunk_bit_size),
                decryption_inputs_check(*self, *dk, g_i.len(), chunk_bit_size).is_ok(),
                n == chunks_count_spec(chunk_bit_size),
                chunks.len() == n,
                self.enc_chunks.len() == n,
                dk.V_1.len() == n,
                dk.V_2.len() == n,
                g_i.len() >= n,
                bases == g1_views(g_i@),
                claimed == decompose_spec(message@, chunk_bit_size),
                chunk_values(chunks@) == claimed,
                neg_nu@ == g1_negated(nu@),
                transcript_identity_holds(*self, nu@, *dk, *gens),
                forall|k: int|
                    0 <= k < i ==> #[trigger] chunk_identity_holds(
                        *self,
                        claimed[k],
                        nu@,
                        *dk,
                        bases,
                        k,
                    ),
            decreases n - i,
        {
            let m = Scalar::from_u64(chunks[i] as u64);
            assert(m@ == chunk_values(chunks@)[i as int]);
            let shifted = g1_neg(&g1_mul(&g_i[i], &m));
            let a: Vec<G1Point> = vec![self.enc_chunks[i], neg_nu, shifted];
            let b: Vec<G2Point> = vec![dk.V_2[i], dk.V_1[i], dk.V_2[i]];
            proof {
                assert(g1_views(a@) =~= seq![
                    self.enc_chunks[i as int]@,
                    g1_negated(nu@),
                    g1_negated(g1_scaled(bases[i as int], claimed[i as int])),
                ]);
                assert(crate::group::g2_views(b@) =~= seq![
                    dk.V_2[i as int]@,
                    dk.V_1[i as int]@,
                    dk.V_2[i as int]@,
                ]);
            }
            if !is_gt_one(&pairing_product(&a, &b)) {
                assert(!chunk_identity_holds(*self, claimed[i as int], nu@, *dk, bases, i as int));
                return Err(Error::InvalidDecryptionVerification);
            }
            i += 1;
        }
        Ok(())
    }
}

} // verus!
