//! Decryption with a table of the powers that the chunks are sought among.
//!
//! The chunk at index `i` is the exponent with which `e(G_i, V_2_i)` gives
//! `e(c_i, V_2_i) * e(-nu, V_1_i)`. The powers of `e(G_i, V_2_i)` depend on
//! the decryption key and the bases alone, so they are computed once and
//! serve every ciphertext under that key.
use crate::decryption::{
    chunk_base, chunk_is_found, chunk_target, chunk_values_count, decrypted_chunks, gt_power,
    is_discrete_log, lemma_discrete_log_unique,
};
use crate::encryption::{is_gt_one, Ciphertext};
use crate::error::Error;
use crate::group::{
    g1_mul, g1_neg, g1_negated, g1_scaled, g1_views, g2_views, gt_mul, pairing, pairing_product,
    G1Point, G2Point, GtElement,
};
use crate::keygen::{DecryptionKey, SecretKey};
use crate::scalar::Scalar;
use crate::utils::{
    chunk_values, chunks_count, chunks_count_spec, compose, compose_spec,
    is_supported_chunk_bit_size, supports_chunk_bit_size,
};
use vstd::arithmetic::power2::{lemma2_to64, pow2};
use vstd::prelude::*;

verus! {

/// A decryption key with the bases of the chunks and, for each chunk index
/// `i`, the powers `1` to `2^b - 1` of `e(G_i, V_2_i)`.
#[derive(Debug, PartialEq, Eq)]
pub struct PairingPowers {
    chunk_bit_size: u8,
    dk: DecryptionKey,
    g_i: Vec<G1Point>,
    rows: Vec<Vec<GtElement>>,
}

/// What the check of the inputs of a table gives: the chunk size must be
/// supported, the decryption key well formed and with one element for each
/// chunk, and there must be a base for each chunk.
pub open spec fn pairing_powers_inputs_check(
    dk: DecryptionKey,
    g_i_len: usize,
    chunk_bit_size: u8,
) -> Result<(), Error> {
    let n = chunks_count_spec(chunk_bit_size);
    if !is_supported_chunk_bit_size(chunk_bit_size) {
        Err(Error::InvalidChunkBitSize(chunk_bit_size))
    } else if dk.validate_spec().is_err() {
        dk.validate_spec()
    } else if dk.V_1.len() != n {
        Err(Error::MalformedDecryptionKey(dk.V_1.len(), n as usize))
    } else if g_i_len < n {
        Err(Error::VectorShorterThanExpected(g_i_len, n as usize))
    } else {
        Ok(())
    }
}

/// A copy of the first `count` points.
fn copy_g1(points: &[G1Point], count: usize) -> (r: Vec<G1Point>)
    requires
        count <= points.len(),
    ensures
        r.len() == count,
        g1_views(r@) == g1_views(points@).take(count as int),
{
    let mut out: Vec<G1Point> = Vec::new();
    let mut i: usize = 0;
    while i < count
        invariant
            i <= count,
            count <= points.len(),
            out.len() == i,
            forall|k: int| 0 <= k < i ==> (#[trigger] out[k])@ == points[k]@,
        decreases count - i,
    {
        out.push(points[i]);
        i += 1;
    }
    assert(g1_views(out@) =~= g1_views(points@).take(count as int));
    out
}

/// A copy of the points.
fn copy_g2(points: &Vec<G2Point>) -> (r: Vec<G2Point>)
    ensures
        r.len() == points.len(),
        g2_views(r@) == g2_views(points@),
{
    let mut out: Vec<G2Point> = Vec::new();
    let mut i: usize = 0;
    while i < points.len()
        invariant
            i <= points.len(),
            out.len() == i,
            forall|k: int| 0 <= k < i ==> (#[trigger] out[k])@ == points[k]@,
        decreases points.len() - i,
    {
        out.push(points[i]);
        i += 1;
    }
    assert(g2_views(out@) =~= g2_views(points@));
    out
}

/// The powers `1` to `limit - 1` of `base`.
fn powers_of(base: &GtElement, limit: u32) -> (r: Vec<GtElement>)
    requires
        1 <= limit <= 65536,
    ensures
        r.len() == limit - 1,
        forall|k: int| 0 <= k < r.len() ==> (#[trigger] r[k])@ == gt_power(base@, (k + 1) as nat),
{
    let mut row: Vec<GtElement> = Vec::new();
    if limit == 1 {
        return row;
    }
    let mut cur = *base;
    row.push(cur);
    let mut k: u32 = 2;
    while k < limit
        invariant
            2 <= k <= limit,
            limit <= 65536,
            row.len() == k - 1,
            cur@ == gt_power(base@, (k - 1) as nat),
            forall|j: int|
                0 <= j < row.len() ==> (#[trigger] row[j])@ == gt_power(base@, (j + 1) as nat),
        decreases limit - k,
    {
        cur = gt_mul(&cur, base);
        row.push(cur);
        k += 1;
    }
    row
}

/// The least exponent, up to the length of `row`, with which the element
/// whose powers `row` holds gives `target`, if there is one.
fn lookup_discrete_log(row: &Vec<GtElement>, base: Ghost<Seq<u8>>, target: &GtElement) -> (r:
    Option<u16>)
    requires
        row.len() < 65536,
        forall|k: int|
            0 <= k < row.len() ==> (#[trigger] row[k])@ == gt_power(base@, (k + 1) as nat),
    ensures
        match r {
            Some(k) => k <= row.len() && is_discrete_log(k as nat, base@, target@),
            None => forall|j: nat| j <= row.len() ==> gt_power(base@, j) != target@,
        },
{
    if is_gt_one(target) {
        return Some(0);
    }
    let mut k: usize = 0;
    while k < row.len()
        invariant
            k <= row.len(),
            row.len() < 65536,
            forall|j: int|
                0 <= j < row.len() ==> (#[trigger] row[j])@ == gt_power(base@, (j + 1) as nat),
            forall|j: nat| j <= k ==> gt_power(base@, j) != target@,
        decreases row.len() - k,
    {
        if row[k].equals(target) {
            return Some((k + 1) as u16);
        }
        proof {
            assert(row[k as int]@ == gt_power(base@, (k + 1) as nat));
        }
        k += 1;
    }
    None
}

impl PairingPowers {
    /// Every table holds the powers that belong to its key and bases.
    #[verifier::type_invariant]
    closed spec fn is_table(self) -> bool {
        let n = chunks_count_spec(self.chunk_bit_size);
        &&& is_supported_chunk_bit_size(self.chunk_bit_size)
        &&& self.dk.V_1.len() == n
        &&& self.dk.V_2.len() == n
        &&& self.g_i.len() == n
        &&& self.rows.len() == n
        &&& forall|i: int|
            0 <= i < n ==> (#[trigger] self.rows[i]).len() == pow2(self.chunk_bit_size as nat) - 1
        &&& forall|i: int, k: int|
            0 <= i < n && 0 <= k < pow2(self.chunk_bit_size as nat) - 1 ==> (
            #[trigger] self.rows[i][k])@ == gt_power(
                chunk_base(g1_views(self.g_i@), self.dk, i),
                (k + 1) as nat,
            )
    }

    /// The chunk size that the table is for.
    pub closed spec fn chunk_bit_size_spec(&self) -> u8 {
        self.chunk_bit_size
    }

    /// The decryption key that the table is for.
    pub closed spec fn decryption_key(&self) -> DecryptionKey {
        self.dk
    }

    /// The bases that the table is for, one for each chunk.
    pub closed spec fn bases(&self) -> Seq<Seq<u8>> {
        g1_views(self.g_i@)
    }

    /// Whether the table is that of the key `dk`, the bases `g_i` and the
    /// chunk size `chunk_bit_size`.
    pub open spec fn is_table_of(
        &self,
        dk: DecryptionKey,
        g_i: Seq<Seq<u8>>,
        chunk_bit_size: u8,
    ) -> bool {
        &&& self.chunk_bit_size_spec() == chunk_bit_size
        &&& self.decryption_key().V_0@ == dk.V_0@
        &&& g2_views(self.decryption_key().V_1@) == g2_views(dk.V_1@)
        &&& g2_views(self.decryption_key().V_2@) == g2_views(dk.V_2@)
        &&& self.bases() == g_i.take(chunks_count_spec(chunk_bit_size) as int)
    }

    /// The chunk size that the table is for.
    pub fn chunk_bit_size(&self) -> (r: u8)
        ensures
            r == self.chunk_bit_size_spec(),
            is_supported_chunk_bit_size(r),
    {
        proof {
            use_type_invariant(self);
        }
        self.chunk_bit_size
    }

    /// Computes the table of the key `dk` over the bases `g_i` for chunks of
    /// `chunk_bit_size` bits.
    pub fn new(dk: &DecryptionKey, g_i: &[G1Point], chunk_bit_size: u8) -> (r: Result<
        PairingPowers,
        Error,
    >)
        ensures
            pairing_powers_inputs_check(*dk, g_i.len(), chunk_bit_size) matches Err(e) ==> r
                == Err::<PairingPowers, Error>(e),
            pairing_powers_inputs_check(*dk, g_i.len(), chunk_bit_size).is_ok() ==> r.is_ok(),
            r matches Ok(table) ==> table.is_table_of(*dk, g1_views(g_i@), chunk_bit_size),
    {
        if !supports_chunk_bit_size(chunk_bit_size) {
            return Err(Error::InvalidChunkBitSize(chunk_bit_size));
        }
        match dk.validate() {
            Ok(_) => {},
            Err(e) => {
                return Err(e);
            },
        }
        let n: usize = chunks_count(chunk_bit_size) as usize;
        if dk.V_1.len() != n {
            return Err(Error::MalformedDecryptionKey(dk.V_1.len(), n));
        }
        if g_i.len() < n {
            return Err(Error::VectorShorterThanExpected(g_i.len(), n));
        }
        let limit = chunk_values_count(chunk_bit_size);
        let key = DecryptionKey { V_0: dk.V_0, V_1: copy_g2(&dk.V_1), V_2: copy_g2(&dk.V_2) };
        let bases = copy_g1(g_i, n);
        let mut rows: Vec<Vec<GtElement>> = Vec::new();
        let mut i: usize = 0;
        while i < n
            invariant
                i <= n,
                n == chunks_count_spec(chunk_bit_size),
                limit == pow2(chunk_bit_size as nat),
                1 <= limit <= 65536,
                key.V_2.len() == n,
                bases.len() == n,
                rows.len() == i,
                forall|j: int| 0 <= j < i ==> (#[trigger] rows[j]).len() == limit - 1,
                forall|j: int, k: int|
                    0 <= j < i && 0 <= k < limit - 1 ==> (#[trigger] rows[j][k])@ == gt_power(
                        chunk_base(g1_views(bases@), key, j),
                        (k + 1) as nat,
                    ),
            decreases n - i,
        {
            let base = pairing(&bases[i], &key.V_2[i]);
            let row = powers_of(&base, limit);
            rows.push(row);
            i += 1;
        }
        proof {
            assert(g2_views(key.V_1@).len() == key.V_1.len());
            assert(g2_views(key.V_2@).len() == key.V_2.len());
        }
        Ok(PairingPowers { chunk_bit_size, dk: key, g_i: bases, rows })
    }
}

/// What the table of a key and its bases says of a ciphertext is what the
/// key and the bases themselves say of it: the same chunks are found, and
/// they have the same values.
pub proof fn lemma_table_agrees(
    table: PairingPowers,
    ct: Ciphertext,
    nu: Seq<u8>,
    dk: DecryptionKey,
    g_i: Seq<Seq<u8>>,
    chunk_bit_size: u8,
)
    requires
        table.is_table_of(dk, g_i, chunk_bit_size),
        dk.V_1.len() >= chunks_count_spec(chunk_bit_size),
        dk.V_2.len() >= chunks_count_spec(chunk_bit_size),
        g_i.len() >= chunks_count_spec(chunk_bit_size),
    ensures
        forall|i: int|
            0 <= i < chunks_count_spec(chunk_bit_size) ==> chunk_is_found(
                ct,
                nu,
                table.decryption_key(),
                table.bases(),
                chunk_bit_size,
                i,
            ) == chunk_is_found(ct, nu, dk, g_i, chunk_bit_size, i),
        decrypted_chunks(ct, nu, table.decryption_key(), table.bases(), chunk_bit_size)
            == decrypted_chunks(ct, nu, dk, g_i, chunk_bit_size),
{
    let n = chunks_count_spec(chunk_bit_size);
    let own = table.decryption_key();
    assert forall|i: int| 0 <= i < n implies chunk_base(table.bases(), own, i) == chunk_base(
        g_i,
        dk,
        i,
    ) && chunk_target(ct, nu, own, i) == chunk_target(ct, nu, dk, i) by {
        assert(g2_views(own.V_1@).len() == own.V_1@.len());
        assert(g2_views(own.V_2@).len() == own.V_2@.len());
        assert(g2_views(dk.V_1@).len() == dk.V_1@.len());
        assert(g2_views(dk.V_2@).len() == dk.V_2@.len());
        assert(g2_views(own.V_1@)[i] == g2_views(dk.V_1@)[i]);
        assert(g2_views(own.V_2@)[i] == g2_views(dk.V_2@)[i]);
        assert(table.bases()[i] == g_i[i]);
    }
    assert(decrypted_chunks(ct, nu, own, table.bases(), chunk_bit_size) =~= decrypted_chunks(
        ct,
        nu,
        dk,
        g_i,
        chunk_bit_size,
    ));
}

impl Ciphertext {
    /// Decrypts the chunks of the message with a table of powers, and gives
    /// `nu = rho * (r * X_0)` with them, by which the decryption can be
    /// checked.
    pub fn decrypt_to_chunks_given_pairing_powers(
        &self,
        sk: &SecretKey,
        table: &PairingPowers,
    ) -> (res: Result<(Vec<u16>, G1Point), Error>)
        ensures
            self.enc_chunks.len() != chunks_count_spec(table.chunk_bit_size_spec()) ==> res
                == Err::<(Vec<u16>, G1Point), Error>(Error::MessageNotInChunks),
            self.enc_chunks.len() == chunks_count_spec(table.chunk_bit_size_spec()) ==> (
            res.is_ok() <==> forall|i: int|
                0 <= i < chunks_count_spec(table.chunk_bit_size_spec())
                    ==> #[trigger] chunk_is_found(
                    *self,
                    g1_scaled(self.X_r@, sk.0@),
                    table.decryption_key(),
                    table.bases(),
                    table.chunk_bit_size_spec(),
                    i,
                )),
            self.enc_chunks.len() == chunks_count_spec(table.chunk_bit_size_spec()) ==> (
            res matches Err(e) ==> exists|i: int|
                {
                    &&& 0 <= i < chunks_count_spec(table.chunk_bit_size_spec())
                    &&& e == Error::CouldNotFindDiscreteLog(i as usize)
                    &&& !#[trigger] chunk_is_found(
                        *self,
                        g1_scaled(self.X_r@, sk.0@),
                        table.decryption_key(),
                        table.bases(),
                        table.chunk_bit_size_spec(),
                        i,
                    )
                    &&& forall|j: int|
                        0 <= j < i ==> #[trigger] chunk_is_found(
                            *self,
                            g1_scaled(self.X_r@, sk.0@),
                            table.decryption_key(),
                            table.bases(),
                            table.chunk_bit_size_spec(),
                            j,
                        )
                }),
            res matches Ok(pair) ==> {
                &&& pair.1@ == g1_scaled(self.X_r@, sk.0@)
                &&& chunk_values(pair.0@) == decrypted_chunks(
                    *self,
                    pair.1@,
                    table.decryption_key(),
                    table.bases(),
                    table.chunk_bit_size_spec(),
                )
                &&& forall|i: int|
                    0 <= i < pair.0.len() ==> (#[trigger] pair.0[i]) < pow2(
                        table.chunk_bit_size_spec() as nat,
                    )
            },
    {
        proof {
            use_type_invariant(table);
        }
        let n: usize = chunks_count(table.chunk_bit_size) as usize;
        if self.enc_chunks.len() != n {
            return Err(Error::MessageNotInChunks);
        }
        let nu = g1_mul(&self.X_r, &sk.0);
        let neg_nu = g1_neg(&nu);
        let ghost bases = g1_views(table.g_i@);
        let ghost limit = pow2(table.chunk_bit_size as nat);
        proof {
            lemma2_to64();
        }
        let mut chunks: Vec<u16> = Vec::new();
        let mut i: usize = 0;
        while i < n
            invariant
                i <= n,
                table.is_table(),
                n == chunks_count_spec(table.chunk_bit_size),
                self.enc_chunks.len() == n,
                bases == g1_views(table.g_i@),
                limit == pow2(table.chunk_bit_size as nat),
                2 <= limit <= 65536,
                nu@ == g1_scaled(self.X_r@, sk.0@),
                neg_nu@ == g1_negated(nu@),
                chunks.len() == i,
                forall|k: int|
                    0 <= k < i ==> (#[trigger] chunks[k]) < limit && is_discrete_log(
                        chunks[k] as nat,
                        chunk_base(bases, table.dk, k),
                        chunk_target(*self, nu@, table.dk, k),
                    ),
            decreases n - i,
        {
            let a: Vec<G1Point> = vec![self.enc_chunks[i], neg_nu];
            let b: Vec<G2Point> = vec![table.dk.V_2[i], table.dk.V_1[i]];
            proof {
                assert(g1_views(a@) =~= seq![self.enc_chunks[i as int]@, g1_negated(nu@)]);
                assert(g2_views(b@) =~= seq![table.dk.V_2[i as int]@, table.dk.V_1[i as int]@]);
            }
            let target = pairing_product(&a, &b);
            let ghost base = chunk_base(bases, table.dk, i as int);
            let row = &table.rows[i];
            proof {
                assert(row.len() == limit - 1);
                assert forall|k: int| 0 <= k < row.len() implies (#[trigger] row[k])@ == gt_power(
                    base,
                    (k + 1) as nat,
                ) by {
                    assert(table.rows[i as int][k]@ == gt_power(base, (k + 1) as nat));
                }
            }
            match lookup_discrete_log(row, Ghost(base), &target) {
                Some(k) => {
                    chunks.push(k);
                },
                None => {
                    proof {
                        assert(table.decryption_key() == table.dk);
                        assert(table.bases() == bases);
                        assert(table.chunk_bit_size_spec() == table.chunk_bit_size);
                        assert(!chunk_is_found(
                            *self,
                            nu@,
                            table.dk,
                            bases,
                            table.chunk_bit_size,
                            i as int,
                        ));
                        assert forall|j: int| 0 <= j < i implies #[trigger] chunk_is_found(
                            *self,
                            nu@,
                            table.dk,
                            bases,
                            table.chunk_bit_size,
                            j,
                        ) by {
                            assert(chunks[j] < limit);
                        }
                    }
                    return Err(Error::CouldNotFindDiscreteLog(i));
                },
            }
            i += 1;
        }
        proof {
            let found = decrypted_chunks(*self, nu@, table.dk, bases, table.chunk_bit_size);
            assert forall|k: int| 0 <= k < n implies chunk_values(chunks@)[k] == found[k] by {
                lemma_discrete_log_unique(
                    chunks[k] as nat,
                    chunk_base(bases, table.dk, k),
                    chunk_target(*self, nu@, table.dk, k),
                );
            }
            assert(chunk_values(chunks@) =~= found);
            assert forall|k: int| 0 <= k < n implies #[trigger] chunk_is_found(
                *self,
                nu@,
                table.dk,
                bases,
                table.chunk_bit_size,
                k,
            ) by {
                assert(chunks[k] < limit);
            }
        }
        Ok((chunks, nu))
    }

    /// Decrypts the message with a table of powers, and gives
    /// `nu = rho * (r * X_0)` with it, by which the decryption can be
    /// checked.
    pub fn decrypt_given_pairing_powers(&self, sk: &SecretKey, table: &PairingPowers) -> (res:
        Result<(Scalar, G1Point), Error>)
        ensures
            self.enc_chunks.len() != chunks_count_spec(table.chunk_bit_size_spec()) ==> res
                == Err::<(Scalar, G1Point), Error>(Error::MessageNotInChunks),
            self.enc_chunks.len() == chunks_count_spec(table.chunk_bit_size_spec()) ==> (
            res.is_ok() <==> forall|i: int|
                0 <= i < chunks_count_spec(table.chunk_bit_size_spec())
                    ==> #[trigger] chunk_is_found(
                    *self,
                    g1_scaled(self.X_r@, sk.0@),
                    table.decryption_key(),
                    table.bases(),
                    table.chunk_bit_size_spec(),
                    i,
                )),
            self.enc_chunks.len() == chunks_count_spec(table.chunk_bit_size_spec()) ==> (
            res matches Err(e) ==> exists|i: int|
                {
                    &&& 0 <= i < chunks_count_spec(table.chunk_bit_size_spec())
                    &&& e == Error::CouldNotFindDiscreteLog(i as usize)
                    &&& !#[trigger] chunk_is_found(
                        *self,
                        g1_scaled(self.X_r@, sk.0@),
                        table.decryption_key(),
                        table.bases(),
                        table.chunk_bit_size_spec(),
                        i,
                    )
                    &&& forall|j: int|
                        0 <= j < i ==> #[trigger] chunk_is_found(
                            *self,
                            g1_scaled(self.X_r@, sk.0@),
                            table.decryption_key(),
                            table.bases(),
                            table.chunk_bit_size_spec(),
                            j,
                        )
                }),
            res matches Ok(pair) ==> {
                &&& pair.1@ == g1_scaled(self.X_r@, sk.0@)
                &&& pair.0@ == compose_spec(
                    decrypted_chunks(
                        *self,
                        pair.1@,
                        table.decryption_key(),
                        table.bases(),
                        table.chunk_bit_size_spec(),
                    ),
                    table.chunk_bit_size_spec(),
                )
            },
    {
        let chunk_bit_size = table.chunk_bit_size();
        match self.decrypt_to_chunks_given_pairing_powers(sk, table) {
            Ok((chunks, nu)) => {
                assert(chunk_values(chunks@).len() == chunks.len());
                match compose(chunks.as_slice(), chunk_bit_size) {
                    Ok(message) => Ok((message, nu)),
                    Err(e) => Err(e),
                }
            },
            Err(e) => Err(e),
        }
    }
}

} // verus!
