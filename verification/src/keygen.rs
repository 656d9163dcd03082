//! Generation of the secret, encryption and decryption keys.
use crate::error::Error;
use crate::group::{
    g1_mul, g1_mul_many, g1_neg, g1_negated, g1_scaled, g1_views, g2_mul, g2_mul_many, g2_scaled,
    scalar_views, G1Point, G2Point,
};
use crate::scalar::{fr_rand, modulus, Scalar};
use crate::setup::EncryptionGens;
use crate::utils::{
    chunks_count, chunks_count_spec, is_supported_chunk_bit_size, supports_chunk_bit_size,
};
use ark_std::rand::RngCore;
use vstd::arithmetic::div_mod::{lemma_add_mod_noop, lemma_small_mod};
use vstd::prelude::*;

verus! {

/// Used to decrypt: the scalar `rho`.
#[derive(Clone, Copy, Debug, PartialEq, Eq)]
pub struct SecretKey(pub Scalar);

/// Used to encrypt, to rerandomize and to verify the encryption.
#[allow(non_snake_case)]
#[derive(Clone, Debug, PartialEq, Eq)]
pub struct EncryptionKey {
    /// `delta * G`
    pub X_0: G1Point,
    /// `delta * s_i * G`
    pub X: Vec<G1Point>,
    /// `t_{i+1} * G_i`
    pub Y: Vec<G1Point>,
    /// `t_i * H`
    pub Z: Vec<G2Point>,
    /// `delta * (t_0 + s_0 * t_1 + ... + s_{n-1} * t_n) * G`
    pub P_1: G1Point,
    /// `-gamma * (1 + s_0 + ... + s_{n-1}) * G`
    pub P_2: G1Point,
}

/// Used to decrypt and to verify the decryption.
#[allow(non_snake_case)]
#[derive(Clone, Debug, PartialEq, Eq)]
pub struct DecryptionKey {
    /// `rho * H`
    pub V_0: G2Point,
    /// `s_i * v_i * H`
    pub V_1: Vec<G2Point>,
    /// `rho * v_i * H`
    pub V_2: Vec<G2Point>,
}

/// `s[0] * t[1] + ... + s[n-1] * t[n]`.
pub open spec fn shifted_dot(s: Seq<nat>, t: Seq<nat>, n: nat) -> nat
    decreases n,
{
    if n == 0 {
        0
    } else {
        shifted_dot(s, t, (n - 1) as nat) + s[n - 1] * t[n as int]
    }
}

/// `s[0] + ... + s[n-1]`.
pub open spec fn prefix_sum(s: Seq<nat>, n: nat) -> nat
    decreases n,
{
    if n == 0 {
        0
    } else {
        prefix_sum(s, (n - 1) as nat) + s[n - 1]
    }
}

/// The scalar that `P_1` is of `delta * G`.
pub open spec fn p1_scalar(s: Seq<nat>, t: Seq<nat>) -> nat {
    (t[0] + shifted_dot(s, t, s.len())) % modulus()
}

/// The scalar that `P_2` is of `-gamma * G`.
pub open spec fn p2_scalar(s: Seq<nat>) -> nat {
    (1 + prefix_sum(s, s.len())) % modulus()
}

/// Whether `ek` is the encryption key that the scalars `s` and `t` give with
/// the generator `h` of G2, the bases `g_i`, `delta_g = delta * G` and
/// `gamma_g = gamma * G`.
pub open spec fn is_encryption_key_of(
    ek: EncryptionKey,
    s: Seq<nat>,
    t: Seq<nat>,
    h: Seq<u8>,
    g_i: Seq<Seq<u8>>,
    delta_g: Seq<u8>,
    gamma_g: Seq<u8>,
) -> bool {
    &&& ek.X_0@ == delta_g
    &&& ek.X.len() == s.len()
    &&& forall|i: int| 0 <= i < s.len() ==> (#[trigger] ek.X[i])@ == g1_scaled(delta_g, s[i])
    &&& ek.Y.len() == s.len()
    &&& forall|i: int|
        0 <= i < s.len() ==> (#[trigger] ek.Y[i])@ == g1_scaled(g_i[i], t[i + 1])
    &&& ek.Z.len() == s.len() + 1
    &&& forall|i: int| 0 <= i <= s.len() ==> (#[trigger] ek.Z[i])@ == g2_scaled(h, t[i])
    &&& ek.P_1@ == g1_scaled(delta_g, p1_scalar(s, t))
    &&& ek.P_2@ == g1_negated(g1_scaled(gamma_g, p2_scalar(s)))
}

/// Whether `dk` is the decryption key that the scalars `rho`, `s` and `v`
/// give with the generator `h` of G2.
pub open spec fn is_decryption_key_of(
    dk: DecryptionKey,
    rho: nat,
    s: Seq<nat>,
    v: Seq<nat>,
    h: Seq<u8>,
) -> bool {
    &&& dk.V_0@ == g2_scaled(h, rho)
    &&& dk.V_1.len() == s.len()
    &&& forall|i: int|
        0 <= i < s.len() ==> (#[trigger] dk.V_1[i])@ == g2_scaled(
            h,
            (s[i] * v[i]) % modulus(),
        )
    &&& dk.V_2.len() == s.len()
    &&& forall|i: int|
        0 <= i < s.len() ==> (#[trigger] dk.V_2[i])@ == g2_scaled(g2_scaled(h, rho), v[i])
}

/// Whether the three keys are those that the scalars `rho`, `s`, `t` and `v`
/// give.
pub open spec fn are_keys_of(
    keys: (SecretKey, EncryptionKey, DecryptionKey),
    rho: nat,
    s: Seq<nat>,
    t: Seq<nat>,
    v: Seq<nat>,
    h: Seq<u8>,
    g_i: Seq<Seq<u8>>,
    delta_g: Seq<u8>,
    gamma_g: Seq<u8>,
) -> bool {
    &&& s.len() == v.len()
    &&& t.len() == s.len() + 1
    &&& keys.0.0@ == rho
    &&& is_encryption_key_of(keys.1, s, t, h, g_i, delta_g, gamma_g)
    &&& is_decryption_key_of(keys.2, rho, s, v, h)
}

impl EncryptionKey {
    /// Whether the vectors of the key have the lengths that belong together:
    /// `X` and `Y` one element for each chunk, `Z` one more.
    pub open spec fn is_well_formed(&self) -> bool {
        self.Y.len() == self.X.len() && self.Z.len() == self.X.len() + 1
    }

    /// The length that `Z` must have: one more than `X`. Where that is more
    /// than any length can be, the greatest length stands for it.
    pub open spec fn expected_z_len(&self) -> usize {
        if self.X.len() < usize::MAX {
            (self.X.len() + 1) as usize
        } else {
            usize::MAX
        }
    }

    /// What the check of the key's vectors gives: nothing where the key is
    /// well formed, else the length of the first vector that does not fit,
    /// `Y` before `Z`, and the length that it must have: that of `X` for
    /// `Y`, one more for `Z`.
    pub open spec fn validate_spec(&self) -> Result<(), Error> {
        if self.Y.len() != self.X.len() {
            Err(Error::MalformedEncryptionKey(self.Y.len(), self.X.len()))
        } else if self.Z.len() != self.X.len() + 1 {
            Err(Error::MalformedEncryptionKey(self.Z.len(), self.expected_z_len()))
        } else {
            Ok(())
        }
    }

    /// The number of chunks that the key encrypts, which is the length of
    /// `X`, cut to a byte, or what is wrong with the key's vectors.
    pub fn supported_chunks_count(&self) -> (r: Result<u8, Error>)
        ensures
            match self.validate_spec() {
                Ok(_) => r == Ok::<u8, Error>((self.X.len() % 256) as u8),
                Err(e) => r == Err::<u8, Error>(e),
            },
            self.Y.len() == self.X.len() && self.Z.len() != self.X.len() + 1 && self.X.len()
                < usize::MAX ==> r == Err::<u8, Error>(
                Error::MalformedEncryptionKey(self.Z.len(), (self.X.len() + 1) as usize),
            ),
    {
        let n = self.X.len();
        if self.Y.len() != n {
            return Err(Error::MalformedEncryptionKey(self.Y.len(), n));
        }
        let expected: usize = if n < usize::MAX {
            n + 1
        } else {
            usize::MAX
        };
        if n == usize::MAX || self.Z.len() != expected {
            return Err(Error::MalformedEncryptionKey(self.Z.len(), expected));
        }
        Ok((n % 256) as u8)
    }

    /// Checks the lengths of the key's vectors.
    pub fn validate(&self) -> (r: Result<(), Error>)
        ensures
            r == self.validate_spec(),
            r.is_ok() == self.is_well_formed(),
    {
        match self.supported_chunks_count() {
            Ok(_) => Ok(()),
            Err(e) => Err(e),
        }
    }

    /// The bases of the commitment that a ciphertext carries: `Y`, then
    /// `P_1`.
    pub open spec fn commitment_key_spec(&self) -> Seq<Seq<u8>> {
        g1_views(self.Y@).push(self.P_1@)
    }

    /// The bases of the commitment that a ciphertext carries: `Y`, then
    /// `P_1`. The chunks of the message and then the randomness of the
    /// encryption are its witnesses.
    pub fn commitment_key(&self) -> (r: Vec<G1Point>)
        ensures
            r.len() == self.Y.len() + 1,
            g1_views(r@) == self.commitment_key_spec(),
    {
        let mut key: Vec<G1Point> = Vec::new();
        let mut i: usize = 0;
        while i < self.Y.len()
            invariant
                i <= self.Y.len(),
                key.len() == i,
                forall|k: int| 0 <= k < i ==> (#[trigger] key[k])@ == self.Y[k]@,
            decreases self.Y.len() - i,
        {
            key.push(self.Y[i]);
            i += 1;
        }
        key.push(self.P_1);
        assert(g1_views(key@) =~= self.commitment_key_spec());
        key
    }
}

impl DecryptionKey {
    /// Whether the vectors of the key have the same length.
    pub open spec fn is_well_formed(&self) -> bool {
        self.V_2.len() == self.V_1.len()
    }

    /// What the check of the key's vectors gives: nothing where the key is
    /// well formed, else the lengths of `V_2` and of `V_1`.
    pub open spec fn validate_spec(&self) -> Result<(), Error> {
        if self.V_2.len() != self.V_1.len() {
            Err(Error::MalformedDecryptionKey(self.V_2.len(), self.V_1.len()))
        } else {
            Ok(())
        }
    }

    /// The number of chunks that the key decrypts, which is the length of
    /// `V_1`, cut to a byte, or what is wrong with the key's vectors.
    pub fn supported_chunks_count(&self) -> (r: Result<u8, Error>)
        ensures
            match self.validate_spec() {
                Ok(_) => r == Ok::<u8, Error>((self.V_1.len() % 256) as u8),
                Err(e) => r == Err::<u8, Error>(e),
            },
    {
        let n = self.V_1.len();
        if self.V_2.len() != n {
            return Err(Error::MalformedDecryptionKey(self.V_2.len(), n));
        }
        Ok((n % 256) as u8)
    }

    /// Checks the lengths of the key's vectors.
    pub fn validate(&self) -> (r: Result<(), Error>)
        ensures
            r == self.validate_spec(),
            r.is_ok() == self.is_well_formed(),
    {
        match self.supported_chunks_count() {
            Ok(_) => Ok(()),
            Err(e) => Err(e),
        }
    }
}

/// `count` scalars sampled from `rng`.
fn random_scalars<R: RngCore>(rng: &mut R, count: usize) -> (r: Vec<Scalar>)
    ensures
        r.len() == count,
{
    let mut out: Vec<Scalar> = Vec::new();
    while out.len() < count
        invariant
            out.len() <= count,
        decreases count - out.len(),
    {
        out.push(fr_rand(rng));
    }
    out
}

/// `(t[0] + s[0] * t[1] + ... + s[n-1] * t[n])`, reduced.
fn p1_scalar_of(s: &Vec<Scalar>, t: &Vec<Scalar>) -> (r: Scalar)
    requires
        t.len() == s.len() + 1,
    ensures
        r@ == p1_scalar(scalar_views(s@), scalar_views(t@)),
{
    let ghost sv = scalar_views(s@);
    let ghost tv = scalar_views(t@);
    let mut acc = t[0];
    proof {
        use_type_invariant(&acc);
        lemma_small_mod(acc@, modulus());
    }
    let mut j: usize = 0;
    while j < s.len()
        invariant
            j <= s.len(),
            t.len() == s.len() + 1,
            sv == scalar_views(s@),
            tv == scalar_views(t@),
            acc@ == (tv[0] + shifted_dot(sv, tv, j as nat)) % modulus(),
        decreases s.len() - j,
    {
        let term = s[j].mul(&t[j + 1]);
        let next = acc.add(&term);
        proof {
            let m = modulus() as int;
            let a = (tv[0] + shifted_dot(sv, tv, j as nat)) as int;
            let b = (sv[j as int] * tv[j + 1]) as int;
            lemma_add_mod_noop(a, b, m);
            lemma_small_mod(acc@, modulus());
            lemma_small_mod(term@, modulus());
            assert(shifted_dot(sv, tv, (j + 1) as nat) == shifted_dot(sv, tv, j as nat) + b);
        }
        acc = next;
        j += 1;
    }
    acc
}

/// `(1 + s[0] + ... + s[n-1])`, reduced.
fn p2_scalar_of(s: &Vec<Scalar>) -> (r: Scalar)
    ensures
        r@ == p2_scalar(scalar_views(s@)),
{
    let ghost sv = scalar_views(s@);
    let mut acc = Scalar::one();
    proof {
        lemma_small_mod(1, modulus());
    }
    let mut j: usize = 0;
    while j < s.len()
        invariant
            j <= s.len(),
            sv == scalar_views(s@),
            acc@ == (1 + prefix_sum(sv, j as nat)) % modulus(),
        decreases s.len() - j,
    {
        let term = s[j];
        let next = acc.add(&term);
        proof {
            use_type_invariant(&term);
            let m = modulus() as int;
            let a = (1 + prefix_sum(sv, j as nat)) as int;
            let b = sv[j as int] as int;
            lemma_add_mod_noop(a, b, m);
            lemma_small_mod(acc@, modulus());
            lemma_small_mod(term@, modulus());
            assert(prefix_sum(sv, (j + 1) as nat) == prefix_sum(sv, j as nat) + b);
        }
        acc = next;
        j += 1;
    }
    acc
}

/// The products `s[i] * v[i]`, reduced.
fn pointwise_products(s: &Vec<Scalar>, v: &Vec<Scalar>) -> (r: Vec<Scalar>)
    requires
        s.len() == v.len(),
    ensures
        r.len() == s.len(),
        forall|i: int| 0 <= i < s.len() ==> (#[trigger] r[i])@ == (s[i]@ * v[i]@) % modulus(),
{
    let mut out: Vec<Scalar> = Vec::new();
    let mut i: usize = 0;
    while i < s.len()
        invariant
            i <= s.len(),
            s.len() == v.len(),
            out.len() == i,
            forall|k: int| 0 <= k < i ==> (#[trigger] out[k])@ == (s[k]@ * v[k]@) % modulus(),
        decreases s.len() - i,
    {
        out.push(s[i].mul(&v[i]));
        i += 1;
    }
    out
}

/// The keys that the scalars `rho`, `s`, `t` and `v` give.
///
/// `g_i` are bases shared with a SNARK's parameters, of which the first
/// `s.len()` are used; `delta_g` and `gamma_g` are `delta * G` and
/// `gamma * G` of the same parameters. The scalars `delta` and `gamma`
/// themselves are never needed.
#[allow(non_snake_case)]
pub fn keygen_with_scalars(
    rho: Scalar,
    s: &Vec<Scalar>,
    t: &Vec<Scalar>,
    v: &Vec<Scalar>,
    gens: &EncryptionGens,
    g_i: &[G1Point],
    delta_g: &G1Point,
    gamma_g: &G1Point,
) -> (keys: (SecretKey, EncryptionKey, DecryptionKey))
    requires
        s.len() == v.len(),
        t.len() == s.len() + 1,
        g_i.len() >= s.len(),
    ensures
        are_keys_of(
            keys,
            rho@,
            scalar_views(s@),
            scalar_views(t@),
            scalar_views(v@),
            gens.H@,
            g1_views(g_i@),
            delta_g@,
            gamma_g@,
        ),
        keys.1.is_well_formed(),
        keys.2.is_well_formed(),
{
    let n = s.len();
    let X = g1_mul_many(delta_g, s);
    let mut Y: Vec<G1Point> = Vec::new();
    let mut i: usize = 0;
    while i < n
        invariant
            i <= n,
            n == s.len(),
            t.len() == n + 1,
            g_i.len() >= n,
            Y.len() == i,
            forall|k: int| 0 <= k < i ==> (#[trigger] Y[k])@ == g1_scaled(g_i[k]@, t[k + 1]@),
        decreases n - i,
    {
        Y.push(g1_mul(&g_i[i], &t[i + 1]));
        i += 1;
    }
    let Z = g2_mul_many(&gens.H, t);
    let P_1 = g1_mul(delta_g, &p1_scalar_of(s, t));
    let P_2 = g1_neg(&g1_mul(gamma_g, &p2_scalar_of(s)));
    let ek = EncryptionKey { X_0: *delta_g, X, Y, Z, P_1, P_2 };
    let V_0 = g2_mul(&gens.H, &rho);
    let V_2 = g2_mul_many(&V_0, v);
    let V_1 = g2_mul_many(&gens.H, &pointwise_products(s, v));
    let dk = DecryptionKey { V_0, V_1, V_2 };
    (SecretKey(rho), ek, dk)
}

/// Generates the keys for encryption and decryption.
///
/// `g_i` are bases shared with a SNARK's parameters, one for each chunk at
/// least; `delta_g` and `gamma_g` are `delta * G` and `gamma * G` of the same
/// parameters. The secret scalars are sampled from `rng`: `rho`, then one
/// `s_i` for each chunk, then the `t_i`, one more than chunks, then one `v_i`
/// for each chunk. Nothing is sampled where the inputs are rejected, so the
/// generator is then as it was.
pub fn keygen<R: RngCore>(
    rng: &mut R,
    chunk_bit_size: u8,
    gens: &EncryptionGens,
    g_i: &[G1Point],
    delta_g: &G1Point,
    gamma_g: &G1Point,
) -> (r: Result<(SecretKey, EncryptionKey, DecryptionKey), Error>)
    ensures
        !is_supported_chunk_bit_size(chunk_bit_size) ==> r == Err::<
            (SecretKey, EncryptionKey, DecryptionKey),
            Error,
        >(Error::InvalidChunkBitSize(chunk_bit_size)),
        is_supported_chunk_bit_size(chunk_bit_size) && g_i.len() < chunks_count_spec(
            chunk_bit_size,
        ) ==> r == Err::<(SecretKey, EncryptionKey, DecryptionKey), Error>(
            Error::VectorShorterThanExpected(
                g_i.len(),
                chunks_count_spec(chunk_bit_size) as usize,
            ),
        ),
        is_supported_chunk_bit_size(chunk_bit_size) && g_i.len() >= chunks_count_spec(
            chunk_bit_size,
        ) ==> r.is_ok(),
        r.is_err() ==> *final(rng) == *old(rng),
        r matches Ok(keys) ==> {
            &&& keys.1.X.len() == chunks_count_spec(chunk_bit_size)
            &&& keys.1.is_well_formed()
            &&& keys.2.V_1.len() == chunks_count_spec(chunk_bit_size)
            &&& keys.2.is_well_formed()
            &&& exists|rho: nat, s: Seq<nat>, t: Seq<nat>, v: Seq<nat>|
                #[trigger] are_keys_of(
                    keys,
                    rho,
                    s,
                    t,
                    v,
                    gens.H@,
                    g1_views(g_i@),
                    delta_g@,
                    gamma_g@,
                )
        },
{
    if !supports_chunk_bit_size(chunk_bit_size) {
        return Err(Error::InvalidChunkBitSize(chunk_bit_size));
    }
    let n: usize = chunks_count(chunk_bit_size) as usize;
    if n > g_i.len() {
        return Err(Error::VectorShorterThanExpected(g_i.len(), n));
    }
    let rho = fr_rand(rng);
    let s = random_scalars(rng, n);
    let t = random_scalars(rng, n + 1);
    let v = random_scalars(rng, n);
    let keys = keygen_with_scalars(rho, &s, &t, &v, gens, g_i, delta_g, gamma_g);
    Ok(keys)
}

} // verus!
