use ark_bls12_381::{Bls12_381, Fr, G1Affine, G2Affine};
use ark_ec::{AffineCurve, PairingEngine, ProjectiveCurve};
use ark_ff::{BigInteger, Field, One, PrimeField, Zero};
use ark_groth16::{
    create_random_proof, generate_parameters, prepare_verifying_key, PreparedVerifyingKey, Proof,
    ProvingKey,
};
use ark_relations::r1cs::{
    ConstraintSynthesizer, ConstraintSystemRef, LinearCombination, SynthesisError, Variable,
};
use ark_serialize::{CanonicalDeserialize, CanonicalSerialize};
use ark_std::rand::prelude::StdRng;
use ark_std::rand::SeedableRng;
use ark_std::UniformRand;
use saver::encryption::{encrypt, Ciphertext};
use saver::group::{G1Point, G2Point};
use saver::keygen::{keygen, EncryptionKey};
use saver::scalar::Scalar;
use saver::setup::EncryptionGens;
use saver::utils::{chunks_count, decompose};

fn g1_point(p: &G1Affine) -> G1Point {
    let mut bytes = Vec::new();
    p.serialize(&mut bytes).unwrap();
    G1Point::from_compressed(&bytes).unwrap()
}

fn ark_g1(p: &G1Point) -> G1Affine {
    G1Affine::deserialize_unchecked(&p.to_bytes()[..]).unwrap()
}

fn ark_g2(p: &G2Point) -> G2Affine {
    G2Affine::deserialize_unchecked(&p.to_bytes()[..]).unwrap()
}

fn scalar(x: &Fr) -> Scalar {
    Scalar::from_limbs(x.into_repr().0).unwrap()
}

fn ark_scalar(x: &Scalar) -> Fr {
    Fr::from_repr(ark_ff::BigInteger256(x.limbs())).unwrap()
}

/// Each public input fits in `bits` bits.
#[derive(Clone)]
struct BitsizeCircuit {
    bits: usize,
    count: usize,
    values: Option<Vec<Fr>>,
}

impl ConstraintSynthesizer<Fr> for BitsizeCircuit {
    fn generate_constraints(self, cs: ConstraintSystemRef<Fr>) -> Result<(), SynthesisError> {
        for i in 0..self.count {
            let value = self.values.as_ref().map(|v| v[i]);
            let input =
                cs.new_input_variable(|| value.ok_or(SynthesisError::AssignmentMissing))?;
            let mut sum: LinearCombination<Fr> = LinearCombination::zero();
            let mut weight = Fr::one();
            for j in 0..self.bits {
                let bit = value.map(|v| v.into_repr().get_bit(j));
                let bit_var = cs.new_witness_variable(|| {
                    bit.map(|b| if b { Fr::one() } else { Fr::zero() })
                        .ok_or(SynthesisError::AssignmentMissing)
                })?;
                cs.enforce_constraint(
                    LinearCombination::zero() + bit_var,
                    LinearCombination::zero() + Variable::One - bit_var,
                    LinearCombination::zero(),
                )?;
                sum = sum + (weight, bit_var);
                weight.double_in_place();
            }
            cs.enforce_constraint(
                sum,
                LinearCombination::zero() + Variable::One,
                LinearCombination::zero() + input,
            )?;
        }
        Ok(())
    }
}

fn prove(
    circuit: BitsizeCircuit,
    r: &Scalar,
    pk: &ProvingKey<Bls12_381>,
    ek: &EncryptionKey,
    rng: &mut StdRng,
) -> Result<Proof<Bls12_381>, SynthesisError> {
    let mut proof = create_random_proof(circuit, pk, rng)?;
    let shift = ark_g1(&ek.P_2).mul(ark_scalar(r).into_repr());
    proof.c = (proof.c.into_projective() + shift).into_affine();
    Ok(proof)
}

fn verify(pvk: &PreparedVerifyingKey<Bls12_381>, proof: &Proof<Bls12_381>, ct: &Ciphertext) -> bool {
    let mut d = pvk.vk.gamma_abc_g1[0].into_projective();
    d.add_assign_mixed(&ark_g1(&ct.X_r));
    for c in ct.enc_chunks.iter() {
        d.add_assign_mixed(&ark_g1(c));
    }
    let qap = Bls12_381::miller_loop(
        [
            (proof.a.into(), proof.b.into()),
            (d.into_affine().into(), pvk.gamma_g2_neg_pc.clone()),
            (proof.c.into(), pvk.delta_g2_neg_pc.clone()),
        ]
        .iter(),
    );
    Bls12_381::final_exponentiation(&qap).unwrap() == pvk.alpha_g1_beta_g2
}

fn check_with_snark(chunk_bit_size: u8, seed: u64) {
    let mut rng = StdRng::seed_from_u64(seed);
    let n = chunks_count(chunk_bit_size) as usize;
    let gens = EncryptionGens::new_using_rng(&mut rng);

    // The setup of the SNARK for the circuit, over the generators of the scheme.
    let circuit = BitsizeCircuit { bits: chunk_bit_size as usize, count: n, values: None };
    let alpha = Fr::rand(&mut rng);
    let beta = Fr::rand(&mut rng);
    let gamma = Fr::rand(&mut rng);
    let delta = Fr::rand(&mut rng);
    let g1 = ark_g1(&gens.G);
    let pk = generate_parameters::<Bls12_381, _, _>(
        circuit,
        alpha,
        beta,
        gamma,
        delta,
        g1.into_projective(),
        ark_g2(&gens.H).into_projective(),
        &mut rng,
    )
    .unwrap();
    assert_eq!(pk.vk.gamma_abc_g1.len(), n + 1);
    let g_i = pk.vk.gamma_abc_g1[1..].iter().map(g1_point).collect::<Vec<_>>();
    let delta_g = g1_point(&pk.delta_g1);
    let gamma_g = g1_point(&g1.mul(gamma.into_repr()).into_affine());
    assert_eq!(delta_g, gens.G.mul(&scalar(&delta)));

    let (sk, ek, dk) = keygen(&mut rng, chunk_bit_size, &gens, &g_i, &delta_g, &gamma_g).unwrap();
    assert_eq!(ek.supported_chunks_count().unwrap(), n as u8);

    // The prover encrypts and proves.
    let message = scalar(&Fr::rand(&mut rng));
    let (ct, r) = encrypt(&mut rng, &message, &ek, &g_i, chunk_bit_size).unwrap();
    let chunks = decompose(&message, chunk_bit_size)
        .unwrap()
        .into_iter()
        .map(|m| Fr::from(m as u64))
        .collect::<Vec<_>>();
    let circuit = BitsizeCircuit { bits: chunk_bit_size as usize, count: n, values: Some(chunks) };
    let proof = prove(circuit.clone(), &r, &pk, &ek, &mut rng).unwrap();

    // The verifier checks the ciphertext and the proof against it.
    ct.verify_commitment(&ek, &gens).unwrap();
    let pvk = prepare_verifying_key::<Bls12_381>(&pk.vk);
    assert!(verify(&pvk, &proof, &ct));

    // A proof that does not carry the randomness of the ciphertext fails,
    // and so does the proof against another ciphertext.
    let plain = create_random_proof(circuit.clone(), &pk, &mut rng).unwrap();
    assert!(!verify(&pvk, &plain, &ct));
    let (other, _) = encrypt(&mut rng, &message, &ek, &g_i, chunk_bit_size).unwrap();
    assert!(!verify(&pvk, &proof, &other));
    let mut bad = ct.clone();
    bad.enc_chunks[0] = bad.enc_chunks[0].add(&gens.G);
    assert!(!verify(&pvk, &proof, &bad));

    // The decryptor decrypts, and the decryption can be checked.
    let (decrypted, nu) = ct.decrypt(&sk, &dk, &g_i, chunk_bit_size).unwrap();
    assert_eq!(decrypted, message);
    ct.verify_decryption(&decrypted, &nu, chunk_bit_size, &dk, &g_i, &gens).unwrap();
}

#[test]
fn verifiably_encrypt_message_with_4_bit_chunks() {
    check_with_snark(4, 0);
}

#[test]
fn verifiably_encrypt_message_with_8_bit_chunks() {
    check_with_snark(8, 0);
}
