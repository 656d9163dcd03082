use ark_bls12_381::{Fr, G1Affine, G1Projective};
use ark_ec::ProjectiveCurve;
use ark_ff::PrimeField;
use ark_serialize::CanonicalSerialize;
use ark_std::rand::prelude::StdRng;
use ark_std::rand::SeedableRng;
use ark_std::UniformRand;
use saver::encryption::{encrypt, encrypt_chunks, Ciphertext};
use saver::error::Error;
use saver::group::G1Point;
use saver::keygen::{keygen, DecryptionKey, EncryptionKey, SecretKey};
use saver::scalar::Scalar;
use saver::setup::EncryptionGens;
use saver::utils::{chunks_count, decompose};

fn g1_point(p: &G1Affine) -> G1Point {
    let mut bytes = Vec::new();
    p.serialize(&mut bytes).unwrap();
    G1Point::from_compressed(&bytes).unwrap()
}

fn scalar(x: &Fr) -> Scalar {
    Scalar::from_limbs(x.into_repr().0).unwrap()
}

struct Setup {
    gens: EncryptionGens,
    g_i: Vec<G1Point>,
    sk: SecretKey,
    ek: EncryptionKey,
    dk: DecryptionKey,
}

fn setup(rng: &mut StdRng, chunk_bit_size: u8) -> Setup {
    let n = chunks_count(chunk_bit_size) as usize;
    let gens = EncryptionGens::new_using_rng(rng);
    let g_i = (0..n)
        .map(|_| g1_point(&G1Projective::rand(rng).into_affine()))
        .collect::<Vec<_>>();
    let g_delta = gens.G.mul(&scalar(&Fr::rand(rng)));
    let g_gamma = gens.G.mul(&scalar(&Fr::rand(rng)));
    let (sk, ek, dk) = keygen(rng, chunk_bit_size, &gens, &g_i, &g_delta, &g_gamma).unwrap();
    Setup { gens, g_i, sk, ek, dk }
}

fn check_chain(chunk_bit_size: u8, seed: u64) {
    let mut rng = StdRng::seed_from_u64(seed);
    let s = setup(&mut rng, chunk_bit_size);
    let message = scalar(&Fr::rand(&mut rng));
    let (ct, r) = encrypt(&mut rng, &message, &s.ek, &s.g_i, chunk_bit_size).unwrap();
    assert_eq!(ct.enc_chunks.len(), chunks_count(chunk_bit_size) as usize);
    assert_eq!(ct.X_r, s.ek.X_0.mul(&r));
    ct.verify_commitment(&s.ek, &s.gens).unwrap();
    let (decrypted, nu) = ct.decrypt(&s.sk, &s.dk, &s.g_i, chunk_bit_size).unwrap();
    assert_eq!(decrypted, message);
    assert_eq!(nu, ct.X_r.mul(&s.sk.0));
    assert_eq!(nu, s.ek.X_0.mul(&r).mul(&s.sk.0));
    ct.verify_decryption(&decrypted, &nu, chunk_bit_size, &s.dk, &s.g_i, &s.gens)
        .unwrap();
}

#[test]
fn chain_with_4_bit_chunks() {
    check_chain(4, 0);
}

#[test]
fn chain_with_8_bit_chunks() {
    check_chain(8, 0);
}

#[test]
fn chain_with_2_bit_chunks() {
    check_chain(2, 7);
}

#[test]
fn chain_with_1_bit_chunks() {
    check_chain(1, 8);
}

#[test]
fn decrypt_to_chunks_gives_the_chunks_of_the_message() {
    let mut rng = StdRng::seed_from_u64(9u64);
    let s = setup(&mut rng, 8);
    let message = scalar(&Fr::rand(&mut rng));
    let (ct, _) = encrypt(&mut rng, &message, &s.ek, &s.g_i, 8).unwrap();
    let (chunks, nu) = ct.decrypt_to_chunks(&s.sk, &s.dk, &s.g_i, 8).unwrap();
    assert_eq!(chunks, decompose(&message, 8).unwrap());
    assert_eq!(ct.decrypt(&s.sk, &s.dk, &s.g_i, 8).unwrap(), (message, nu));
}

#[test]
fn chain_with_edge_messages() {
    let mut rng = StdRng::seed_from_u64(11u64);
    let s = setup(&mut rng, 8);
    let largest = Scalar::from_limbs([
        0xffffffff00000000,
        0x53bda402fffe5bfe,
        0x3339d80809a1d805,
        0x73eda753299d7d48,
    ])
    .unwrap();
    for message in [Scalar::zero(), Scalar::one(), Scalar::from_u64(255), largest] {
        let (ct, _) = encrypt(&mut rng, &message, &s.ek, &s.g_i, 8).unwrap();
        ct.verify_commitment(&s.ek, &s.gens).unwrap();
        let (decrypted, nu) = ct.decrypt(&s.sk, &s.dk, &s.g_i, 8).unwrap();
        assert_eq!(decrypted, message);
        ct.verify_decryption(&decrypted, &nu, 8, &s.dk, &s.g_i, &s.gens).unwrap();
    }
}

#[test]
fn encryptions_of_one_message_differ_and_decrypt_alike() {
    let mut rng = StdRng::seed_from_u64(12u64);
    let s = setup(&mut rng, 8);
    let message = scalar(&Fr::rand(&mut rng));
    let (ct_1, r_1) = encrypt(&mut rng, &message, &s.ek, &s.g_i, 8).unwrap();
    let (ct_2, r_2) = encrypt(&mut rng, &message, &s.ek, &s.g_i, 8).unwrap();
    assert_ne!(r_1, r_2);
    assert_ne!(ct_1, ct_2);
    assert_ne!(ct_1.X_r, ct_2.X_r);
    assert_ne!(ct_1.commitment, ct_2.commitment);
    assert_eq!(ct_1.decrypt(&s.sk, &s.dk, &s.g_i, 8).unwrap().0, message);
    assert_eq!(ct_2.decrypt(&s.sk, &s.dk, &s.g_i, 8).unwrap().0, message);
}

#[test]
fn three_messages_under_one_key() {
    let mut rng = StdRng::seed_from_u64(13u64);
    let s = setup(&mut rng, 8);
    for _ in 0..3 {
        let message = scalar(&Fr::rand(&mut rng));
        let (ct, _) = encrypt(&mut rng, &message, &s.ek, &s.g_i, 8).unwrap();
        ct.verify_commitment(&s.ek, &s.gens).unwrap();
        let (decrypted, nu) = ct.decrypt(&s.sk, &s.dk, &s.g_i, 8).unwrap();
        assert_eq!(decrypted, message);
        ct.verify_decryption(&decrypted, &nu, 8, &s.dk, &s.g_i, &s.gens).unwrap();
    }
}

#[test]
fn encrypt_chunks_is_fixed_by_its_randomness() {
    let mut rng = StdRng::seed_from_u64(14u64);
    let s = setup(&mut rng, 8);
    let message = scalar(&Fr::rand(&mut rng));
    let chunks = decompose(&message, 8).unwrap();
    let r = scalar(&Fr::rand(&mut rng));
    let ct = encrypt_chunks(&chunks, &r, &s.ek, &s.g_i).unwrap();
    assert_eq!(ct, encrypt_chunks(&chunks, &r, &s.ek, &s.g_i).unwrap());
    assert_eq!(ct.X_r, s.ek.X_0.mul(&r));
    let mut commitment = s.ek.Y[0].mul(&Scalar::from_u64(chunks[0] as u64));
    for i in 0..chunks.len() {
        let m = Scalar::from_u64(chunks[i] as u64);
        assert_eq!(ct.enc_chunks[i], s.ek.X[i].mul(&r).add(&s.g_i[i].mul(&m)));
        if i > 0 {
            commitment = commitment.add(&s.ek.Y[i].mul(&m));
        }
    }
    commitment = commitment.add(&s.ek.P_1.mul(&r));
    assert_eq!(ct.commitment, commitment);
}

#[test]
fn corrupted_chunk_fails_commitment_check() {
    let mut rng = StdRng::seed_from_u64(15u64);
    let s = setup(&mut rng, 8);
    let message = scalar(&Fr::rand(&mut rng));
    let (ct, _) = encrypt(&mut rng, &message, &s.ek, &s.g_i, 8).unwrap();
    let mut bad = ct.clone();
    bad.enc_chunks[0] = bad.enc_chunks[0].add(&s.gens.G);
    assert_eq!(
        bad.verify_commitment(&s.ek, &s.gens),
        Err(Error::InvalidCiphertextVerification)
    );
    let mut bad = ct.clone();
    bad.X_r = bad.X_r.add(&s.gens.G);
    assert_eq!(
        bad.verify_commitment(&s.ek, &s.gens),
        Err(Error::InvalidCiphertextVerification)
    );
    let mut bad = ct.clone();
    bad.commitment = bad.commitment.add(&s.gens.G);
    assert_eq!(
        bad.verify_commitment(&s.ek, &s.gens),
        Err(Error::InvalidCiphertextVerification)
    );
    let mut bad = ct.clone();
    let last = bad.enc_chunks.len() - 1;
    bad.enc_chunks[last] = bad.enc_chunks[last].neg();
    assert_eq!(
        bad.verify_commitment(&s.ek, &s.gens),
        Err(Error::InvalidCiphertextVerification)
    );
    ct.verify_commitment(&s.ek, &s.gens).unwrap();
}

#[test]
fn changed_message_fails_decryption_check() {
    let mut rng = StdRng::seed_from_u64(16u64);
    let s = setup(&mut rng, 8);
    let message = scalar(&Fr::rand(&mut rng));
    let (ct, _) = encrypt(&mut rng, &message, &s.ek, &s.g_i, 8).unwrap();
    let (decrypted, nu) = ct.decrypt(&s.sk, &s.dk, &s.g_i, 8).unwrap();
    let mut limbs = decrypted.limbs();
    limbs[0] ^= 1;
    let flipped = Scalar::from_limbs(limbs).unwrap();
    assert_eq!(
        ct.verify_decryption(&flipped, &nu, 8, &s.dk, &s.g_i, &s.gens),
        Err(Error::InvalidDecryptionVerification)
    );
    let mut limbs = decrypted.limbs();
    limbs[2] ^= 1 << 17;
    let flipped = Scalar::from_limbs(limbs).unwrap();
    assert_eq!(
        ct.verify_decryption(&flipped, &nu, 8, &s.dk, &s.g_i, &s.gens),
        Err(Error::InvalidDecryptionVerification)
    );
    assert_eq!(
        ct.verify_decryption(&decrypted, &nu.add(&s.gens.G), 8, &s.dk, &s.g_i, &s.gens),
        Err(Error::InvalidDecryptionVerification)
    );
    assert_eq!(
        ct.verify_decryption(&decrypted, &ct.X_r, 8, &s.dk, &s.g_i, &s.gens),
        Err(Error::InvalidDecryptionVerification)
    );
    ct.verify_decryption(&decrypted, &nu, 8, &s.dk, &s.g_i, &s.gens).unwrap();
}

#[test]
fn decryption_with_another_key_finds_no_chunk() {
    let mut rng = StdRng::seed_from_u64(17u64);
    let s = setup(&mut rng, 4);
    let message = scalar(&Fr::rand(&mut rng));
    let (ct, _) = encrypt(&mut rng, &message, &s.ek, &s.g_i, 4).unwrap();
    let wrong = SecretKey(s.sk.0.add(&Scalar::one()));
    assert_eq!(
        ct.decrypt(&wrong, &s.dk, &s.g_i, 4),
        Err(Error::CouldNotFindDiscreteLog(0))
    );
    let mut bad = ct.clone();
    bad.enc_chunks[5] = bad.enc_chunks[5].add(&s.gens.G);
    assert_eq!(
        bad.decrypt_to_chunks(&s.sk, &s.dk, &s.g_i, 4),
        Err(Error::CouldNotFindDiscreteLog(5))
    );
}

#[test]
fn chunk_above_the_chunk_size_is_not_found() {
    let mut rng = StdRng::seed_from_u64(18u64);
    let s = setup(&mut rng, 4);
    let mut chunks = vec![3u16; 64];
    chunks[9] = 16;
    let r = scalar(&Fr::rand(&mut rng));
    let ct = encrypt_chunks(&chunks, &r, &s.ek, &s.g_i).unwrap();
    ct.verify_commitment(&s.ek, &s.gens).unwrap();
    assert_eq!(
        ct.decrypt_to_chunks(&s.sk, &s.dk, &s.g_i, 4),
        Err(Error::CouldNotFindDiscreteLog(9))
    );
    chunks[9] = 15;
    let ct = encrypt_chunks(&chunks, &r, &s.ek, &s.g_i).unwrap();
    assert_eq!(ct.decrypt_to_chunks(&s.sk, &s.dk, &s.g_i, 4).unwrap().0, chunks);
}

#[test]
fn encrypt_rejects_bad_inputs() {
    let mut rng = StdRng::seed_from_u64(19u64);
    let s = setup(&mut rng, 8);
    let message = scalar(&Fr::rand(&mut rng));
    assert_eq!(
        encrypt(&mut rng, &message, &s.ek, &s.g_i, 3),
        Err(Error::InvalidChunkBitSize(3))
    );
    assert_eq!(
        encrypt(&mut rng, &message, &s.ek, &s.g_i, 4),
        Err(Error::MessageNotInChunks)
    );
    assert_eq!(
        encrypt(&mut rng, &message, &s.ek, &s.g_i[..31], 8),
        Err(Error::VectorShorterThanExpected(31, 32))
    );
    let mut ek = s.ek.clone();
    ek.Y.pop();
    assert_eq!(
        encrypt(&mut rng, &message, &ek, &s.g_i, 8),
        Err(Error::MalformedEncryptionKey(31, 32))
    );
    let mut ek = s.ek.clone();
    ek.Z.pop();
    assert_eq!(
        encrypt(&mut rng, &message, &ek, &s.g_i, 8),
        Err(Error::MalformedEncryptionKey(32, 33))
    );
    let r = Scalar::from_u64(9);
    assert_eq!(
        encrypt_chunks(&[1u16; 31], &r, &s.ek, &s.g_i),
        Err(Error::MessageNotInChunks)
    );
}

#[test]
fn checks_reject_bad_shapes() {
    let mut rng = StdRng::seed_from_u64(20u64);
    let s = setup(&mut rng, 8);
    let message = scalar(&Fr::rand(&mut rng));
    let (ct, _) = encrypt(&mut rng, &message, &s.ek, &s.g_i, 8).unwrap();
    let (_, nu) = ct.decrypt(&s.sk, &s.dk, &s.g_i, 8).unwrap();

    let mut short = ct.clone();
    short.enc_chunks.pop();
    assert_eq!(short.verify_commitment(&s.ek, &s.gens), Err(Error::MessageNotInChunks));
    assert_eq!(short.decrypt(&s.sk, &s.dk, &s.g_i, 8), Err(Error::MessageNotInChunks));
    assert_eq!(
        short.verify_decryption(&message, &nu, 8, &s.dk, &s.g_i, &s.gens),
        Err(Error::MessageNotInChunks)
    );
    let mut ek = s.ek.clone();
    ek.Z.push(s.gens.H);
    assert_eq!(
        ct.verify_commitment(&ek, &s.gens),
        Err(Error::MalformedEncryptionKey(34, 33))
    );

    assert_eq!(ct.decrypt(&s.sk, &s.dk, &s.g_i, 0), Err(Error::InvalidChunkBitSize(0)));
    assert_eq!(ct.decrypt(&s.sk, &s.dk, &s.g_i, 4), Err(Error::MessageNotInChunks));
    assert_eq!(
        ct.decrypt(&s.sk, &s.dk, &s.g_i[..10], 8),
        Err(Error::VectorShorterThanExpected(10, 32))
    );
    let mut dk = s.dk.clone();
    dk.V_2.pop();
    assert_eq!(
        ct.decrypt(&s.sk, &dk, &s.g_i, 8),
        Err(Error::MalformedDecryptionKey(31, 32))
    );
    dk.V_1.pop();
    assert_eq!(
        ct.decrypt(&s.sk, &dk, &s.g_i, 8),
        Err(Error::MalformedDecryptionKey(31, 32))
    );
    assert_eq!(
        ct.verify_decryption(&message, &nu, 8, &dk, &s.g_i, &s.gens),
        Err(Error::MalformedDecryptionKey(31, 32))
    );
    assert_eq!(
        ct.verify_decryption(&message, &nu, 5, &s.dk, &s.g_i, &s.gens),
        Err(Error::InvalidChunkBitSize(5))
    );
    let _: &Ciphertext = &ct;
}

#[test]
fn rejected_encryption_leaves_the_generator_as_it_was() {
    let mut rng = StdRng::seed_from_u64(21u64);
    let s = setup(&mut rng, 8);
    let message = scalar(&Fr::rand(&mut rng));
    let mut untouched = rng.clone();
    assert_eq!(
        encrypt(&mut rng, &message, &s.ek, &s.g_i, 3),
        Err(Error::InvalidChunkBitSize(3))
    );
    assert_eq!(
        encrypt(&mut rng, &message, &s.ek, &s.g_i, 4),
        Err(Error::MessageNotInChunks)
    );
    assert_eq!(
        encrypt(&mut rng, &message, &s.ek, &s.g_i[..31], 8),
        Err(Error::VectorShorterThanExpected(31, 32))
    );
    let mut ek = s.ek.clone();
    ek.Z.pop();
    assert_eq!(
        encrypt(&mut rng, &message, &ek, &s.g_i, 8),
        Err(Error::MalformedEncryptionKey(32, 33))
    );
    assert_eq!(Fr::rand(&mut rng), Fr::rand(&mut untouched));
}
