use ark_bls12_381::{Fr, G1Affine, G1Projective};
use ark_ec::ProjectiveCurve;
use ark_ff::PrimeField;
use ark_serialize::CanonicalSerialize;
use ark_std::rand::prelude::StdRng;
use ark_std::rand::SeedableRng;
use ark_std::UniformRand;
use saver::group::G1Point;
use saver::error::Error;
use saver::keygen::{keygen, keygen_with_scalars, DecryptionKey, EncryptionKey};
use saver::scalar::Scalar;
use saver::setup::{get_gs_for_encryption, EncryptionGens};
use saver::utils::chunks_count;

fn g1_point(p: &G1Affine) -> G1Point {
    let mut bytes = Vec::new();
    p.serialize(&mut bytes).unwrap();
    G1Point::from_compressed(&bytes).unwrap()
}

fn scalar(x: &Fr) -> Scalar {
    Scalar::from_limbs(x.into_repr().0).unwrap()
}

#[test]
fn keygen_works() {
    fn check_keygen(chunk_bit_size: u8) {
        let mut rng = StdRng::seed_from_u64(0u64);
        let n = chunks_count(chunk_bit_size) as usize;
        let gens = EncryptionGens::new_using_rng(&mut rng);
        let g_i = (0..n)
            .map(|_| g1_point(&G1Projective::rand(&mut rng).into_affine()))
            .collect::<Vec<_>>();
        let delta = Fr::rand(&mut rng);
        let gamma = Fr::rand(&mut rng);
        let g_delta = gens.G.mul(&scalar(&delta));
        let g_gamma = gens.G.mul(&scalar(&gamma));
        let (_, ek, dk) =
            keygen(&mut rng, chunk_bit_size, &gens, &g_i, &g_delta, &g_gamma).unwrap();
        assert_eq!(ek.X.len(), n);
        assert_eq!(ek.Y.len(), n);
        assert_eq!(ek.Z.len(), n + 1);
        assert_eq!(dk.V_1.len(), n);
        assert_eq!(dk.V_2.len(), n);
        assert_eq!(ek.supported_chunks_count().unwrap(), n as u8);
        assert_eq!(dk.supported_chunks_count().unwrap(), n as u8);
    }

    check_keygen(4);
    check_keygen(8);
}

#[test]
fn keygen_rejects_too_few_bases() {
    let mut rng = StdRng::seed_from_u64(1u64);
    let gens = EncryptionGens::new_using_rng(&mut rng);
    let g_i = (0..31)
        .map(|_| g1_point(&G1Projective::rand(&mut rng).into_affine()))
        .collect::<Vec<_>>();
    let g_delta = gens.G.mul(&Scalar::from_u64(3));
    let g_gamma = gens.G.mul(&Scalar::from_u64(5));
    assert_eq!(
        keygen(&mut rng, 8, &gens, &g_i, &g_delta, &g_gamma),
        Err(Error::VectorShorterThanExpected(31, 32))
    );
    assert_eq!(
        keygen(&mut rng, 4, &gens, &g_i, &g_delta, &g_gamma),
        Err(Error::VectorShorterThanExpected(31, 64))
    );
    assert_eq!(
        keygen(&mut rng, 8, &gens, &[], &g_delta, &g_gamma),
        Err(Error::VectorShorterThanExpected(0, 32))
    );
    assert!(keygen(&mut rng, 16, &gens, &g_i, &g_delta, &g_gamma).is_ok());
}

#[test]
fn keygen_rejects_unsupported_chunk_sizes() {
    let mut rng = StdRng::seed_from_u64(2u64);
    let gens = EncryptionGens::new_using_rng(&mut rng);
    let g_i = vec![gens.G; 255];
    for b in [0u8, 3, 5, 6, 7, 9, 32, 255] {
        assert_eq!(
            keygen(&mut rng, b, &gens, &g_i, &gens.G, &gens.G),
            Err(Error::InvalidChunkBitSize(b))
        );
    }
}

#[test]
fn keygen_takes_more_bases_than_chunks() {
    let mut rng = StdRng::seed_from_u64(3u64);
    let gens = EncryptionGens::new_using_rng(&mut rng);
    let g_i = (0..20)
        .map(|_| g1_point(&G1Projective::rand(&mut rng).into_affine()))
        .collect::<Vec<_>>();
    let (_, ek, dk) = keygen(&mut rng, 16, &gens, &g_i, &gens.G, &gens.G).unwrap();
    assert_eq!(ek.X.len(), 16);
    assert_eq!(ek.Y.len(), 16);
    assert_eq!(ek.Z.len(), 17);
    assert_eq!(dk.V_1.len(), 16);
    assert_eq!(dk.V_2.len(), 16);
    assert_eq!(ek.validate(), Ok(()));
    assert_eq!(dk.validate(), Ok(()));
    assert_eq!(ek.commitment_key().len(), 17);
    assert_eq!(ek.commitment_key()[16], ek.P_1);
    assert_eq!(&ek.commitment_key()[..16], &ek.Y[..]);
}

#[test]
fn keygen_samples_its_scalars_in_order() {
    let gens = EncryptionGens::new_using_rng(&mut StdRng::seed_from_u64(4u64));
    let g_i = vec![gens.G; 32];
    let g_delta = gens.G.mul(&Scalar::from_u64(3));
    let g_gamma = gens.G.mul(&Scalar::from_u64(5));
    let mut rng = StdRng::seed_from_u64(5u64);
    let keys = keygen(&mut rng, 8, &gens, &g_i, &g_delta, &g_gamma).unwrap();
    let mut rng = StdRng::seed_from_u64(5u64);
    let rho = scalar(&Fr::rand(&mut rng));
    let s = (0..32).map(|_| scalar(&Fr::rand(&mut rng))).collect::<Vec<_>>();
    let t = (0..33).map(|_| scalar(&Fr::rand(&mut rng))).collect::<Vec<_>>();
    let v = (0..32).map(|_| scalar(&Fr::rand(&mut rng))).collect::<Vec<_>>();
    let expected = keygen_with_scalars(rho, &s, &t, &v, &gens, &g_i, &g_delta, &g_gamma);
    assert_eq!(keys, expected);
    assert_eq!(keys.0 .0, rho);
}

#[test]
fn keys_are_what_their_scalars_give() {
    let mut rng = StdRng::seed_from_u64(6u64);
    let gens = EncryptionGens::new_using_rng(&mut rng);
    let n = 4;
    let g_i = (0..n + 1)
        .map(|_| g1_point(&G1Projective::rand(&mut rng).into_affine()))
        .collect::<Vec<_>>();
    let delta_g = gens.G.mul(&scalar(&Fr::rand(&mut rng)));
    let gamma_g = gens.G.mul(&scalar(&Fr::rand(&mut rng)));
    let rho = Fr::rand(&mut rng);
    let s = (0..n).map(|_| Fr::rand(&mut rng)).collect::<Vec<_>>();
    let t = (0..n + 1).map(|_| Fr::rand(&mut rng)).collect::<Vec<_>>();
    let v = (0..n).map(|_| Fr::rand(&mut rng)).collect::<Vec<_>>();
    let to_scalars = |x: &[Fr]| x.iter().map(scalar).collect::<Vec<_>>();
    let (sk, ek, dk) = keygen_with_scalars(
        scalar(&rho),
        &to_scalars(&s),
        &to_scalars(&t),
        &to_scalars(&v),
        &gens,
        &g_i,
        &delta_g,
        &gamma_g,
    );
    assert_eq!(sk.0, scalar(&rho));
    assert_eq!(ek.X_0, delta_g);
    assert_eq!(ek.X.len(), n);
    assert_eq!(ek.Y.len(), n);
    assert_eq!(ek.Z.len(), n + 1);
    assert_eq!(dk.V_1.len(), n);
    assert_eq!(dk.V_2.len(), n);
    let mut p_1 = t[0];
    let mut p_2 = Fr::from(1u64);
    for i in 0..n {
        assert_eq!(ek.X[i], delta_g.mul(&scalar(&s[i])));
        assert_eq!(ek.Y[i], g_i[i].mul(&scalar(&t[i + 1])));
        assert_eq!(dk.V_1[i], gens.H.mul(&scalar(&(s[i] * v[i]))));
        assert_eq!(dk.V_2[i], gens.H.mul(&scalar(&(rho * v[i]))));
        assert_eq!(dk.V_2[i], dk.V_0.mul(&scalar(&v[i])));
        p_1 += s[i] * t[i + 1];
        p_2 += s[i];
    }
    for i in 0..n + 1 {
        assert_eq!(ek.Z[i], gens.H.mul(&scalar(&t[i])));
    }
    assert_eq!(dk.V_0, gens.H.mul(&scalar(&rho)));
    assert_eq!(ek.P_1, delta_g.mul(&scalar(&p_1)));
    assert_eq!(ek.P_2, gamma_g.mul(&scalar(&p_2)).neg());
    assert_eq!(ek.P_2, gamma_g.mul(&scalar(&(-p_2))));
}

#[test]
fn keygen_with_no_chunks_gives_empty_vectors() {
    let mut rng = StdRng::seed_from_u64(7u64);
    let gens = EncryptionGens::new_using_rng(&mut rng);
    let t = vec![Scalar::from_u64(11)];
    let (_, ek, dk) =
        keygen_with_scalars(Scalar::from_u64(2), &vec![], &t, &vec![], &gens, &[], &gens.G, &gens.G);
    assert!(ek.X.is_empty() && ek.Y.is_empty() && dk.V_1.is_empty() && dk.V_2.is_empty());
    assert_eq!(ek.Z, vec![gens.H.mul(&Scalar::from_u64(11))]);
    assert_eq!(ek.P_1, gens.G.mul(&Scalar::from_u64(11)));
    assert_eq!(ek.P_2, gens.G.neg());
    assert_eq!(ek.supported_chunks_count(), Ok(0));
}

fn key_of_lengths(x: usize, y: usize, z: usize) -> EncryptionKey {
    let gens = EncryptionGens::new_using_rng(&mut StdRng::seed_from_u64(8u64));
    EncryptionKey {
        X_0: gens.G,
        X: vec![gens.G; x],
        Y: vec![gens.G; y],
        Z: vec![gens.H; z],
        P_1: gens.G,
        P_2: gens.G,
    }
}

#[test]
fn encryption_key_validation() {
    assert_eq!(key_of_lengths(3, 3, 4).supported_chunks_count(), Ok(3));
    assert_eq!(key_of_lengths(3, 3, 4).validate(), Ok(()));
    assert_eq!(key_of_lengths(0, 0, 1).supported_chunks_count(), Ok(0));
    assert_eq!(
        key_of_lengths(3, 2, 4).supported_chunks_count(),
        Err(Error::MalformedEncryptionKey(2, 3))
    );
    assert_eq!(key_of_lengths(3, 4, 4).validate(), Err(Error::MalformedEncryptionKey(4, 3)));
    assert_eq!(
        key_of_lengths(3, 3, 3).supported_chunks_count(),
        Err(Error::MalformedEncryptionKey(3, 4))
    );
    assert_eq!(key_of_lengths(3, 3, 5).validate(), Err(Error::MalformedEncryptionKey(5, 4)));
    assert_eq!(key_of_lengths(0, 0, 0).validate(), Err(Error::MalformedEncryptionKey(0, 1)));
    assert_eq!(
        key_of_lengths(2, 2, 2).supported_chunks_count(),
        Err(Error::MalformedEncryptionKey(2, 3))
    );
    // `Y` is looked at before `Z`.
    assert_eq!(key_of_lengths(3, 1, 9).validate(), Err(Error::MalformedEncryptionKey(1, 3)));
    assert_eq!(key_of_lengths(255, 255, 256).supported_chunks_count(), Ok(255));
    assert_eq!(key_of_lengths(256, 256, 257).supported_chunks_count(), Ok(0));
    assert_eq!(key_of_lengths(300, 300, 301).supported_chunks_count(), Ok(44));
}

#[test]
fn decryption_key_validation() {
    let gens = EncryptionGens::new_using_rng(&mut StdRng::seed_from_u64(9u64));
    let key = |a: usize, b: usize| DecryptionKey {
        V_0: gens.H,
        V_1: vec![gens.H; a],
        V_2: vec![gens.H; b],
    };
    assert_eq!(key(3, 3).supported_chunks_count(), Ok(3));
    assert_eq!(key(3, 3).validate(), Ok(()));
    assert_eq!(key(0, 0).supported_chunks_count(), Ok(0));
    assert_eq!(key(3, 2).supported_chunks_count(), Err(Error::MalformedDecryptionKey(2, 3)));
    assert_eq!(key(3, 4).validate(), Err(Error::MalformedDecryptionKey(4, 3)));
    assert_eq!(key(300, 300).supported_chunks_count(), Ok(44));
}

#[test]
fn bases_for_encryption_skip_the_first_element() {
    let mut rng = StdRng::seed_from_u64(10u64);
    let points = (0..5)
        .map(|_| g1_point(&G1Projective::rand(&mut rng).into_affine()))
        .collect::<Vec<_>>();
    assert_eq!(get_gs_for_encryption(&points), &points[1..]);
    assert_eq!(get_gs_for_encryption(&points[..1]), &[]);
    assert_eq!(get_gs_for_encryption(&[]), &[]);
}

#[test]
fn rejected_keygen_leaves_the_generator_as_it_was() {
    let gens = EncryptionGens::new_using_rng(&mut StdRng::seed_from_u64(11u64));
    let g_i = vec![gens.G; 31];
    let mut rng = StdRng::seed_from_u64(12u64);
    let mut untouched = StdRng::seed_from_u64(12u64);
    assert_eq!(
        keygen(&mut rng, 8, &gens, &g_i, &gens.G, &gens.G),
        Err(Error::VectorShorterThanExpected(31, 32))
    );
    assert_eq!(
        keygen(&mut rng, 5, &gens, &g_i, &gens.G, &gens.G),
        Err(Error::InvalidChunkBitSize(5))
    );
    assert_eq!(Fr::rand(&mut rng), Fr::rand(&mut untouched));
}
