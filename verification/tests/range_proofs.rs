use rand::rngs::StdRng;
use rand::{RngCore, SeedableRng};

use transaction_core::errors::RangeProofError;
use transaction_core::range_proofs::{check_range_proofs, generate_range_proofs};

fn random_blindings(rng: &mut StdRng, n: usize) -> Vec<Vec<u8>> {
    (0..n)
        .map(|_| {
            let mut b = vec![0u8; 32];
            rng.fill_bytes(&mut b);
            b
        })
        .collect()
}

fn generate_and_check(vals: Vec<u64>, blindings: Vec<Vec<u8>>) {
    let mut rng: StdRng = SeedableRng::from_seed([1u8; 32]);
    let (proof, commitments) = generate_range_proofs(&vals, &blindings, &mut rng).unwrap();

    match check_range_proofs(&proof, &commitments, &mut rng) {
        Ok(_) => {} // This is expected.
        Err(e) => panic!("{:?}", e),
    }
}

#[test]
fn test_pow2_number_of_inputs() {
    let mut rng: StdRng = SeedableRng::from_seed([1u8; 32]);
    let vals: Vec<u64> = (0..2).map(|_| rng.next_u64()).collect();
    let blindings = random_blindings(&mut rng, vals.len());
    generate_and_check(vals, blindings);
}

#[test]
fn test_not_pow2_number_of_inputs() {
    let mut rng: StdRng = SeedableRng::from_seed([1u8; 32]);
    let vals: Vec<u64> = (0..9).map(|_| rng.next_u64()).collect();
    let blindings = random_blindings(&mut rng, vals.len());
    generate_and_check(vals, blindings);
}

// `check_range_proofs` should return an error if the commitments do not agree
// with the proof.
#[test]
fn test_wrong_commitments() {
    let mut rng: StdRng = SeedableRng::from_seed([1u8; 32]);

    let num_values: usize = 4;
    let values: Vec<u64> = (0..num_values).map(|_| rng.next_u64()).collect();
    let blindings = random_blindings(&mut rng, num_values);
    let (proof, _commitments) = generate_range_proofs(&values, &blindings, &mut rng).unwrap();

    // Create commitments that do not agree with the proof: each commits to an
    // unrelated value under the same blinding.
    let gen = bulletproofs::PedersenGens::default();
    let wrong_commitments: Vec<Vec<u8>> = blindings
        .iter()
        .map(|blinding| {
            let mut b = [0u8; 32];
            b.copy_from_slice(blinding);
            let blind_scalar = curve25519_dalek_ng::scalar::Scalar::from_bytes_mod_order(b);
            let scalar_val =
                curve25519_dalek_ng::scalar::Scalar::from_bytes_mod_order([77u8; 32]);
            let commitment_point = gen.commit(scalar_val, blind_scalar);
            commitment_point.compress().to_bytes().to_vec()
        })
        .collect();

    match check_range_proofs(&proof, &wrong_commitments, &mut rng) {
        Ok(_) => panic!(),
        Err(_e) => {} // This is expected.
    }
}

// The commitments are a function of the values and blindings alone: two
// proving runs with different randomness agree on them, and a different
// value yields a different commitment.
#[test]
fn test_commitments_deterministic() {
    let mut rng_a: StdRng = SeedableRng::from_seed([7u8; 32]);
    let mut rng_b: StdRng = SeedableRng::from_seed([9u8; 32]);
    let mut rng_c: StdRng = SeedableRng::from_seed([11u8; 32]);

    let vals: Vec<u64> = vec![123, 456, 789];
    let blindings: Vec<Vec<u8>> = (1..=3u8).map(|k| vec![k; 32]).collect();

    let (_, commitments_a) = generate_range_proofs(&vals, &blindings, &mut rng_a).unwrap();
    let (_, commitments_b) = generate_range_proofs(&vals, &blindings, &mut rng_b).unwrap();
    assert_eq!(commitments_a, commitments_b);

    let other_vals: Vec<u64> = vec![124, 456, 789];
    let (_, commitments_c) = generate_range_proofs(&other_vals, &blindings, &mut rng_c).unwrap();
    assert_ne!(commitments_a[0], commitments_c[0]);
    assert_eq!(commitments_a[1], commitments_c[1]);
}

// A batch wider than the configured aggregation cap is rejected, not
// crashed on.
#[test]
fn test_aggregation_cap() {
    let mut rng: StdRng = SeedableRng::from_seed([1u8; 32]);
    let commitments: Vec<Vec<u8>> = (0..65).map(|_| vec![0u8; 32]).collect();
    let proof: Vec<u8> = vec![0u8; 32];
    assert_eq!(
        check_range_proofs(&proof, &commitments, &mut rng),
        Err(RangeProofError::VerificationFailure)
    );
}

// A commitment of the wrong size is a malformed point encoding: rejected,
// not crashed on.
#[test]
fn test_malformed_commitment_rejected() {
    let mut rng: StdRng = SeedableRng::from_seed([1u8; 32]);
    let vals: Vec<u64> = vec![5, 6];
    let blindings: Vec<Vec<u8>> = vec![vec![1u8; 32], vec![2u8; 32]];
    let (proof, mut commitments) = generate_range_proofs(&vals, &blindings, &mut rng).unwrap();
    commitments[1] = vec![0u8; 31];
    assert_eq!(
        check_range_proofs(&proof, &commitments, &mut rng),
        Err(RangeProofError::VerificationFailure)
    );
}
