//! Aggregated 64-bit range proofs over Pedersen commitments.
//!
//! `generate_range_proofs` proves that every value in a batch lies in
//! [0, 2^64) without revealing it; `check_range_proofs` verifies such a
//! proof against a list of commitments. Both pad their batch to the next
//! power of two by repeating the last element, so a padded slot is
//! indistinguishable from a genuine duplicate, and both bind the proof to a
//! fixed domain-separation label so it cannot be replayed into an unrelated
//! protocol context.

use vstd::prelude::*;

use bulletproofs::{BulletproofGens, PedersenGens, RangeProof};
use curve25519_dalek_ng::ristretto::CompressedRistretto;
use curve25519_dalek_ng::scalar::Scalar;
use merlin::Transcript;
use rand_core::{CryptoRng, RngCore};

use crate::errors::RangeProofError;
use crate::padding::{next_pow2, resize_slice_to_pow2};

verus! {

/// The widest commitment batch the verifier accepts, after padding: a
/// configured power-of-two cap on aggregation width.
pub const MAX_AGGREGATION_SIZE: usize = 64;

/// The number of bits of the proven range [0, 2^64).
pub const RANGE_PROOF_BITS: usize = 64;

/// The compressed Pedersen commitment to `value` under the blinding factor
/// whose canonical 32-byte encoding is `blinding`, over the fixed
/// process-wide generators. The curve arithmetic behind it is not restated
/// here; the name stands for the 32-byte result, a function of `value` and
/// `blinding` alone.
pub uninterp spec fn pedersen_commitment(value: u64, blinding: Seq<u8>) -> Seq<u8>;

/// Relies on bulletproofs' `RangeProof::prove_multiple_with_rng`: on success
/// it returns an aggregated `n_bits`-bit range proof for `values` together
/// with one compressed 32-byte Pedersen commitment per value, each computed
/// by `PedersenGens::commit` from the value and its blinding alone (see
/// `Party::new` in bulletproofs). The proof bytes depend on the caller's
/// randomness, so nothing is stated of them. Blinding bytes are interpreted
/// by `Scalar::from_bytes_mod_order`. The transcript is bound to the fixed
/// domain-separation label.
#[verifier::external_body]
fn bp_prove<R: RngCore + CryptoRng>(
    values: &Vec<u64>,
    blindings: &Vec<Vec<u8>>,
    n_bits: usize,
    rng: &mut R,
) -> (r: Result<(Vec<u8>, Vec<Vec<u8>>), RangeProofError>)
    requires
        values@.len() == blindings@.len(),
        forall|i: int| 0 <= i < blindings@.len() ==> (#[trigger] blindings@[i])@.len() == 32,
    ensures
        match r {
            Ok(pc) => {
                &&& pc.1@.len() == values@.len()
                &&& forall|i: int|
                    0 <= i < values@.len() ==> (#[trigger] pc.1@[i])@ == pedersen_commitment(
                        values@[i],
                        blindings@[i]@,
                    )
                &&& forall|i: int| 0 <= i < values@.len() ==> (#[trigger] pc.1@[i])@.len() == 32
            },
            Err(e) => e == RangeProofError::ProofGenerationFailure,
        },
{
    let scalars: Vec<Scalar> = blindings.iter().map(
        |b| Scalar::from_bytes_mod_order(b.as_slice().try_into().unwrap()),
    ).collect();
    let r = RangeProof::prove_multiple_with_rng(
        &BulletproofGens::new(n_bits, values.len()), &PedersenGens::default(),
        &mut Transcript::new(b"range_proof"), values.as_slice(), &scalars, n_bits, rng,
    );
    match r {
        Ok((p, cs)) => Ok((p.to_bytes(), cs.iter().map(|c| c.to_bytes().to_vec()).collect())),
        Err(_) => Err(RangeProofError::ProofGenerationFailure),
    }
}

/// Relies on bulletproofs' `RangeProof::verify_multiple_with_rng` (with
/// `RangeProof::from_bytes` and `CompressedRistretto::from_slice` decoding
/// the arguments): it accepts only a proof that attests, for the same fixed
/// domain-separation label and generators, that every committed value lies
/// in [0, 2^64). A proof that does not parse, a commitment that does not
/// decompress, and a tampered batch are all reported as errors, never
/// crashed on; every failure is mapped to `VerificationFailure`.
#[verifier::external_body]
fn bp_verify<R: RngCore + CryptoRng>(
    proof_bytes: &Vec<u8>,
    commitments: &Vec<Vec<u8>>,
    n_bits: usize,
    rng: &mut R,
) -> (r: Result<(), RangeProofError>)
    requires
        forall|i: int| 0 <= i < commitments@.len() ==> (#[trigger] commitments@[i])@.len() == 32,
    ensures
        r matches Err(e) ==> e == RangeProofError::VerificationFailure,
{
    let proof = match RangeProof::from_bytes(proof_bytes.as_slice()) {
        Ok(p) => p,
        Err(_) => return Err(RangeProofError::VerificationFailure),
    };
    let points: Vec<CompressedRistretto> = commitments.iter().map(
        |c| CompressedRistretto::from_slice(c.as_slice()),
    ).collect();
    proof.verify_multiple_with_rng(
        &BulletproofGens::new(n_bits, points.len()), &PedersenGens::default(),
        &mut Transcript::new(b"range_proof"), &points, n_bits, rng,
    ).map_err(|_| RangeProofError::VerificationFailure)
}

/// Pad a batch of 32-byte strings to the next power-of-two length by
/// repeating the last entry.
fn pad_byte_rows_to_pow2(rows: &Vec<Vec<u8>>) -> (r: Result<Vec<Vec<u8>>, RangeProofError>)
    requires
        rows@.len() >= 1,
    ensures
        match r {
            Ok(v) => {
                &&& v@.len() == next_pow2(rows@.len() as nat)
                &&& (forall|i: int| 0 <= i < rows@.len() ==> (#[trigger] v@[i])@ == rows@[i]@)
                &&& (forall|i: int|
                    rows@.len() <= i < v@.len() ==> (#[trigger] v@[i])@ == rows@[rows@.len()
                        - 1]@)
            },
            Err(e) => {
                &&& e == RangeProofError::PaddingOverflow
                &&& next_pow2(rows@.len() as nat) > usize::MAX
            },
        },
{
    let mut indices: Vec<usize> = Vec::new();
    let mut i: usize = 0;
    while i < rows.len()
        invariant
            i <= rows@.len(),
            indices@.len() == i,
            forall|k: int| 0 <= k < i ==> indices@[k] == k,
        decreases rows@.len() - i,
    {
        indices.push(i);
        i = i + 1;
    }
    let padded_indices = match resize_slice_to_pow2(&indices) {
        Ok(p) => p,
        Err(e) => {
            return Err(e);
        },
    };
    let mut v: Vec<Vec<u8>> = Vec::new();
    let mut j: usize = 0;
    while j < padded_indices.len()
        invariant
            j <= padded_indices@.len(),
            v@.len() == j,
            rows@.len() >= 1,
            indices@.len() == rows@.len(),
            forall|k: int| 0 <= k < indices@.len() ==> indices@[k] == k,
            padded_indices@.len() == next_pow2(rows@.len() as nat),
            forall|k: int| 0 <= k < rows@.len() ==> padded_indices@[k] == indices@[k],
            forall|k: int|
                rows@.len() <= k < padded_indices@.len() ==> padded_indices@[k] == indices@[
                    indices@.len() - 1],
            forall|k: int| 0 <= k < padded_indices@.len() ==> padded_indices@[k] < rows@.len(),
            forall|k: int| 0 <= k < j ==> (#[trigger] v@[k])@ == rows@[padded_indices@[k] as int]@,
        decreases padded_indices@.len() - j,
    {
        let row = &rows[padded_indices[j]];
        let mut copy: Vec<u8> = Vec::new();
        let mut b: usize = 0;
        while b < row.len()
            invariant
                b <= row@.len(),
                copy@ == row@.subrange(0, b as int),
            decreases row@.len() - b,
        {
            copy.push(row[b]);
            b = b + 1;
        }
        assert(copy@ == row@);
        v.push(copy);
        j = j + 1;
    }
    proof {
        crate::padding::lemma_next_pow2_bounds(rows@.len() as nat);
        assert forall|k: int| 0 <= k < rows@.len() implies (#[trigger] v@[k])@ == rows@[k]@ by {
            assert(padded_indices@[k] == indices@[k]);
        }
        assert forall|k: int| rows@.len() <= k < v@.len() implies (#[trigger] v@[k])@ == rows@[
            rows@.len() - 1]@ by {
            assert(padded_indices@[k] == indices@[indices@.len() - 1]);
        }
    }
    Ok(v)
}

/// Create an aggregated 64-bit range proof for a batch of secret values.
///
/// Both `values` and `blindings` are padded to the same power-of-two length,
/// each by repeating its own last element, so a padded value stays paired
/// with its padded blinding. On success the returned commitment list holds
/// one compressed Pedersen commitment per *padded* value; only the first
/// `values.len()` are semantically meaningful to the caller.
pub fn generate_range_proofs<R: RngCore + CryptoRng>(
    values: &Vec<u64>,
    blindings: &Vec<Vec<u8>>,
    rng: &mut R,
) -> (r: Result<(Vec<u8>, Vec<Vec<u8>>), RangeProofError>)
    requires
        values@.len() == blindings@.len(),
        values@.len() >= 1,
        forall|i: int| 0 <= i < blindings@.len() ==> (#[trigger] blindings@[i])@.len() == 32,
    ensures
        match r {
            Ok(pc) => {
                &&& pc.1@.len() == next_pow2(values@.len() as nat)
                &&& (forall|i: int|
                    0 <= i < values@.len() ==> (#[trigger] pc.1@[i])@ == pedersen_commitment(
                        values@[i],
                        blindings@[i]@,
                    ))
                &&& (forall|i: int|
                    values@.len() <= i < pc.1@.len() ==> (#[trigger] pc.1@[i])@
                        == pedersen_commitment(
                        values@[values@.len() - 1],
                        blindings@[blindings@.len() - 1]@,
                    ))
                &&& (forall|i: int| 0 <= i < pc.1@.len() ==> (#[trigger] pc.1@[i])@.len() == 32)
            },
            Err(e) => {
                &&& (e == RangeProofError::PaddingOverflow || e
                    == RangeProofError::ProofGenerationFailure)
                &&& (e == RangeProofError::PaddingOverflow ==> next_pow2(values@.len() as nat)
                    > usize::MAX)
            },
        },
{
    let values_padded = match resize_slice_to_pow2(values) {
        Ok(v) => v,
        Err(e) => {
            return Err(e);
        },
    };
    let blindings_padded = match pad_byte_rows_to_pow2(blindings) {
        Ok(v) => v,
        Err(e) => {
            return Err(e);
        },
    };
    let r = bp_prove(&values_padded, &blindings_padded, RANGE_PROOF_BITS, rng);
    proof {
        let n = values@.len() as int;
        let m = values_padded@.len() as int;
        crate::padding::lemma_next_pow2_bounds(values@.len() as nat);
        if let Ok(pc) = &r {
            assert forall|i: int| 0 <= i < n implies (#[trigger] pc.1@[i])@
                == pedersen_commitment(values@[i], blindings@[i]@) by {
                assert(pc.1@[i]@ == pedersen_commitment(values_padded@[i], blindings_padded@[i]@));
                assert(values_padded@[i] == values@[i]);
                assert(blindings_padded@[i]@ == blindings@[i]@);
            }
            assert forall|i: int| n <= i < m implies (#[trigger] pc.1@[i])@
                == pedersen_commitment(values@[n - 1], blindings@[n - 1]@) by {
                assert(pc.1@[i]@ == pedersen_commitment(values_padded@[i], blindings_padded@[i]@));
                assert(values_padded@[i] == values@[n - 1]);
                assert(blindings_padded@[i]@ == blindings@[n - 1]@);
            }
        }
    }
    r
}

/// Verify an aggregated 64-bit range proof against a commitment list.
///
/// The commitments are padded to the next power of two by repeating the last
/// one — exactly how `generate_range_proofs` padded its batch — and the
/// padded length must stay within `MAX_AGGREGATION_SIZE`. A malformed proof,
/// a commitment of the wrong size or one that is not a valid point encoding,
/// and a proof that does not attest exactly this padded commitment vector
/// are all reported as `VerificationFailure`, never crashed on.
pub fn check_range_proofs<R: RngCore + CryptoRng>(
    range_proof: &Vec<u8>,
    commitments: &Vec<Vec<u8>>,
    rng: &mut R,
) -> (r: Result<(), RangeProofError>)
    requires
        commitments@.len() >= 1,
    ensures
        r matches Err(e) ==> (e == RangeProofError::VerificationFailure || (e
            == RangeProofError::PaddingOverflow && next_pow2(commitments@.len() as nat)
            > usize::MAX)),
        r matches Ok(u) ==> next_pow2(commitments@.len() as nat) <= MAX_AGGREGATION_SIZE as nat,
        (exists|i: int|
            0 <= i < commitments@.len() && (#[trigger] commitments@[i])@.len() != 32) ==> r
            == Err::<(), RangeProofError>(RangeProofError::VerificationFailure),
{
    let mut i: usize = 0;
    while i < commitments.len()
        invariant
            i <= commitments@.len(),
            forall|k: int| 0 <= k < i ==> (#[trigger] commitments@[k])@.len() == 32,
        decreases commitments@.len() - i,
    {
        if commitments[i].len() != 32 {
            return Err(RangeProofError::VerificationFailure);
        }
        i = i + 1;
    }
    let resized_commitments = match pad_byte_rows_to_pow2(commitments) {
        Ok(v) => v,
        Err(e) => {
            return Err(e);
        },
    };
    if resized_commitments.len() > MAX_AGGREGATION_SIZE {
        return Err(RangeProofError::VerificationFailure);
    }
    bp_verify(range_proof, &resized_commitments, RANGE_PROOF_BITS, rng)
}

} // verus!
