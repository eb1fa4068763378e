use rand::rngs::StdRng;
use rand::{RngCore, SeedableRng};

use transaction_core::errors::ConversionError;
use transaction_core::proposal::{assemble, validate, TxOutTemplate};
use transaction_core::range_proofs::check_range_proofs;
use transaction_core::types::{Outlay, Tx, TxOut, TxProposal, UnspentTxOut};

fn random_bytes(rng: &mut StdRng, n: usize) -> Vec<u8> {
    let mut b = vec![0u8; n];
    rng.fill_bytes(&mut b);
    b
}

fn sample_tx_out(rng: &mut StdRng) -> TxOut {
    TxOut {
        amount_commitment: random_bytes(rng, 32),
        target_key: random_bytes(rng, 32),
        public_key: random_bytes(rng, 32),
        e_account_hint: vec![0u8; 128],
    }
}

fn sample_utxo(rng: &mut StdRng, value: u64) -> UnspentTxOut {
    UnspentTxOut {
        tx_out: sample_tx_out(rng),
        subaddress_index: 0,
        key_image: random_bytes(rng, 32),
        value,
        attempted_spend_height: 0,
        attempted_spend_tombstone: 0,
    }
}

fn sample_template(rng: &mut StdRng) -> TxOutTemplate {
    TxOutTemplate {
        target_key: random_bytes(rng, 32),
        public_key: random_bytes(rng, 32),
        e_account_hint: vec![0u8; 128],
    }
}

fn consistent_proposal(rng: &mut StdRng) -> TxProposal {
    TxProposal {
        utxos: vec![sample_utxo(rng, 1000)],
        outlays: vec![Outlay { receiver: random_bytes(rng, 64), value: 990 }],
        tx: Tx {
            fee: 10,
            outputs: vec![sample_tx_out(rng)],
            range_proof: random_bytes(rng, 96),
        },
        fee: 10,
        outlay_index_to_tx_out_index: vec![(0, 0)],
    }
}

#[test]
fn test_validate_accepts_consistent_proposal() {
    let mut rng: StdRng = SeedableRng::from_seed([4u8; 32]);
    let proposal = consistent_proposal(&mut rng);
    assert_eq!(validate(&proposal), Ok(()));
}

// A declared fee one unit away from the transaction's fee is a FeeMismatch.
#[test]
fn test_validate_fee_mismatch() {
    let mut rng: StdRng = SeedableRng::from_seed([5u8; 32]);
    let mut proposal = consistent_proposal(&mut rng);
    proposal.fee = proposal.tx.fee + 1;
    assert_eq!(validate(&proposal), Err(ConversionError::FeeMismatch));
}

// A mapping key equal to the number of outlays is out of bounds.
#[test]
fn test_validate_key_out_of_bounds() {
    let mut rng: StdRng = SeedableRng::from_seed([6u8; 32]);
    let mut proposal = consistent_proposal(&mut rng);
    let n = proposal.outlays.len() as u64;
    proposal.outlay_index_to_tx_out_index = vec![(n, 0)];
    assert_eq!(validate(&proposal), Err(ConversionError::IndexOutOfBounds));
}

// A mapping value beyond the output list is out of bounds.
#[test]
fn test_validate_value_out_of_bounds() {
    let mut rng: StdRng = SeedableRng::from_seed([7u8; 32]);
    let mut proposal = consistent_proposal(&mut rng);
    proposal.outlay_index_to_tx_out_index = vec![(0, 1)];
    assert_eq!(validate(&proposal), Err(ConversionError::IndexOutOfBounds));
}

// A mapping of the wrong length is out of bounds.
#[test]
fn test_validate_wrong_mapping_length() {
    let mut rng: StdRng = SeedableRng::from_seed([8u8; 32]);
    let mut proposal = consistent_proposal(&mut rng);
    proposal.outlay_index_to_tx_out_index = Vec::new();
    assert_eq!(validate(&proposal), Err(ConversionError::IndexOutOfBounds));
}

// A repeated outlay index would map one outlay to two outputs.
#[test]
fn test_validate_duplicate_key() {
    let mut rng: StdRng = SeedableRng::from_seed([9u8; 32]);
    let mut proposal = consistent_proposal(&mut rng);
    proposal.outlays.push(Outlay { receiver: random_bytes(&mut rng, 64), value: 1 });
    proposal.tx.outputs.push(sample_tx_out(&mut rng));
    proposal.outlay_index_to_tx_out_index = vec![(0, 0), (0, 1)];
    assert_eq!(validate(&proposal), Err(ConversionError::IndexOutOfBounds));
}

// One input of value V, one outlay of value V minus the fee: assembling then
// validating succeeds, the mapping holds exactly one entry from outlay 0 to
// an output slot, and that slot's commitment is covered by the embedded
// range proof.
#[test]
fn test_assemble_then_validate() {
    let mut rng: StdRng = SeedableRng::from_seed([10u8; 32]);
    let v: u64 = 1000;
    let fee: u64 = 10;
    let utxos = vec![sample_utxo(&mut rng, v)];
    let outlays = vec![Outlay { receiver: random_bytes(&mut rng, 64), value: v - fee }];
    let templates = vec![sample_template(&mut rng)];

    let proposal = assemble(utxos, outlays, &templates, fee, &mut rng).unwrap();

    assert_eq!(validate(&proposal), Ok(()));
    assert_eq!(proposal.fee, fee);
    assert_eq!(proposal.tx.fee, fee);
    assert_eq!(proposal.outlay_index_to_tx_out_index.len(), 1);
    let (outlay_index, tx_out_index) = proposal.outlay_index_to_tx_out_index[0];
    assert_eq!(outlay_index, 0);

    // The mapped output carries the outlay's commitment: the embedded proof
    // verifies against exactly that commitment.
    let commitment = proposal.tx.outputs[tx_out_index as usize].amount_commitment.clone();
    assert_eq!(
        check_range_proofs(&proposal.tx.range_proof, &vec![commitment], &mut rng),
        Ok(())
    );

    // The templates' key material survives into the output.
    assert_eq!(proposal.tx.outputs[0].target_key, templates[0].target_key);
    assert_eq!(proposal.tx.outputs[0].public_key, templates[0].public_key);
}

// Assembling a two-outlay batch pads the proof batch to a power of two but
// keeps one output per outlay.
#[test]
fn test_assemble_batch_of_three() {
    let mut rng: StdRng = SeedableRng::from_seed([11u8; 32]);
    let utxos = vec![sample_utxo(&mut rng, 5000)];
    let outlays = vec![
        Outlay { receiver: random_bytes(&mut rng, 64), value: 100 },
        Outlay { receiver: random_bytes(&mut rng, 64), value: 200 },
        Outlay { receiver: random_bytes(&mut rng, 64), value: 300 },
    ];
    let templates = vec![
        sample_template(&mut rng),
        sample_template(&mut rng),
        sample_template(&mut rng),
    ];

    let proposal = assemble(utxos, outlays, &templates, 10, &mut rng).unwrap();
    assert_eq!(validate(&proposal), Ok(()));
    assert_eq!(proposal.tx.outputs.len(), 3);
    assert_eq!(
        proposal.outlay_index_to_tx_out_index,
        vec![(0, 0), (1, 1), (2, 2)]
    );

    // The proof covers all three output commitments (re-padded by the
    // verifier to four).
    let commitments: Vec<Vec<u8>> = proposal
        .tx
        .outputs
        .iter()
        .map(|o| o.amount_commitment.clone())
        .collect();
    assert_eq!(
        check_range_proofs(&proposal.tx.range_proof, &commitments, &mut rng),
        Ok(())
    );
}
