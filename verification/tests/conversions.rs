use rand::rngs::StdRng;
use rand::{RngCore, SeedableRng};

use transaction_core::errors::ConversionError;
use transaction_core::types::{Outlay, Tx, TxOut, TxProposal, UnspentTxOut};
use transaction_core::wire::{decode_outlay, decode_tx_proposal, decode_unspent_tx_out,
    encode_outlay, encode_tx_proposal, encode_unspent_tx_out};

fn pedersen_commitment_bytes(value: u64, blinding: u64) -> Vec<u8> {
    let gens = bulletproofs::PedersenGens::default();
    let v = curve25519_dalek_ng::scalar::Scalar::from(value);
    let b = curve25519_dalek_ng::scalar::Scalar::from(blinding);
    gens.commit(v, b).compress().to_bytes().to_vec()
}

fn random_bytes(rng: &mut StdRng, n: usize) -> Vec<u8> {
    let mut b = vec![0u8; n];
    rng.fill_bytes(&mut b);
    b
}

fn key_image_from(n: u64) -> Vec<u8> {
    let mut b = n.to_le_bytes().to_vec();
    b.extend_from_slice(&[0u8; 24]);
    b
}

fn sample_tx_out(rng: &mut StdRng) -> TxOut {
    TxOut {
        amount_commitment: pedersen_commitment_bytes(1u64 << 13, 9),
        target_key: random_bytes(rng, 32),
        public_key: random_bytes(rng, 32),
        e_account_hint: vec![0u8; 128],
    }
}

fn sample_utxo(rng: &mut StdRng) -> UnspentTxOut {
    UnspentTxOut {
        tx_out: sample_tx_out(rng),
        subaddress_index: 123,
        key_image: key_image_from(456),
        value: 789,
        attempted_spend_height: 1000,
        attempted_spend_tombstone: 1234,
    }
}

#[test]
fn test_unspent_tx_out_conversion() {
    let mut rng: StdRng = SeedableRng::from_seed([1u8; 32]);

    let tx_out = sample_tx_out(&mut rng);
    let subaddress_index = 123;
    let key_image = key_image_from(456);
    let value = 789;
    let attempted_spend_height = 1000;
    let attempted_spend_tombstone = 1234;

    let rust = UnspentTxOut {
        tx_out: tx_out.clone(),
        subaddress_index,
        key_image: key_image.clone(),
        value,
        attempted_spend_height,
        attempted_spend_tombstone,
    };

    // Record -> wire -> record
    let wire = encode_unspent_tx_out(&rust);
    let decoded = decode_unspent_tx_out(&wire).unwrap();

    assert_eq!(tx_out, decoded.tx_out);
    assert_eq!(subaddress_index, decoded.subaddress_index);
    assert_eq!(key_image, decoded.key_image);
    assert_eq!(value, decoded.value);
    assert_eq!(attempted_spend_height, decoded.attempted_spend_height);
    assert_eq!(attempted_spend_tombstone, decoded.attempted_spend_tombstone);

    assert_eq!(rust, decoded);
}

#[test]
fn test_outlay_conversion() {
    let mut rng: StdRng = SeedableRng::from_seed([1u8; 32]);
    let public_addr = random_bytes(&mut rng, 64);

    let rust = Outlay { receiver: public_addr.clone(), value: 1234 };

    // Outlay -> wire -> outlay
    let wire = encode_outlay(&rust);
    let decoded = decode_outlay(&wire).unwrap();

    assert_eq!(decoded.value, rust.value);
    assert_eq!(decoded.receiver, public_addr);

    assert_eq!(rust, decoded);
}

#[test]
fn test_tx_proposal_conversion() {
    let mut rng: StdRng = SeedableRng::from_seed([1u8; 32]);

    let tx = Tx {
        fee: 10,
        outputs: vec![sample_tx_out(&mut rng)],
        range_proof: random_bytes(&mut rng, 96),
    };

    let utxo = sample_utxo(&mut rng);

    let outlay = {
        let public_addr = random_bytes(&mut rng, 64);
        Outlay { receiver: public_addr, value: 1234 }
    };

    let outlay_index_to_tx_out_index = vec![(0, 0)];

    let rust = TxProposal {
        utxos: vec![utxo],
        outlays: vec![outlay],
        tx,
        fee: 10,
        outlay_index_to_tx_out_index,
    };

    // Proposal -> wire -> proposal
    let wire = encode_tx_proposal(&rust);
    let decoded = decode_tx_proposal(&wire).unwrap();

    assert_eq!(rust.utxos, decoded.utxos);
    assert_eq!(rust.outlays, decoded.outlays);
    assert_eq!(decoded.outlay_index_to_tx_out_index.len(), 1);
    assert_eq!(decoded.outlay_index_to_tx_out_index[0], (0, 0));
    assert_eq!(rust.tx, decoded.tx);

    assert_eq!(rust, decoded);
}

// One exact expected encoding: a u64 field, then the length-prefixed
// receiver bytes.
#[test]
fn test_outlay_exact_encoding() {
    let outlay = Outlay { value: 5, receiver: vec![1, 2, 3] };
    let wire = encode_outlay(&outlay);
    let expected: Vec<u8> = vec![
        5, 0, 0, 0, 0, 0, 0, 0, // value, little endian
        3, 0, 0, 0, 0, 0, 0, 0, // receiver length prefix
        1, 2, 3, // receiver bytes
    ];
    assert_eq!(wire, expected);
}

// Truncated and padded inputs are malformed: surfaced as errors, never
// defaulted.
#[test]
fn test_malformed_encodings_rejected() {
    let mut rng: StdRng = SeedableRng::from_seed([2u8; 32]);
    let utxo = sample_utxo(&mut rng);
    let wire = encode_unspent_tx_out(&utxo);

    let truncated: Vec<u8> = wire[..wire.len() - 1].to_vec();
    assert_eq!(
        decode_unspent_tx_out(&truncated),
        Err(ConversionError::InvalidEncoding)
    );

    let mut trailing = wire.clone();
    trailing.push(0);
    assert_eq!(
        decode_unspent_tx_out(&trailing),
        Err(ConversionError::InvalidEncoding)
    );

    let empty: Vec<u8> = Vec::new();
    assert_eq!(decode_outlay(&empty), Err(ConversionError::InvalidEncoding));
}

// Decoding a proposal message runs the validator: a wire fee that disagrees
// with the transaction's embedded fee is rejected as FeeMismatch.
#[test]
fn test_decode_rejects_fee_mismatch() {
    let mut rng: StdRng = SeedableRng::from_seed([3u8; 32]);
    let proposal = TxProposal {
        utxos: vec![sample_utxo(&mut rng)],
        outlays: vec![Outlay { receiver: random_bytes(&mut rng, 64), value: 990 }],
        tx: Tx {
            fee: 10,
            outputs: vec![sample_tx_out(&mut rng)],
            range_proof: random_bytes(&mut rng, 96),
        },
        fee: 11,
        outlay_index_to_tx_out_index: vec![(0, 0)],
    };
    let wire = encode_tx_proposal(&proposal);
    assert_eq!(decode_tx_proposal(&wire), Err(ConversionError::FeeMismatch));
}
