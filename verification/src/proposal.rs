//! Assembling and validating spend proposals.
//!
//! `assemble` composes inputs, outlays, fresh blindings, one aggregated
//! range proof over every output commitment, and the resulting transaction
//! into a `TxProposal`. `validate` re-checks the proposal's invariants —
//! declared fee against the transaction's fee, and every entry of the
//! outlay-to-output mapping against its bounds — and must run on any
//! proposal received from outside the process before it is trusted.

use vstd::prelude::*;

use rand_core::{CryptoRng, RngCore};

use crate::errors::{ConversionError, RangeProofError};
use crate::padding::{lemma_next_pow2_bounds, next_pow2};
use crate::range_proofs::{generate_range_proofs, pedersen_commitment};
use crate::types::{Outlay, OutlayModel, Tx, TxOut, TxProposal, TxProposalModel, UnspentTxOut,
    UnspentTxOutModel};

verus! {

/// Invariant (a): the declared fee agrees with the fee embedded in the
/// transaction.
pub open spec fn fee_matches(p: TxProposalModel) -> bool {
    p.fee == p.tx.fee
}

/// Invariants (b)-(e): the mapping has one entry per outlay, every outlay
/// index is in bounds, every output index is in bounds, and no outlay index
/// repeats — so each outlay maps to exactly one output, while extra outputs
/// (change) need no entry.
pub open spec fn indices_valid(p: TxProposalModel) -> bool {
    let m = p.outlay_index_to_tx_out_index;
    &&& m.len() == p.outlays.len()
    &&& (forall|i: int| 0 <= i < m.len() ==> (#[trigger] m[i]).0 < p.outlays.len())
    &&& (forall|i: int| 0 <= i < m.len() ==> (#[trigger] m[i]).1 < p.tx.outputs.len())
    &&& (forall|i: int, j: int|
        0 <= i < m.len() && 0 <= j < m.len() && i != j ==> (#[trigger] m[i]).0 != (
        #[trigger] m[j]).0)
}

/// A proposal is internally consistent when its fee invariant and all of its
/// index invariants hold.
pub open spec fn valid_proposal(p: TxProposalModel) -> bool {
    fee_matches(p) && indices_valid(p)
}

/// `c` is a hiding commitment to `value`: the Pedersen commitment of `value`
/// under some 32-byte blinding.
pub open spec fn commits_value(c: Seq<u8>, value: u64) -> bool {
    exists|b: Seq<u8>| b.len() == 32 && c == pedersen_commitment(value, b)
}

/// Re-check the invariants of a proposal, read-only: the final gate before a
/// proposal is trusted or transmitted.
///
/// Returns `Ok` exactly when the proposal is internally consistent,
/// `FeeMismatch` exactly when the declared fee disagrees with the
/// transaction's fee, and `IndexOutOfBounds` exactly when the fee agrees but
/// the outlay-to-output mapping is the wrong length, has an entry out of
/// bounds, or repeats an outlay index.
pub fn validate(proposal: &TxProposal) -> (r: Result<(), ConversionError>)
    ensures
        r == Ok::<(), ConversionError>(()) <==> valid_proposal(proposal@),
        r == Err::<(), ConversionError>(ConversionError::FeeMismatch) <==> !fee_matches(
            proposal@,
        ),
        r == Err::<(), ConversionError>(ConversionError::IndexOutOfBounds) <==> (fee_matches(
            proposal@,
        ) && !indices_valid(proposal@)),
{
    if proposal.fee != proposal.tx.fee {
        return Err(ConversionError::FeeMismatch);
    }
    let m = &proposal.outlay_index_to_tx_out_index;
    if m.len() != proposal.outlays.len() {
        return Err(ConversionError::IndexOutOfBounds);
    }
    let n_outlays: u64 = proposal.outlays.len() as u64;
    let n_outputs: u64 = proposal.tx.outputs.len() as u64;
    let mut i: usize = 0;
    while i < m.len()
        invariant
            i <= m@.len(),
            fee_matches(proposal@),
            m@.len() == proposal.outlays@.len(),
            n_outlays == proposal.outlays@.len(),
            n_outputs == proposal.tx.outputs@.len(),
            m@ == proposal@.outlay_index_to_tx_out_index,
            forall|k: int| 0 <= k < i ==> (#[trigger] m@[k]).0 < n_outlays,
            forall|k: int| 0 <= k < i ==> (#[trigger] m@[k]).1 < n_outputs,
            forall|k: int, l: int|
                0 <= k < i && 0 <= l < k ==> (#[trigger] m@[k]).0 != (#[trigger] m@[l]).0,
        decreases m@.len() - i,
    {
        let (key, value) = m[i];
        if key >= n_outlays || value >= n_outputs {
            proof {
                let mm = proposal@.outlay_index_to_tx_out_index;
                if key >= n_outlays {
                    assert(!((#[trigger] mm[i as int]).0 < proposal@.outlays.len()));
                } else {
                    assert(!(mm[i as int].1 < proposal@.tx.outputs.len()));
                }
            }
            return Err(ConversionError::IndexOutOfBounds);
        }
        let mut j: usize = 0;
        while j < i
            invariant
                j <= i < m@.len(),
                fee_matches(proposal@),
                m@ == proposal@.outlay_index_to_tx_out_index,
                key == m@[i as int].0,
                forall|l: int| 0 <= l < j ==> (#[trigger] m@[l]).0 != key,
            decreases i - j,
        {
            if m[j].0 == key {
                proof {
                    let mm = proposal@.outlay_index_to_tx_out_index;
                    assert((#[trigger] mm[j as int]).0 == (#[trigger] mm[i as int]).0);
                }
                return Err(ConversionError::IndexOutOfBounds);
            }
            j = j + 1;
        }
        i = i + 1;
    }
    Ok(())
}

/// Copy a byte string.
pub fn copy_bytes(b: &Vec<u8>) -> (r: Vec<u8>)
    ensures
        r@ == b@,
{
    let mut r: Vec<u8> = Vec::new();
    let mut i: usize = 0;
    while i < b.len()
        invariant
            i <= b@.len(),
            r@ == b@.subrange(0, i as int),
        decreases b@.len() - i,
    {
        r.push(b[i]);
        i = i + 1;
    }
    assert(r@ == b@);
    r
}

/// Everything of one transaction output except its amount commitment, as
/// shaped by the external transaction-assembly collaborator: the key
/// material and encrypted hint addressed to the recipient of one outlay.
pub struct TxOutTemplate {
    pub target_key: Vec<u8>,
    pub public_key: Vec<u8>,
    pub e_account_hint: Vec<u8>,
}

/// Relies on rand_core's `RngCore::fill_bytes`: fills a fresh 32-byte
/// blinding with caller-supplied randomness. Nothing can be promised of the
/// bytes themselves.
#[verifier::external_body]
fn random_blinding<R: RngCore + CryptoRng>(rng: &mut R) -> (r: Vec<u8>)
    ensures
        r@.len() == 32,
{
    let mut bytes = vec![0u8; 32];
    rng.fill_bytes(&mut bytes);
    bytes
}

/// Compose a spend proposal: one output commitment per outlay under a fresh
/// blinding, a single aggregated range proof covering all of them, the
/// transaction built from the collaborator-shaped output templates, and the
/// mapping that records which output slot realizes each outlay.
///
/// On success the proposal is internally consistent (`valid_proposal`), its
/// transaction carries one output per outlay whose commitment is the
/// Pedersen commitment of that outlay's value under some 32-byte blinding,
/// and outlay `i` maps to output slot `i`.
pub fn assemble<R: RngCore + CryptoRng>(
    utxos: Vec<UnspentTxOut>,
    outlays: Vec<Outlay>,
    templates: &Vec<TxOutTemplate>,
    fee: u64,
    rng: &mut R,
) -> (r: Result<TxProposal, RangeProofError>)
    requires
        outlays@.len() >= 1,
        templates@.len() == outlays@.len(),
    ensures
        match r {
            Ok(p) => {
                &&& valid_proposal(p@)
                &&& p@.utxos == utxos@.map_values(|u: UnspentTxOut| u@)
                &&& p@.outlays == outlays@.map_values(|o: Outlay| o@)
                &&& p@.fee == fee
                &&& p@.tx.fee == fee
                &&& p@.tx.outputs.len() == outlays@.len()
                &&& (forall|i: int|
                    0 <= i < outlays@.len() ==> commits_value(
                        (#[trigger] p@.tx.outputs[i]).amount_commitment,
                        outlays@[i].value,
                    ))
                &&& (forall|i: int|
                    0 <= i < outlays@.len() ==> (#[trigger] p@.tx.outputs[i]).target_key
                        == templates@[i].target_key@ && p@.tx.outputs[i].public_key
                        == templates@[i].public_key@ && p@.tx.outputs[i].e_account_hint
                        == templates@[i].e_account_hint@)
                &&& p@.outlay_index_to_tx_out_index.len() == outlays@.len()
                &&& (forall|i: int|
                    0 <= i < outlays@.len() ==> (#[trigger] p@.outlay_index_to_tx_out_index[i])
                        == (i as u64, i as u64))
            },
            Err(e) => {
                &&& (e == RangeProofError::PaddingOverflow || e
                    == RangeProofError::ProofGenerationFailure)
                &&& (e == RangeProofError::PaddingOverflow ==> next_pow2(
                    outlays@.len() as nat,
                ) > usize::MAX)
            },
        },
{
    let n = outlays.len();
    let mut values: Vec<u64> = Vec::new();
    let mut blindings: Vec<Vec<u8>> = Vec::new();
    let mut i: usize = 0;
    while i < n
        invariant
            i <= n == outlays@.len(),
            values@.len() == i,
            blindings@.len() == i,
            forall|k: int| 0 <= k < i ==> values@[k] == outlays@[k].value,
            forall|k: int| 0 <= k < i ==> (#[trigger] blindings@[k])@.len() == 32,
        decreases n - i,
    {
        values.push(outlays[i].value);
        blindings.push(random_blinding(rng));
        i = i + 1;
    }
    let (proof_bytes, commitments) = match generate_range_proofs(&values, &blindings, rng) {
        Ok(pc) => pc,
        Err(e) => {
            return Err(e);
        },
    };
    proof {
        lemma_next_pow2_bounds(n as nat);
    }
    let mut outputs: Vec<TxOut> = Vec::new();
    let mut j: usize = 0;
    while j < n
        invariant
            j <= n == outlays@.len(),
            n == templates@.len(),
            outputs@.len() == j,
            commitments@.len() >= n,
            values@.len() == n,
            blindings@.len() == n,
            forall|k: int| 0 <= k < n ==> values@[k] == outlays@[k].value,
            forall|k: int| 0 <= k < n ==> (#[trigger] blindings@[k])@.len() == 32,
            forall|k: int|
                0 <= k < n ==> (#[trigger] commitments@[k])@ == pedersen_commitment(
                    values@[k],
                    blindings@[k]@,
                ),
            forall|k: int|
                0 <= k < j ==> (#[trigger] outputs@[k])@.amount_commitment
                    == pedersen_commitment(outlays@[k].value, blindings@[k]@),
            forall|k: int|
                0 <= k < j ==> (#[trigger] outputs@[k])@.target_key == templates@[k].target_key@
                    && outputs@[k]@.public_key == templates@[k].public_key@
                    && outputs@[k]@.e_account_hint == templates@[k].e_account_hint@,
        decreases n - j,
    {
        outputs.push(
            TxOut {
                amount_commitment: copy_bytes(&commitments[j]),
                target_key: copy_bytes(&templates[j].target_key),
                public_key: copy_bytes(&templates[j].public_key),
                e_account_hint: copy_bytes(&templates[j].e_account_hint),
            },
        );
        j = j + 1;
    }
    let mut mapping: Vec<(u64, u64)> = Vec::new();
    let mut k: usize = 0;
    while k < n
        invariant
            k <= n,
            mapping@.len() == k,
            forall|l: int| 0 <= l < k ==> (#[trigger] mapping@[l]) == (l as u64, l as u64),
        decreases n - k,
    {
        mapping.push((k as u64, k as u64));
        k = k + 1;
    }
    let tx = Tx { fee, outputs, range_proof: proof_bytes };
    let proposal = TxProposal { utxos, outlays, tx, fee, outlay_index_to_tx_out_index: mapping };
    proof {
        let m = proposal@.outlay_index_to_tx_out_index;
        assert forall|a: int| 0 <= a < m.len() implies (#[trigger] m[a]).0
            < proposal@.outlays.len() && m[a].1 < proposal@.tx.outputs.len() by {
            assert(m[a] == (a as u64, a as u64));
        }
        assert forall|a: int, b: int| 0 <= a < m.len() && 0 <= b < m.len() && a != b implies (
        #[trigger] m[a]).0 != (#[trigger] m[b]).0 by {
            assert(m[a] == (a as u64, a as u64) && m[b] == (b as u64, b as u64));
        }
        assert forall|i2: int| 0 <= i2 < outlays@.len() implies commits_value(
            (#[trigger] proposal@.tx.outputs[i2]).amount_commitment,
            outlays@[i2].value,
        ) by {
            let b = blindings@[i2]@;
            assert(b.len() == 32 && proposal@.tx.outputs[i2].amount_commitment
                == pedersen_commitment(outlays@[i2].value, b));
        }
    }
    Ok(proposal)
}

} // verus!
