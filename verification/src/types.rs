//! The transaction-proposal data model: spendable inputs, intended payments,
//! the assembled transaction, and the proposal that ties them together.
//!
//! Each executable type has a ghost model (its view) over mathematical
//! sequences; the wire codec and the validator state their contracts over
//! these models.

use vstd::prelude::*;

verus! {

/// One output of an assembled transaction: a hiding commitment to its amount
/// plus the key material and encrypted hint addressed to its recipient.
#[derive(Clone, Debug, PartialEq, Eq)]
pub struct TxOut {
    /// Compressed Pedersen commitment to the output's amount.
    pub amount_commitment: Vec<u8>,
    /// One-time target key of the output.
    pub target_key: Vec<u8>,
    /// Per-output public key.
    pub public_key: Vec<u8>,
    /// Encrypted account hint for the recipient.
    pub e_account_hint: Vec<u8>,
}

pub ghost struct TxOutModel {
    pub amount_commitment: Seq<u8>,
    pub target_key: Seq<u8>,
    pub public_key: Seq<u8>,
    pub e_account_hint: Seq<u8>,
}

impl View for TxOut {
    type V = TxOutModel;

    open spec fn view(&self) -> TxOutModel {
        TxOutModel {
            amount_commitment: self.amount_commitment@,
            target_key: self.target_key@,
            public_key: self.public_key@,
            e_account_hint: self.e_account_hint@,
        }
    }
}

/// A spendable output owned by the wallet, discovered during ledger
/// scanning. `key_image` uniquely identifies the record and prevents double
/// spending; `value` is the cleartext amount behind the output's commitment,
/// trusted wallet-side input that is not re-derived here. The
/// `attempted_spend_*` fields are storage for an external leasing policy;
/// their enforcement lives outside this core.
#[derive(Clone, Debug, PartialEq, Eq)]
pub struct UnspentTxOut {
    pub tx_out: TxOut,
    pub subaddress_index: u32,
    pub key_image: Vec<u8>,
    pub value: u64,
    pub attempted_spend_height: u64,
    pub attempted_spend_tombstone: u64,
}

pub ghost struct UnspentTxOutModel {
    pub tx_out: TxOutModel,
    pub subaddress_index: u32,
    pub key_image: Seq<u8>,
    pub value: u64,
    pub attempted_spend_height: u64,
    pub attempted_spend_tombstone: u64,
}

impl View for UnspentTxOut {
    type V = UnspentTxOutModel;

    open spec fn view(&self) -> UnspentTxOutModel {
        UnspentTxOutModel {
            tx_out: self.tx_out@,
            subaddress_index: self.subaddress_index,
            key_image: self.key_image@,
            value: self.value,
            attempted_spend_height: self.attempted_spend_height,
            attempted_spend_tombstone: self.attempted_spend_tombstone,
        }
    }
}

/// An intended payment: an amount and the encoded public address of its
/// receiver. Immutable value object created by the caller assembling a
/// payment request.
#[derive(Clone, Debug, PartialEq, Eq)]
pub struct Outlay {
    pub value: u64,
    pub receiver: Vec<u8>,
}

pub ghost struct OutlayModel {
    pub value: u64,
    pub receiver: Seq<u8>,
}

impl View for Outlay {
    type V = OutlayModel;

    open spec fn view(&self) -> OutlayModel {
        OutlayModel { value: self.value, receiver: self.receiver@ }
    }
}

/// The assembled transaction as this core sees it: an aggregate fee, an
/// index-addressable output list, and the embedded aggregated range proof
/// over the output commitments. Shaping and signing beyond this structure
/// belong to an external transaction-assembly collaborator.
#[derive(Clone, Debug, PartialEq, Eq)]
pub struct Tx {
    pub fee: u64,
    pub outputs: Vec<TxOut>,
    pub range_proof: Vec<u8>,
}

pub ghost struct TxModel {
    pub fee: u64,
    pub outputs: Seq<TxOutModel>,
    pub range_proof: Seq<u8>,
}

impl View for Tx {
    type V = TxModel;

    open spec fn view(&self) -> TxModel {
        TxModel {
            fee: self.fee,
            outputs: self.outputs@.map_values(|o: TxOut| o@),
            range_proof: self.range_proof@,
        }
    }
}

/// A spend proposal: the inputs it consumes, the intended payments, the
/// assembled transaction, the declared fee, and the mapping that records,
/// for each outlay index, which output slot realizes it. The transaction may
/// contain extra outputs (change) that appear in no mapping entry.
#[derive(Clone, Debug, PartialEq, Eq)]
pub struct TxProposal {
    pub utxos: Vec<UnspentTxOut>,
    pub outlays: Vec<Outlay>,
    pub tx: Tx,
    pub fee: u64,
    pub outlay_index_to_tx_out_index: Vec<(u64, u64)>,
}

pub ghost struct TxProposalModel {
    pub utxos: Seq<UnspentTxOutModel>,
    pub outlays: Seq<OutlayModel>,
    pub tx: TxModel,
    pub fee: u64,
    pub outlay_index_to_tx_out_index: Seq<(u64, u64)>,
}

impl View for TxProposal {
    type V = TxProposalModel;

    open spec fn view(&self) -> TxProposalModel {
        TxProposalModel {
            utxos: self.utxos@.map_values(|u: UnspentTxOut| u@),
            outlays: self.outlays@.map_values(|o: Outlay| o@),
            tx: self.tx@,
            fee: self.fee,
            outlay_index_to_tx_out_index: self.outlay_index_to_tx_out_index@,
        }
    }
}

} // verus!
